//! Properties of the matcher stated over the specifications of its operations.
use vstd::prelude::*;
use vstd::std_specs::cmp::PartialEqSpec;

use crate::element::{ElementSettings, Pattern, PatternElement};
use crate::hooks::ExtractorAction;
use crate::matcher::{lemma_name_index, name_index, spec_next_position, table_after, Matcher};

use crate::types::MatcherError;

verus! {

/// Items compare by `==` exactly when they are the same value.
pub open spec fn eq_is_identity<T: PartialEq>() -> bool {
    &&& T::obeys_eq_spec()
    &&& forall|a: T, b: T| #[trigger] a.eq_spec(&b) <==> a == b
}

/// A chain of a single `Exact(v)` element without settings: feeding an
/// item that `==` finds equal to `v` returns that item, feeding any other
/// item returns `None`, and either way the cursor is back at 0. Where `==`
/// is the identity, that reads: `v` gives `Some(v)`, any `w != v` gives
/// `None`.
pub proof fn law_single_exact<T: Clone + PartialEq + PartialOrd, Context>(
    m: Matcher<T, Context>,
    v: T,
    item: T,
    new: Matcher<T, Context>,
    r: Result<Option<T>, MatcherError>,
)
    requires
        T::obeys_eq_spec(),
        m.wf(),
        m.chain() == seq![(PatternElement::<T, Context>::Exact { value: v, settings: None })],
        Matcher::step_outcome(m, item, new, r),
    ensures
        item.eq_spec(&v) ==> r == Ok::<Option<T>, MatcherError>(Some(item)),
        !item.eq_spec(&v) ==> r == Ok::<Option<T>, MatcherError>(None),
        eq_is_identity::<T>() ==> (item == v ==> r == Ok::<Option<T>, MatcherError>(Some(v))) && (item != v ==> r
            == Ok::<Option<T>, MatcherError>(None)),
        new.cursor() == 0,
{
    assert(m.cursor() == 0);
    if eq_is_identity::<T>() {
        assert(item.eq_spec(&v) <==> item == v);
    }
}

/// An `Exact(x)` element with `min_repeat == max_repeat == 0` succeeds,
/// consuming nothing, exactly when `==` does not find the item at the
/// position equal to `x`.
pub proof fn law_negative_assertion<T: PartialEq + PartialOrd, Context>(
    x: T,
    settings: ElementSettings<Context>,
    data: Seq<T>,
    pos: int,
    r: Option<usize>,
)
    requires
        T::obeys_eq_spec(),
        settings.min_repeat == 0,
        settings.max_repeat == 0,
        0 <= pos < data.len(),
        (PatternElement::Exact { value: x, settings: Some(settings) }).repeat_outcome(data, pos, r),
    ensures
        r is Some <==> !data[pos].eq_spec(&x),
        r is Some ==> r == Some(0usize),
        eq_is_identity::<T>() ==> (r is Some <==> data[pos] != x),
{
    if eq_is_identity::<T>() {
        assert(data[pos].eq_spec(&x) <==> data[pos] == x);
    }
}

/// A `Skip` past the end of the input is refused with `InvalidPosition`.
pub proof fn law_skip_past_end<T, Context>(pos: int, default_next: int, len: int)
    requires
        0 <= pos < len < usize::MAX,
    ensures
        spec_next_position(ExtractorAction::<T, Context>::Skip((len + 1) as usize), pos, default_next, len) matches Err(
            MatcherError::InvalidPosition(_),
        ),
{
}

/// Removing a name that is not in the table fails with `PatternNotFound`
/// carrying that name.
pub proof fn law_remove_missing<T, Context>(table: Seq<(String, Pattern<T, Context>)>, name: String)
    requires
        forall|i: int| 0 <= i < table.len() ==> #[trigger] table[i].0@ != name@,
    ensures
        table_after(table, ExtractorAction::RemovePattern(name)) == Err::<
            Seq<(String, Pattern<T, Context>)>,
            MatcherError,
        >(MatcherError::PatternNotFound(name)),
{
    lemma_name_index(table, name@);
    if let Some(i) = name_index(table, name@) {
        assert(table[i].0@ == name@);
    }
}

/// In a batch scan, when the extractor of the winning pattern answers
/// `Skip(n)` with `n` past the end of the input and nothing is staged, the
/// scan ends with `InvalidPosition`.
pub proof fn law_scan_skip_past_end<T: Clone + PartialEq + PartialOrd, Context>(
    m: Matcher<T, Context>,
    t: Seq<(String, Pattern<T, Context>)>,
    data: Seq<T>,
    pos: int,
    steps: int,
    end: int,
    n: usize,
    nt: Seq<(String, Pattern<T, Context>)>,
    r: Result<(), MatcherError>,
)
    requires
        0 <= pos < data.len(),
        1 <= steps <= usize::MAX,
        pos + n > data.len(),
        Matcher::apply_phase(m, t, data, pos, steps, end, Seq::empty(), ExtractorAction::Skip(n), nt, r),
    ensures
        r matches Err(MatcherError::InvalidPosition(_)),
        nt == t,
{
}

/// In a batch scan, a staged `RemovePattern(name)` for a name that is not in
/// the table ends the scan with `PatternNotFound(name)`.
pub proof fn law_scan_remove_missing<T: Clone + PartialEq + PartialOrd, Context>(
    m: Matcher<T, Context>,
    t: Seq<(String, Pattern<T, Context>)>,
    data: Seq<T>,
    pos: int,
    steps: int,
    end: int,
    name: String,
    rest: Seq<ExtractorAction<T, Context>>,
    control: ExtractorAction<T, Context>,
    nt: Seq<(String, Pattern<T, Context>)>,
    r: Result<(), MatcherError>,
)
    requires
        1 <= steps <= usize::MAX,
        forall|i: int| 0 <= i < t.len() ==> #[trigger] t[i].0@ != name@,
        Matcher::apply_phase(
            m,
            t,
            data,
            pos,
            steps,
            end,
            seq![ExtractorAction::RemovePattern(name)] + rest,
            control,
            nt,
            r,
        ),
    ensures
        r == Err::<(), MatcherError>(MatcherError::PatternNotFound(name)),
        nt == t,
{
    law_remove_missing::<T, Context>(t, name);
    assert((seq![ExtractorAction::RemovePattern(name)] + rest)[0] == ExtractorAction::<T, Context>::RemovePattern(
        name,
    ));
}

} // verus!
