use vstd::prelude::*;

use vstd::std_specs::cmp::{PartialEqSpec, PartialOrdSpec};

use crate::hooks::ItemPredicate;
use crate::types::{ExtractorId, MatcherError};

verus! {

/// Configuration of one pattern element.
#[derive(Debug, Clone)]
pub struct ElementSettings<Context> {
    /// Retries allowed for this element (informational).
    pub max_retries: usize,
    /// In the chain, a mismatch on an optional element moves on to the next
    /// element with the same item instead of starting over.
    pub optional: bool,
    /// Timeout for this element in milliseconds (informational).
    pub timeout_ms: Option<u64>,
    /// Data of the caller attached to this element; the matcher never reads it.
    pub context: Option<Context>,
    /// Extractor called for each item this element matches.
    pub extractor_id: Option<ExtractorId>,
    /// Fewest consecutive items the element must match (batch mode).
    pub min_repeat: usize,
    /// Most consecutive items the element may match (batch mode); 0 makes the
    /// element a negative assertion.
    pub max_repeat: usize,
    /// Whether the element takes as many items as it may, or stops once it has
    /// `min_repeat` of them.
    pub greedy: bool,
    /// Lower values are tried first.
    pub priority: u32,
}

impl<Context> ElementSettings<Context> {
    /// The settings of an element that has none of its own.
    pub open spec fn spec_default() -> Self {
        ElementSettings {
            max_retries: 0,
            optional: false,
            timeout_ms: None,
            context: None,
            extractor_id: None,
            min_repeat: 1,
            max_repeat: 1,
            greedy: true,
            priority: 0,
        }
    }

    /// Default settings: exactly one item, greedy, required, no extractor.
    pub fn new() -> (s: Self)
        ensures
            s == Self::spec_default(),
    {
        ElementSettings {
            max_retries: 0,
            optional: false,
            timeout_ms: None,
            context: None,
            extractor_id: None,
            min_repeat: 1,
            max_repeat: 1,
            greedy: true,
            priority: 0,
        }
    }
}

impl<Context> Default for ElementSettings<Context> {
    fn default() -> (s: Self)
        ensures
            s == Self::spec_default(),
    {
        Self::new()
    }
}

/// A matchable unit of a pattern.
#[verifier::reject_recursive_types(T)]
pub enum PatternElement<T, Context> {
    /// Matches an item equal to `value`.
    Exact { value: T, settings: Option<ElementSettings<Context>> },
    /// Matches an item on which `function` answers true.
    Predicate { function: Box<dyn ItemPredicate<T>>, settings: Option<ElementSettings<Context>> },
    /// Matches an item with `min <= item <= max`.
    Range { min: T, max: T, settings: Option<ElementSettings<Context>> },
    /// Matches every item.
    Wildcard { settings: Option<ElementSettings<Context>> },
    /// Matches an item that `inner` matches. The inner element only tests
    /// single items; repetition, optionality and the extractor come from
    /// this element's own settings.
    Repeat { inner: Box<PatternElement<T, Context>>, settings: Option<ElementSettings<Context>> },
}

/// `min <= item <= max` as the items' ordering states it.
pub open spec fn spec_in_range<T: PartialOrd>(item: T, min: T, max: T) -> bool {
    &&& item.partial_cmp_spec(&min) matches Some(
        core::cmp::Ordering::Greater
        | core::cmp::Ordering::Equal,
    )
    &&& item.partial_cmp_spec(&max) matches Some(
        core::cmp::Ordering::Less
        | core::cmp::Ordering::Equal,
    )
}

impl<T, Context> PatternElement<T, Context> {
    /// The settings stored in the element, if any.
    pub open spec fn spec_settings_opt(&self) -> Option<ElementSettings<Context>> {
        match self {
            PatternElement::Exact { settings, .. } => *settings,
            PatternElement::Predicate { settings, .. } => *settings,
            PatternElement::Range { settings, .. } => *settings,
            PatternElement::Wildcard { settings } => *settings,
            PatternElement::Repeat { settings, .. } => *settings,
        }
    }

    /// The settings in force for the element.
    pub open spec fn spec_settings(&self) -> ElementSettings<Context> {
        match self.spec_settings_opt() {
            Some(s) => s,
            None => ElementSettings::spec_default(),
        }
    }

    /// Whether the element is optional in the chain.
    pub open spec fn is_optional(&self) -> bool {
        self.spec_settings().optional
    }

    /// The extractor the element refers to.
    pub open spec fn extractor_ref(&self) -> Option<ExtractorId> {
        self.spec_settings().extractor_id
    }

    /// The items the element may be tested on.
    pub open spec fn admits(&self, item: T) -> bool
        decreases self,
    {
        match self {
            PatternElement::Predicate { function, .. } => function.admits(item),
            PatternElement::Repeat { inner, .. } => inner.admits(item),
            _ => true,
        }
    }

    /// Bounds and greediness of the element are consistent.
    pub open spec fn well_formed(&self) -> bool {
        self.spec_settings().min_repeat <= self.spec_settings().max_repeat
    }

    pub(crate) fn bounds_consistent(&self) -> (b: bool)
        ensures
            b == self.well_formed(),
    {
        let (min, max, _) = self.quantifier();
        min <= max
    }

    pub(crate) fn optional_flag(&self) -> (b: bool)
        ensures
            b == self.is_optional(),
    {
        let own = match self {
            PatternElement::Exact { settings, .. } => settings,
            PatternElement::Predicate { settings, .. } => settings,
            PatternElement::Range { settings, .. } => settings,
            PatternElement::Wildcard { settings } => settings,
            PatternElement::Repeat { settings, .. } => settings,
        };
        match own {
            Some(s) => s.optional,
            None => false,
        }
    }

    pub(crate) fn extractor_of(&self) -> (r: Option<ExtractorId>)
        ensures
            r == self.extractor_ref(),
    {
        let own = match self {
            PatternElement::Exact { settings, .. } => settings,
            PatternElement::Predicate { settings, .. } => settings,
            PatternElement::Range { settings, .. } => settings,
            PatternElement::Wildcard { settings } => settings,
            PatternElement::Repeat { settings, .. } => settings,
        };
        match own {
            Some(s) => s.extractor_id,
            None => None,
        }
    }

    fn quantifier(&self) -> (r: (usize, usize, bool))
        ensures
            r == (
                self.spec_settings().min_repeat,
                self.spec_settings().max_repeat,
                self.spec_settings().greedy,
            ),
    {
        let own = match self {
            PatternElement::Exact { settings, .. } => settings,
            PatternElement::Predicate { settings, .. } => settings,
            PatternElement::Range { settings, .. } => settings,
            PatternElement::Wildcard { settings } => settings,
            PatternElement::Repeat { settings, .. } => settings,
        };
        match own {
            Some(s) => (s.min_repeat, s.max_repeat, s.greedy),
            None => (1, 1, true),
        }
    }
}

impl<T: PartialEq + PartialOrd, Context> PatternElement<T, Context> {
    /// `r` is a possible answer of the element on `item`: equality for `Exact`,
    /// the predicate's answer for `Predicate`, inclusive bounds for `Range`,
    /// always true for `Wildcard`.
    pub open spec fn gives(&self, item: T, r: bool) -> bool
        decreases self,
    {
        match self {
            PatternElement::Exact { value, .. } => T::obeys_eq_spec() ==> r == item.eq_spec(value),
            PatternElement::Predicate { function, .. } => function.gives(item, r),
            PatternElement::Range { min, max, .. } => T::obeys_partial_cmp_spec() ==> r
                == spec_in_range(item, *min, *max),
            PatternElement::Wildcard { .. } => r,
            PatternElement::Repeat { inner, .. } => inner.gives(item, r),
        }
    }

    /// The element decides by comparison alone (no predicate, also not
    /// inside a `Repeat`) and refers to no extractor.
    pub open spec fn is_plain(&self) -> bool
        decreases self,
    {
        &&& self.extractor_ref() is None
        &&& match self {
            PatternElement::Predicate { .. } => false,
            PatternElement::Repeat { inner, .. } => inner.is_plain_test(),
            _ => true,
        }
    }

    /// The element's item test uses no predicate.
    pub open spec fn is_plain_test(&self) -> bool
        decreases self,
    {
        match self {
            PatternElement::Predicate { .. } => false,
            PatternElement::Repeat { inner, .. } => inner.is_plain_test(),
            _ => true,
        }
    }

    /// The answer of an element without predicate on `item`.
    pub open spec fn plain_matches(&self, item: T) -> bool
        decreases self,
    {
        match self {
            PatternElement::Exact { value, .. } => item.eq_spec(value),
            PatternElement::Predicate { .. } => false,
            PatternElement::Range { min, max, .. } => spec_in_range(item, *min, *max),
            PatternElement::Wildcard { .. } => true,
            PatternElement::Repeat { inner, .. } => inner.plain_matches(item),
        }
    }

    /// Without predicates, the element's answer is `plain_matches`.
    pub proof fn lemma_plain_gives(&self, item: T, b: bool)
        requires
            self.is_plain_test(),
            T::obeys_eq_spec(),
            T::obeys_partial_cmp_spec(),
            self.gives(item, b),
        ensures
            b == self.plain_matches(item),
        decreases self,
    {
        if let PatternElement::Repeat { inner, .. } = self {
            inner.lemma_plain_gives(item, b);
        }
    }

    /// Tests the element against one item.
    pub fn matches(&self, item: &T) -> (r: Result<bool, MatcherError>)
        requires
            self.admits(*item),
        ensures
            r matches Ok(b) && self.gives(*item, b),
    {
        Ok(self.check(item))
    }

    pub(crate) fn check(&self, item: &T) -> (b: bool)
        requires
            self.admits(*item),
        ensures
            self.gives(*item, b),
        decreases self,
    {
        match self {
            PatternElement::Exact { value, .. } => *item == *value,
            PatternElement::Predicate { function, .. } => function.test(item),
            PatternElement::Range { min, max, .. } => *item >= *min && *item <= *max,
            PatternElement::Wildcard { .. } => true,
            PatternElement::Repeat { inner, .. } => inner.check(item),
        }
    }

    /// The repetition loop started at `pos` may stop after `k` items: each of
    /// them matched, and the loop then hit `max_repeat`, the end of the input,
    /// the early stop of a non-greedy element, or an item that did not match.
    pub open spec fn repeat_stops_at(&self, data: Seq<T>, pos: int, k: int) -> bool {
        let s = self.spec_settings();
        &&& 0 <= k <= s.max_repeat
        &&& pos + k <= data.len()
        &&& forall|j: int| 0 <= j < k ==> #[trigger] self.gives(data[pos + j], true)
        &&& !s.greedy ==> (k <= 1 || k - 1 < s.min_repeat)
        &&& {
            ||| k == s.max_repeat
            ||| pos + k == data.len()
            ||| (!s.greedy && k >= 1 && k >= s.min_repeat)
            ||| self.gives(data[pos + k], false)
        }
    }

    /// `r` is a possible outcome of matching the element with its quantifier at
    /// `pos`: `Some(k)` when it consumed `k` items, `None` when it failed.
    ///
    /// With `max_repeat == 0` the element is a negative assertion: it consumes
    /// nothing, and succeeds iff `min_repeat == 0` and the item at `pos` (if
    /// any) does not match.
    pub open spec fn repeat_outcome(&self, data: Seq<T>, pos: int, r: Option<usize>) -> bool {
        let s = self.spec_settings();
        if s.max_repeat == 0 {
            if s.min_repeat > 0 {
                r is None
            } else if pos == data.len() {
                r == Some(0usize)
            } else {
                ||| (r == Some(0usize) && self.gives(data[pos], false))
                ||| (r is None && self.gives(data[pos], true))
            }
        } else {
            match r {
                Some(k) => k >= s.min_repeat && self.repeat_stops_at(data, pos, k as int),
                None => exists|k: int| self.repeat_stops_at(data, pos, k) && k < s.min_repeat,
            }
        }
    }

    /// Matches the element with its quantifier against `data` from `pos`.
    ///
    /// Returns the number of items consumed, or `None` when the element fails.
    pub fn match_at(&self, data: &[T], pos: usize) -> (r: Option<usize>)
        requires
            pos <= data@.len(),
            forall|j: int| pos <= j < data@.len() ==> self.admits(#[trigger] data@[j]),
        ensures
            self.repeat_outcome(data@, pos as int, r),
            r matches Some(k) ==> pos + k <= data@.len(),
    {
        let (min, max, greedy) = self.quantifier();
        if max == 0 {
            if min > 0 {
                return None;
            }
            if pos == data.len() {
                return Some(0);
            }
            if self.check(&data[pos]) {
                return None;
            } else {
                return Some(0);
            }
        }
        let n = data.len();
        let mut k: usize = 0;
        loop
            invariant
                n == data@.len(),
                min == self.spec_settings().min_repeat,
                max == self.spec_settings().max_repeat,
                greedy == self.spec_settings().greedy,
                max > 0,
                pos <= data@.len(),
                forall|j: int| pos <= j < data@.len() ==> self.admits(#[trigger] data@[j]),
                0 <= k <= max,
                pos + k <= data@.len(),
                forall|j: int| 0 <= j < k ==> #[trigger] self.gives(data@[pos + j], true),
                !greedy ==> (k <= 1 || k - 1 < min),
                !greedy ==> !(k >= 1 && k >= min),
            decreases max - k,
        {
            if k == max || k == n - pos {
                assert(self.repeat_stops_at(data@, pos as int, k as int));
                return if k >= min {
                    Some(k)
                } else {
                    None
                };
            }
            let b = self.check(&data[pos + k]);
            if !b {
                assert(self.repeat_stops_at(data@, pos as int, k as int));
                return if k >= min {
                    Some(k)
                } else {
                    None
                };
            }
            k = k + 1;
            if !greedy && k >= min {
                assert(self.repeat_stops_at(data@, pos as int, k as int));
                return Some(k);
            }
        }
    }
}

impl<T, Context: Clone> PatternElement<T, Context> {
    /// The settings in force for the element: its own, or the defaults.
    pub fn settings(&self) -> (s: ElementSettings<Context>)
        ensures
            s.max_retries == self.spec_settings().max_retries,
            s.optional == self.spec_settings().optional,
            s.timeout_ms == self.spec_settings().timeout_ms,
            s.extractor_id == self.spec_settings().extractor_id,
            s.min_repeat == self.spec_settings().min_repeat,
            s.max_repeat == self.spec_settings().max_repeat,
            s.greedy == self.spec_settings().greedy,
            s.priority == self.spec_settings().priority,
            self.spec_settings().context is None ==> s.context is None,
            self.spec_settings().context matches Some(c) ==> (s.context matches Some(d) && cloned(c, d)),
    {
        let own = match self {
            PatternElement::Exact { settings, .. } => settings,
            PatternElement::Predicate { settings, .. } => settings,
            PatternElement::Range { settings, .. } => settings,
            PatternElement::Wildcard { settings } => settings,
            PatternElement::Repeat { settings, .. } => settings,
        };
        match own {
            Some(s) => ElementSettings {
                max_retries: s.max_retries,
                optional: s.optional,
                timeout_ms: s.timeout_ms,
                context: match &s.context {
                    Some(c) => Some(c.clone()),
                    None => None,
                },
                extractor_id: s.extractor_id,
                min_repeat: s.min_repeat,
                max_repeat: s.max_repeat,
                greedy: s.greedy,
                priority: s.priority,
            },
            None => ElementSettings::new(),
        }
    }
}

impl<T, Context> PatternElement<T, Context> {
    /// An element matching items equal to `value`.
    pub fn exact(value: T) -> (r: Self)
        ensures
            r == (PatternElement::Exact::<T, Context> { value, settings: None }),
    {
        PatternElement::Exact { value, settings: None }
    }

    /// An element matching items equal to `value`, with settings.
    pub fn exact_with_settings(value: T, settings: ElementSettings<Context>) -> (r: Self)
        ensures
            r == (PatternElement::Exact { value, settings: Some(settings) }),
    {
        PatternElement::Exact { value, settings: Some(settings) }
    }

    /// An element matching items on which `function` answers true.
    pub fn predicate<F: Fn(&T) -> bool + 'static>(function: F) -> (r: Self)
        ensures
            r matches PatternElement::Predicate { settings, .. } && settings is None,
            r matches PatternElement::Predicate { function: g, .. } ==> (forall|x: T| #[trigger] g.admits(x)
                == call_requires(function, (&x,))) && (forall|x: T, b: bool| #[trigger] g.gives(x, b)
                == call_ensures(function, (&x,), b)),
    {
        PatternElement::Predicate { function: Box::new(function), settings: None }
    }

    /// An element matching items on which `function` answers true, with settings.
    pub fn predicate_with_settings<F: Fn(&T) -> bool + 'static>(
        function: F,
        settings: ElementSettings<Context>,
    ) -> (r: Self)
        ensures
            r matches PatternElement::Predicate { settings: s, .. } && s == Some(settings),
            r matches PatternElement::Predicate { function: g, .. } ==> (forall|x: T| #[trigger] g.admits(x)
                == call_requires(function, (&x,))) && (forall|x: T, b: bool| #[trigger] g.gives(x, b)
                == call_ensures(function, (&x,), b)),
    {
        PatternElement::Predicate { function: Box::new(function), settings: Some(settings) }
    }

    /// An element matching items in the inclusive range `min..=max`.
    pub fn range(min: T, max: T) -> (r: Self)
        ensures
            r == (PatternElement::Range::<T, Context> { min, max, settings: None }),
    {
        PatternElement::Range { min, max, settings: None }
    }

    /// An element matching items in the inclusive range `min..=max`, with settings.
    pub fn range_with_settings(min: T, max: T, settings: ElementSettings<Context>) -> (r: Self)
        ensures
            r == (PatternElement::Range { min, max, settings: Some(settings) }),
    {
        PatternElement::Range { min, max, settings: Some(settings) }
    }

    /// An element matching every item.
    pub fn wildcard() -> (r: Self)
        ensures
            r == (PatternElement::Wildcard::<T, Context> { settings: None }),
    {
        PatternElement::Wildcard { settings: None }
    }

    /// An element matching the items `inner` matches, repeated as its own
    /// settings say.
    pub fn repeat(inner: PatternElement<T, Context>, settings: ElementSettings<Context>) -> (r: Self)
        ensures
            r == (PatternElement::Repeat { inner: Box::new(inner), settings: Some(settings) }),
    {
        PatternElement::Repeat { inner: Box::new(inner), settings: Some(settings) }
    }

    /// An element matching every item, with settings.
    pub fn wildcard_with_settings(settings: ElementSettings<Context>) -> (r: Self)
        ensures
            r == (PatternElement::Wildcard::<T, Context> { settings: Some(settings) }),
    {
        PatternElement::Wildcard { settings: Some(settings) }
    }
}

/// Pattern-level configuration.
#[derive(Debug, Clone, Copy, PartialEq, Eq, Structural)]
pub struct PatternSettings {
    /// Lower values are tried first; equal priorities go by registration order.
    pub priority: u32,
    /// Extractor called once the whole pattern has matched.
    pub extractor_id: Option<ExtractorId>,
}

impl PatternSettings {
    /// Priority 0 and no extractor.
    pub fn new() -> (s: Self)
        ensures
            s == (PatternSettings { priority: 0, extractor_id: None }),
    {
        PatternSettings { priority: 0, extractor_id: None }
    }
}

impl Default for PatternSettings {
    fn default() -> (s: Self)
        ensures
            s == (PatternSettings { priority: 0, extractor_id: None }),
    {
        Self::new()
    }
}

/// A named-table entry: elements matched in order at one scan position.
#[verifier::reject_recursive_types(T)]
pub struct Pattern<T, Context> {
    /// The elements, in match order.
    pub elements: Vec<PatternElement<T, Context>>,
    /// Priority and pattern-level extractor.
    pub settings: PatternSettings,
}

impl<T, Context> Pattern<T, Context> {
    /// Every element may be tested on every item.
    pub open spec fn admits_all(&self) -> bool {
        forall|i: int, x: T| 0 <= i < self.elements@.len() ==> #[trigger] self.elements@[i].admits(x)
    }

    /// Every element has consistent bounds.
    pub open spec fn well_formed(&self) -> bool {
        forall|i: int| 0 <= i < self.elements@.len() ==> #[trigger] self.elements@[i].well_formed()
    }

    /// Neither the pattern nor any of its elements refers to an extractor.
    pub open spec fn has_no_extractors(&self) -> bool {
        &&& self.settings.extractor_id is None
        &&& forall|i: int| 0 <= i < self.elements@.len() ==> #[trigger] self.elements@[i].extractor_ref() is None
    }

    /// A pattern of `elements` with default settings.
    pub fn new(elements: Vec<PatternElement<T, Context>>) -> (p: Self)
        ensures
            p.elements == elements,
            p.settings == (PatternSettings { priority: 0, extractor_id: None }),
    {
        Pattern { elements, settings: PatternSettings::new() }
    }

    /// A pattern of `elements` with the given settings.
    pub fn with_settings(elements: Vec<PatternElement<T, Context>>, settings: PatternSettings) -> (p: Self)
        ensures
            p.elements == elements,
            p.settings == settings,
    {
        Pattern { elements, settings }
    }
}

/// Sum of a sequence of counts.
pub open spec fn seq_sum(s: Seq<usize>) -> int
    decreases s.len(),
{
    if s.len() == 0 {
        0
    } else {
        seq_sum(s.drop_last()) + s.last()
    }
}

impl<T: PartialEq + PartialOrd, Context> Pattern<T, Context> {
    /// The first `n` elements matched one after the other from `pos`, the
    /// `i`-th consuming `cs[i]` items.
    pub open spec fn counts_ok(&self, data: Seq<T>, pos: int, cs: Seq<usize>, n: int) -> bool {
        &&& 0 <= n <= self.elements@.len()
        &&& cs.len() == n
        &&& forall|i: int|
            0 <= i < n ==> #[trigger] self.elements@[i].repeat_outcome(
                data,
                pos + seq_sum(cs.take(i)),
                Some(cs[i]),
            )
    }

    /// The pattern may fail at `pos`: it is empty, or some element fails
    /// after the ones before it matched.
    pub open spec fn fails_at(&self, data: Seq<T>, pos: int) -> bool {
        self.elements@.len() == 0 || exists|cs: Seq<usize>, n: int|
            n < self.elements@.len() && #[trigger] self.counts_ok(data, pos, cs, n)
                && self.elements@[n].repeat_outcome(data, pos + seq_sum(cs), None)
    }

    /// The pattern cannot match at any position of `data`.
    pub open spec fn never_matches(&self, data: Seq<T>) -> bool {
        forall|k: int, cs: Seq<usize>|
            0 <= k < data.len() ==> !#[trigger] self.counts_ok(data, k, cs, self.elements@.len() as int)
            || self.elements@.len() == 0
    }

    /// Matches the elements one after the other from `pos`.
    ///
    /// Returns the end position and the number of items each element
    /// consumed, or `None`. An empty pattern never matches.
    pub fn match_pattern(&self, data: &[T], pos: usize) -> (r: Option<(usize, Vec<usize>)>)
        requires
            pos <= data@.len(),
            self.admits_all(),
        ensures
            match r {
                Some((end, cs)) => {
                    &&& self.elements@.len() > 0
                    &&& self.counts_ok(data@, pos as int, cs@, self.elements@.len() as int)
                    &&& end == pos + seq_sum(cs@)
                    &&& end <= data@.len()
                },
                None => self.fails_at(data@, pos as int),
            },
    {
        let len = self.elements.len();
        if len == 0 {
            return None;
        }
        let n = data.len();
        let mut cs: Vec<usize> = Vec::new();
        let mut cur = pos;
        let mut i: usize = 0;
        while i < len
            invariant
                n == data@.len(),
                len == self.elements@.len(),
                self.admits_all(),
                pos <= cur <= data@.len(),
                i <= len,
                self.counts_ok(data@, pos as int, cs@, i as int),
                cur == pos + seq_sum(cs@),
            decreases len - i,
        {
            let el = &self.elements[i];
            let o = el.match_at(data, cur);
            match o {
                None => {
                    assert(self.counts_ok(data@, pos as int, cs@, i as int));
                    return None;
                },
                Some(k) => {
                    let ghost old_cs = cs@;
                    cs.push(k);
                    proof {
                        assert(cs@.drop_last() =~= old_cs);
                        assert(cs@.take(i as int) =~= old_cs);
                        assert forall|j: int| 0 <= j < i + 1 implies #[trigger] self.elements@[j].repeat_outcome(
                            data@,
                            pos + seq_sum(cs@.take(j)),
                            Some(cs@[j]),
                        ) by {
                            if j < i {
                                assert(cs@.take(j) =~= old_cs.take(j));
                            }
                        }
                    }
                    cur = cur + k;
                    i = i + 1;
                },
            }
        }
        Some((cur, cs))
    }
}

} // verus!
