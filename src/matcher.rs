use vstd::prelude::*;
use vstd::std_specs::cmp::{PartialEqSpec, PartialOrdSpec};

use crate::element::{seq_sum, Pattern, PatternElement};
use crate::hooks::{Extractor, ExtractorAction};
use crate::types::{ExtractorError, ExtractorId, MatchState, MatcherError};

verus! {

/// An extractor together with the id it was registered under.
#[verifier::reject_recursive_types(T)]
#[verifier::reject_recursive_types(Context)]
pub struct ExtractorEntry<T, Context> {
    /// The id the extractor was registered under.
    pub id: ExtractorId,
    /// The extractor.
    pub hook: Box<dyn Extractor<T, Context>>,
}

/// The index of the entry registered last under `id`.
pub open spec fn lookup_hook<T, Context>(hooks: Seq<ExtractorEntry<T, Context>>, id: ExtractorId) -> Option<int>
    decreases hooks.len(),
{
    if hooks.len() == 0 {
        None
    } else if hooks.last().id == id {
        Some(hooks.len() - 1)
    } else {
        lookup_hook(hooks.drop_last(), id)
    }
}

/// The index of the last table entry called `name`.
pub open spec fn name_index<T, Context>(table: Seq<(String, Pattern<T, Context>)>, name: Seq<char>) -> Option<int>
    decreases table.len(),
{
    if table.len() == 0 {
        None
    } else if table.last().0@ == name {
        Some(table.len() - 1)
    } else {
        name_index(table.drop_last(), name)
    }
}

/// Every element of every table pattern may be tested on every item.
pub open spec fn table_admits_all<T, Context>(table: Seq<(String, Pattern<T, Context>)>) -> bool {
    forall|i: int| 0 <= i < table.len() ==> #[trigger] table[i].1.admits_all()
}

/// No two table entries share a name.
pub open spec fn names_unique<T, Context>(table: Seq<(String, Pattern<T, Context>)>) -> bool {
    forall|i: int, j: int|
        0 <= i < table.len() && 0 <= j < table.len() && i != j ==> #[trigger] table[i].0@ != #[trigger] table[j].0@
}

/// The table after the table effect of `action`: `AddPattern` replaces or
/// appends the named entry, `RemovePattern` removes it or fails when it is
/// absent, every other action leaves the table as it is.
pub open spec fn table_after<T, Context>(
    table: Seq<(String, Pattern<T, Context>)>,
    action: ExtractorAction<T, Context>,
) -> Result<Seq<(String, Pattern<T, Context>)>, MatcherError> {
    match action {
        ExtractorAction::AddPattern(name, p) => Ok(
            match name_index(table, name@) {
                Some(i) => table.remove(i),
                None => table,
            }.push((name, p)),
        ),
        ExtractorAction::RemovePattern(name) => match name_index(table, name@) {
            Some(i) => Ok(table.remove(i)),
            None => Err(MatcherError::PatternNotFound(name)),
        },
        _ => Ok(table),
    }
}

proof fn lemma_lookup_push<T, Context>(hooks: Seq<ExtractorEntry<T, Context>>, entry: ExtractorEntry<T, Context>)
    ensures
        lookup_hook(hooks.push(entry), entry.id) == Some(hooks.len() as int),
        forall|id: ExtractorId| id != entry.id ==> lookup_hook(hooks.push(entry), id) == lookup_hook(hooks, id),
        hooks.push(entry).drop_last() == hooks,
        hooks.push(entry).last() == entry,
{
    assert(hooks.push(entry).drop_last() =~= hooks);
}

pub(crate) proof fn lemma_name_index<T, Context>(table: Seq<(String, Pattern<T, Context>)>, name: Seq<char>)
    ensures
        name_index(table, name) matches Some(i) ==> 0 <= i < table.len() && table[i].0@ == name,
        name_index(table, name) is None ==> forall|j: int| 0 <= j < table.len() ==> #[trigger] table[j].0@ != name,
    decreases table.len(),
{
    if table.len() > 0 && table.last().0@ != name {
        lemma_name_index(table.drop_last(), name);
        assert forall|j: int| 0 <= j < table.len() - 1 implies #[trigger] table[j] == table.drop_last()[j] by {}
    }
}

proof fn lemma_table_admits_remove<T, Context>(t: Seq<(String, Pattern<T, Context>)>, i: int)
    requires
        0 <= i < t.len(),
        table_admits_all(t),
    ensures
        table_admits_all(t.remove(i)),
{
    let u = t.remove(i);
    assert forall|j: int| 0 <= j < u.len() implies #[trigger] u[j].1.admits_all() by {
        if j < i {
            assert(u[j] == t[j]);
        } else {
            assert(u[j] == t[j + 1]);
        }
    }
}

proof fn lemma_table_admits_push<T, Context>(t: Seq<(String, Pattern<T, Context>)>, e: (String, Pattern<T, Context>))
    requires
        table_admits_all(t),
        e.1.admits_all(),
    ensures
        table_admits_all(t.push(e)),
{
    let u = t.push(e);
    assert forall|j: int| 0 <= j < u.len() implies #[trigger] u[j].1.admits_all() by {
        if j < t.len() {
            assert(u[j] == t[j]);
        }
    }
}

proof fn lemma_table_after_unique<T, Context>(
    table: Seq<(String, Pattern<T, Context>)>,
    action: ExtractorAction<T, Context>,
)
    requires
        names_unique(table),
    ensures
        table_after(table, action) matches Ok(t) ==> names_unique(t),
{
    match action {
        ExtractorAction::AddPattern(name, p) => {
            lemma_name_index(table, name@);
            let base = match name_index(table, name@) {
                Some(i) => table.remove(i),
                None => table,
            };
            assert forall|j: int| 0 <= j < base.len() implies #[trigger] base[j].0@ != name@ by {
                if let Some(i) = name_index(table, name@) {
                    if j < i {
                        assert(base[j] == table[j]);
                    } else {
                        assert(base[j] == table[j + 1]);
                    }
                }
            }
            assert(names_unique(base)) by {
                if let Some(i) = name_index(table, name@) {
                    assert forall|a: int, b: int|
                        0 <= a < base.len() && 0 <= b < base.len() && a != b implies #[trigger] base[a].0@
                        != #[trigger] base[b].0@ by {
                        let ta = if a < i { a } else { a + 1 };
                        let tb = if b < i { b } else { b + 1 };
                        assert(base[a] == table[ta]);
                        assert(base[b] == table[tb]);
                    }
                }
            }
            let t = base.push((name, p));
            assert forall|a: int, b: int|
                0 <= a < t.len() && 0 <= b < t.len() && a != b implies #[trigger] t[a].0@ != #[trigger] t[b].0@ by {
                if a < base.len() && b < base.len() {
                    assert(t[a] == base[a] && t[b] == base[b]);
                } else if a < base.len() {
                    assert(t[a] == base[a]);
                } else {
                    assert(t[b] == base[b]);
                }
            }
        },
        ExtractorAction::RemovePattern(name) => {
            lemma_name_index(table, name@);
            if let Some(i) = name_index(table, name@) {
                let t = table.remove(i);
                assert forall|a: int, b: int|
                    0 <= a < t.len() && 0 <= b < t.len() && a != b implies #[trigger] t[a].0@ != #[trigger] t[b].0@ by {
                    let ta = if a < i { a } else { a + 1 };
                    let tb = if b < i { b } else { b + 1 };
                    assert(t[a] == table[ta]);
                    assert(t[b] == table[tb]);
                }
            }
        },
        _ => {},
    }
}

/// Every element of the chain is plain (see `PatternElement::is_plain`).
pub open spec fn chain_is_plain<T: PartialEq + PartialOrd, Context>(chain: Seq<PatternElement<T, Context>>) -> bool {
    forall|i: int| 0 <= i < chain.len() ==> #[trigger] chain[i].is_plain()
}

/// Feeding `item` to a plain chain at element `c`: the next cursor and the
/// result.
pub open spec fn plain_scan<T: PartialEq + PartialOrd, Context>(
    chain: Seq<PatternElement<T, Context>>,
    c: int,
    item: T,
) -> (int, Option<T>)
    decreases chain.len() - c,
{
    if c < 0 || c >= chain.len() {
        (0, None)
    } else if chain[c].plain_matches(item) {
        if c + 1 == chain.len() {
            (0, Some(item))
        } else {
            (c + 1, None)
        }
    } else if chain[c].is_optional() {
        plain_scan(chain, c + 1, item)
    } else {
        (0, None)
    }
}

/// Feeding `items` one by one to a plain chain from cursor `c`: the final
/// cursor and the results collected in order.
pub open spec fn plain_run<T: PartialEq + PartialOrd, Context>(
    chain: Seq<PatternElement<T, Context>>,
    c: int,
    items: Seq<T>,
) -> (int, Seq<T>)
    decreases items.len(),
{
    if items.len() == 0 {
        (c, Seq::empty())
    } else {
        let (c1, o) = plain_scan(chain, c, items[0]);
        let (c2, rest) = plain_run(chain, c1, items.drop_first());
        (
            c2,
            match o {
                Some(v) => seq![v] + rest,
                None => rest,
            },
        )
    }
}

/// Matches a chain of elements one item at a time, and a table of named
/// patterns over whole slices.
#[verifier::reject_recursive_types(T)]
#[verifier::reject_recursive_types(Context)]
pub struct Matcher<T, Context> {
    patterns: Vec<PatternElement<T, Context>>,
    current_position: usize,
    total_processed: usize,
    window_size: usize,
    extractors: Vec<ExtractorEntry<T, Context>>,
    context: Option<Context>,
    table: Vec<(String, Pattern<T, Context>)>,
}

impl<T, Context> Matcher<T, Context> {
    /// The chain matched by `process_item`.
    pub closed spec fn chain(&self) -> Seq<PatternElement<T, Context>> {
        self.patterns@
    }

    /// Index of the chain element the next item is tested against.
    pub closed spec fn cursor(&self) -> int {
        self.current_position as int
    }

    /// Items processed since creation or the last reset.
    pub closed spec fn processed(&self) -> int {
        self.total_processed as int
    }

    /// The window size, a capacity hint for callers.
    pub closed spec fn window(&self) -> int {
        self.window_size as int
    }

    /// Registered extractors, in registration order.
    pub closed spec fn hooks(&self) -> Seq<ExtractorEntry<T, Context>> {
        self.extractors@
    }

    /// The caller's context.
    pub closed spec fn ctx(&self) -> Option<Context> {
        self.context
    }

    /// The named patterns, in registration order.
    pub closed spec fn table(&self) -> Seq<(String, Pattern<T, Context>)> {
        self.table@
    }

    /// The index of the extractor in force for `id`.
    pub open spec fn hook(&self, id: ExtractorId) -> Option<int> {
        lookup_hook(self.hooks(), id)
    }

    /// Every registered extractor may be called on every state, and every
    /// pattern it may add admits every item.
    pub open spec fn hooks_total(&self) -> bool {
        &&& forall|i: int, st: MatchState<T>| 0 <= i < self.hooks().len() ==> #[trigger] self.hooks()[i].hook.admits(st)
        &&& forall|i: int, st: MatchState<T>, a: Result<ExtractorAction<T, Context>, ExtractorError>|
            0 <= i < self.hooks().len() && #[trigger] self.hooks()[i].hook.gives(st, a) ==> (a matches Ok(
                ExtractorAction::AddPattern(_, p),
            ) ==> p.admits_all())
    }

    /// The cursor points into the chain (or is 0), and table names are unique.
    pub open spec fn wf(&self) -> bool {
        &&& self.cursor() == 0 || 0 <= self.cursor() < self.chain().len()
        &&& names_unique(self.table())
    }

    /// An empty matcher with the given window size.
    pub fn new(window_size: usize) -> (m: Self)
        ensures
            m.wf(),
            m.chain().len() == 0,
            m.cursor() == 0,
            m.processed() == 0,
            m.window() == window_size,
            m.hooks().len() == 0,
            m.ctx() is None,
            m.table().len() == 0,
    {
        Matcher {
            patterns: Vec::new(),
            current_position: 0,
            total_processed: 0,
            window_size,
            extractors: Vec::new(),
            context: None,
            table: Vec::new(),
        }
    }

    /// A matcher whose chain is `patterns`.
    pub fn with_patterns(patterns: Vec<PatternElement<T, Context>>, window_size: usize) -> (m: Self)
        ensures
            m.wf(),
            m.chain() == patterns@,
            m.cursor() == 0,
            m.processed() == 0,
            m.window() == window_size,
            m.hooks().len() == 0,
            m.ctx() is None,
            m.table().len() == 0,
    {
        Matcher {
            patterns,
            current_position: 0,
            total_processed: 0,
            window_size,
            extractors: Vec::new(),
            context: None,
            table: Vec::new(),
        }
    }

    /// Appends an element to the chain.
    pub fn add_pattern(&mut self, pattern: PatternElement<T, Context>)
        requires
            old(self).wf(),
        ensures
            final(self).wf(),
            final(self).chain() == old(self).chain().push(pattern),
            final(self).cursor() == old(self).cursor(),
            final(self).processed() == old(self).processed(),
            final(self).window() == old(self).window(),
            final(self).hooks() == old(self).hooks(),
            final(self).ctx() == old(self).ctx(),
            final(self).table() == old(self).table(),
    {
        self.patterns.push(pattern);
    }

    /// Registers `extractor` under `id`, replacing any earlier one.
    pub fn register_extractor<F>(&mut self, id: ExtractorId, extractor: F) where
        F: Fn(&MatchState<T>) -> Result<ExtractorAction<T, Context>, ExtractorError> + 'static,

        requires
            old(self).wf(),
        ensures
            final(self).wf(),
            final(self).hook(id) == Some(old(self).hooks().len() as int),
            forall|other: ExtractorId| other != id ==> final(self).hook(other) == old(self).hook(other),
            final(self).hooks().drop_last() == old(self).hooks(),
            final(self).hooks().last().id == id,
            forall|st: MatchState<T>| #[trigger] final(self).hooks().last().hook.admits(st) == call_requires(
                extractor,
                (&st,),
            ),
            forall|st: MatchState<T>, a: Result<ExtractorAction<T, Context>, ExtractorError>|
                #[trigger] final(self).hooks().last().hook.gives(st, a) == call_ensures(extractor, (&st,), a),
            old(self).hooks_total() && (forall|st: MatchState<T>| #[trigger] call_requires(extractor, (&st,))) && (
            forall|st: MatchState<T>, a: Result<ExtractorAction<T, Context>, ExtractorError>|
                #[trigger] call_ensures(extractor, (&st,), a) ==> (a matches Ok(ExtractorAction::AddPattern(_, p))
                    ==> p.admits_all())) ==> final(self).hooks_total(),
            final(self).chain() == old(self).chain(),
            final(self).cursor() == old(self).cursor(),
            final(self).processed() == old(self).processed(),
            final(self).window() == old(self).window(),
            final(self).ctx() == old(self).ctx(),
            final(self).table() == old(self).table(),
    {
        let entry = ExtractorEntry { id, hook: Box::new(extractor) };
        proof {
            lemma_lookup_push(self.extractors@, entry);
        }
        self.extractors.push(entry);
        proof {
            let hs = self.extractors@;
            assert(hs.last() == entry);
            assert forall|i: int| 0 <= i < hs.len() - 1 implies #[trigger] hs[i] == old(self).extractors@[i] by {
                assert(hs.drop_last()[i] == hs[i]);
            }
        }
    }

    /// Sets the caller's context.
    pub fn set_context(&mut self, context: Context)
        ensures
            final(self).ctx() == Some(context),
            final(self).chain() == old(self).chain(),
            final(self).cursor() == old(self).cursor(),
            final(self).processed() == old(self).processed(),
            final(self).window() == old(self).window(),
            final(self).hooks() == old(self).hooks(),
            final(self).table() == old(self).table(),
    {
        self.context = Some(context);
    }

    /// The caller's context, if set.
    pub fn context(&self) -> (r: Option<&Context>)
        ensures
            match r {
                Some(c) => self.ctx() == Some(*c),
                None => self.ctx() is None,
            },
    {
        match &self.context {
            Some(c) => Some(c),
            None => None,
        }
    }

    /// Sets the cursor and the processed count back to 0.
    pub fn reset(&mut self)
        ensures
            final(self).cursor() == 0,
            final(self).processed() == 0,
            final(self).chain() == old(self).chain(),
            final(self).window() == old(self).window(),
            final(self).hooks() == old(self).hooks(),
            final(self).ctx() == old(self).ctx(),
            final(self).table() == old(self).table(),
    {
        self.current_position = 0;
        self.total_processed = 0;
    }

    /// Index of the chain element the next item is tested against.
    pub fn current_position(&self) -> (r: usize)
        ensures
            r == self.cursor(),
    {
        self.current_position
    }

    /// Items processed since creation or the last reset.
    pub fn total_processed(&self) -> (r: usize)
        ensures
            r == self.processed(),
    {
        self.total_processed
    }

    /// The window size.
    pub fn window_size(&self) -> (r: usize)
        ensures
            r == self.window(),
    {
        self.window_size
    }

    /// Sets the window size.
    pub fn set_window_size(&mut self, size: usize)
        ensures
            final(self).window() == size,
            final(self).chain() == old(self).chain(),
            final(self).cursor() == old(self).cursor(),
            final(self).processed() == old(self).processed(),
            final(self).hooks() == old(self).hooks(),
            final(self).ctx() == old(self).ctx(),
            final(self).table() == old(self).table(),
    {
        self.window_size = size;
    }

    /// Number of elements in the chain.
    pub fn pattern_count(&self) -> (r: usize)
        ensures
            r == self.chain().len(),
    {
        self.patterns.len()
    }

    /// The chain's elements.
    pub fn patterns(&self) -> (r: &[PatternElement<T, Context>])
        ensures
            r@ == self.chain(),
    {
        self.patterns.as_slice()
    }

    /// Whether a chain match is in progress.
    pub fn is_matching(&self) -> (r: bool)
        ensures
            r == (self.cursor() > 0),
    {
        self.current_position > 0
    }
}

impl<T, Context> Matcher<T, Context> {
    /// Index of the entry that `hook(id)` designates.
    fn find_hook(&self, id: ExtractorId) -> (r: Option<usize>)
        ensures
            match r {
                Some(i) => i < self.hooks().len() && self.hook(id) == Some(i as int),
                None => self.hook(id) is None,
            },
    {
        let mut k = self.extractors.len();
        assert(self.extractors@.subrange(0, k as int) =~= self.extractors@);
        while k > 0
            invariant
                k <= self.extractors@.len(),
                lookup_hook(self.extractors@, id) == lookup_hook(self.extractors@.subrange(0, k as int), id),
            decreases k,
        {
            let ghost sub = self.extractors@.subrange(0, k as int);
            assert(sub.drop_last() =~= self.extractors@.subrange(0, k - 1));
            if self.extractors[k - 1].id == id {
                return Some(k - 1);
            }
            k = k - 1;
        }
        None
    }

    /// Index of the entry that `name_index(table, name)` designates.
    fn find_pattern(&self, name: &String) -> (r: Option<usize>)
        ensures
            match r {
                Some(i) => name_index(self.table(), name@) == Some(i as int),
                None => name_index(self.table(), name@) is None,
            },
    {
        let mut k = self.table.len();
        assert(self.table@.subrange(0, k as int) =~= self.table@);
        while k > 0
            invariant
                k <= self.table@.len(),
                name_index(self.table@, name@) == name_index(self.table@.subrange(0, k as int), name@),
            decreases k,
        {
            let ghost sub = self.table@.subrange(0, k as int);
            assert(sub.drop_last() =~= self.table@.subrange(0, k - 1));
            if self.table[k - 1].0 == *name {
                return Some(k - 1);
            }
            k = k - 1;
        }
        None
    }

    /// Adds `pattern` under `name`, replacing an entry of that name.
    fn insert_named(&mut self, name: String, pattern: Pattern<T, Context>)
        requires
            names_unique(old(self).table()),
        ensures
            table_admits_all(old(self).table()) && pattern.admits_all() ==> table_admits_all(final(self).table()),
            table_after(old(self).table(), ExtractorAction::AddPattern(name, pattern)) == Ok::<
                Seq<(String, Pattern<T, Context>)>,
                MatcherError,
            >(final(self).table()),
            names_unique(final(self).table()),
            final(self).chain() == old(self).chain(),
            final(self).cursor() == old(self).cursor(),
            final(self).processed() == old(self).processed(),
            final(self).window() == old(self).window(),
            final(self).hooks() == old(self).hooks(),
            final(self).ctx() == old(self).ctx(),
    {
        proof {
            lemma_table_after_unique(self.table@, ExtractorAction::AddPattern(name, pattern));
            lemma_name_index(self.table@, name@);
        }
        let ghost ok = table_admits_all(self.table@) && pattern.admits_all();
        match self.find_pattern(&name) {
            Some(i) => {
                proof {
                    if ok {
                        lemma_table_admits_remove(self.table@, i as int);
                    }
                }
                self.table.remove(i);
            },
            None => {},
        }
        let entry = (name, pattern);
        proof {
            if ok {
                lemma_table_admits_push(self.table@, entry);
            }
        }
        self.table.push(entry);
    }

    /// Removes the entry called `name`, if there is one.
    fn remove_named(&mut self, name: &String) -> (r: Option<Pattern<T, Context>>)
        requires
            names_unique(old(self).table()),
        ensures
            table_admits_all(old(self).table()) ==> table_admits_all(final(self).table()),
            match name_index(old(self).table(), name@) {
                Some(i) => r == Some(old(self).table()[i].1) && final(self).table() == old(self).table().remove(i),
                None => r is None && final(self).table() == old(self).table(),
            },
            names_unique(final(self).table()),
            final(self).chain() == old(self).chain(),
            final(self).cursor() == old(self).cursor(),
            final(self).processed() == old(self).processed(),
            final(self).window() == old(self).window(),
            final(self).hooks() == old(self).hooks(),
            final(self).ctx() == old(self).ctx(),
    {
        proof {
            lemma_table_after_unique(self.table@, ExtractorAction::RemovePattern(*name));
            lemma_name_index(self.table@, name@);
        }
        match self.find_pattern(name) {
            Some(i) => {
                proof {
                    if table_admits_all(self.table@) {
                        lemma_table_admits_remove(self.table@, i as int);
                    }
                }
                let (_, p) = self.table.remove(i);
                Some(p)
            },
            None => None,
        }
    }
}

impl<T: Clone + PartialEq + PartialOrd, Context> Matcher<T, Context> {
    /// `st` is the state handed to an extractor of chain element `c` while
    /// `item` is processed: a clone of the item, the cursor at the start of
    /// the call, and the processed count including the item.
    pub open spec fn chain_state(st: MatchState<T>, item: T, start: int, c: int, total: int) -> bool {
        &&& cloned(item, st.current_item)
        &&& st.position == start
        &&& st.total_processed == total
        &&& st.matched_items@.len() == 0
        &&& st.element_index == c
        &&& st.pattern_name is None
        &&& st.input_length is None
    }

    /// Chain element `c` has matched `item` and nothing overrides the
    /// advance: the cursor moves on, and past the last element it returns to
    /// 0 with the item as the match result.
    pub open spec fn chain_advance(m: Self, item: T, c: int, new: Self, r: Result<Option<T>, MatcherError>) -> bool {
        if c + 1 == m.chain().len() {
            new.cursor() == 0 && r == Ok::<Option<T>, MatcherError>(Some(item))
        } else {
            new.cursor() == c + 1 && r == Ok::<Option<T>, MatcherError>(None)
        }
    }

    /// What the extractor's answer `a` does to the chain: `Continue` and the
    /// table actions let the cursor advance, `Extract(v)` returns `v`, every
    /// other action starts the chain over; an extractor error is returned.
    pub open spec fn chain_action_outcome(
        m: Self,
        item: T,
        c: int,
        a: Result<ExtractorAction<T, Context>, ExtractorError>,
        new: Self,
        r: Result<Option<T>, MatcherError>,
    ) -> bool {
        match a {
            Err(e) => r == Err::<Option<T>, MatcherError>(MatcherError::ExtractorFailed(e)) && new.table() == m.table()
                && new.cursor() == m.cursor(),
            Ok(action) => match action {
                ExtractorAction::Continue => Self::chain_advance(m, item, c, new, r) && new.table() == m.table(),
                ExtractorAction::Extract(v) => new.cursor() == 0 && r == Ok::<Option<T>, MatcherError>(Some(v))
                    && new.table() == m.table(),
                ExtractorAction::AddPattern(..) | ExtractorAction::RemovePattern(..) => match table_after(
                    m.table(),
                    action,
                ) {
                    Ok(t) => new.table() == t && Self::chain_advance(m, item, c, new, r),
                    Err(e) => r == Err::<Option<T>, MatcherError>(e) && new.table() == m.table() && new.cursor()
                        == m.cursor(),
                },
                _ => new.cursor() == 0 && r == Ok::<Option<T>, MatcherError>(None) && new.table() == m.table(),
            },
        }
    }

    /// Chain element `c` has matched `item`, extractor `i` was called on the
    /// chain state and its answer led to `new` and `r`.
    pub open spec fn hook_outcome(
        m: Self,
        i: int,
        item: T,
        start: int,
        c: int,
        new: Self,
        r: Result<Option<T>, MatcherError>,
    ) -> bool {
        exists|st: MatchState<T>, a: Result<ExtractorAction<T, Context>, ExtractorError>|
            Self::chain_state(st, item, start, c, m.processed() + 1) && #[trigger] m.hooks()[i].hook.gives(st, a)
                && Self::chain_action_outcome(m, item, c, a, new, r)
    }

    /// Feeding `item` to the chain of `m` from element `c` may end with
    /// matcher `new` and result `r`.
    ///
    /// An element that does not match starts the chain over, unless it is
    /// optional: then the next element is tried with the same item. Past the
    /// last element the chain starts over with no result.
    pub open spec fn chain_outcome(
        m: Self,
        item: T,
        start: int,
        c: int,
        new: Self,
        r: Result<Option<T>, MatcherError>,
    ) -> bool
        decreases m.chain().len() - c,
    {
        if c < 0 || c >= m.chain().len() {
            new.cursor() == 0 && new.table() == m.table() && r == Ok::<Option<T>, MatcherError>(None)
        } else {
            let el = m.chain()[c];
            let on_mismatch = if el.is_optional() {
                Self::chain_outcome(m, item, start, c + 1, new, r)
            } else {
                new.cursor() == 0 && new.table() == m.table() && r == Ok::<Option<T>, MatcherError>(None)
            };
            let on_match = match el.extractor_ref() {
                None => Self::chain_advance(m, item, c, new, r) && new.table() == m.table(),
                Some(id) => match m.hook(id) {
                    None => Self::chain_advance(m, item, c, new, r) && new.table() == m.table(),
                    Some(i) => Self::hook_outcome(m, i, item, start, c, new, r),
                },
            };
            (el.gives(item, false) && on_mismatch) || (el.gives(item, true) && on_match)
        }
    }

    /// Everything but the cursor, the processed count and the table is alike.
    pub open spec fn same_setup(a: Self, b: Self) -> bool {
        &&& a.chain() == b.chain()
        &&& a.window() == b.window()
        &&& a.hooks() == b.hooks()
        &&& a.ctx() == b.ctx()
    }

    /// One call of `process_item(item)` on `m` may end with `new` and `r`.
    pub open spec fn step_outcome(m: Self, item: T, new: Self, r: Result<Option<T>, MatcherError>) -> bool {
        &&& Self::same_setup(m, new)
        &&& if m.chain().len() == 0 {
            &&& r == Err::<Option<T>, MatcherError>(MatcherError::NoPatterns)
            &&& new.processed() == m.processed()
            &&& new.cursor() == m.cursor()
            &&& new.table() == m.table()
        } else {
            &&& new.processed() == m.processed() + 1
            &&& Self::chain_outcome(m, item, m.cursor(), m.cursor(), new, r)
        }
    }

    /// `chain_advance` with its result handed to the continuation `k`
    /// (cursor, table, result).
    pub open spec fn advance_k(
        len: int,
        t: Seq<(String, Pattern<T, Context>)>,
        item: T,
        c: int,
        k: spec_fn(int, Seq<(String, Pattern<T, Context>)>, Result<Option<T>, MatcherError>) -> bool,
    ) -> bool {
        if c + 1 == len {
            k(0, t, Ok(Some(item)))
        } else {
            k(c + 1, t, Ok(None))
        }
    }

    /// `chain_action_outcome` with its result handed to `k`.
    pub open spec fn action_k(
        len: int,
        t: Seq<(String, Pattern<T, Context>)>,
        item: T,
        start: int,
        c: int,
        a: Result<ExtractorAction<T, Context>, ExtractorError>,
        k: spec_fn(int, Seq<(String, Pattern<T, Context>)>, Result<Option<T>, MatcherError>) -> bool,
    ) -> bool {
        match a {
            Err(e) => k(start, t, Err(MatcherError::ExtractorFailed(e))),
            Ok(action) => match action {
                ExtractorAction::Continue => Self::advance_k(len, t, item, c, k),
                ExtractorAction::Extract(v) => k(0, t, Ok(Some(v))),
                ExtractorAction::AddPattern(..) | ExtractorAction::RemovePattern(..) => match table_after(t, action) {
                    Ok(t2) => Self::advance_k(len, t2, item, c, k),
                    Err(e) => k(start, t, Err(e)),
                },
                _ => k(0, t, Ok(None)),
            },
        }
    }

    /// `hook_outcome` with its result handed to `k`.
    pub open spec fn hook_k(
        chain: Seq<PatternElement<T, Context>>,
        hooks: Seq<ExtractorEntry<T, Context>>,
        t: Seq<(String, Pattern<T, Context>)>,
        total: int,
        i: int,
        item: T,
        start: int,
        c: int,
        k: spec_fn(int, Seq<(String, Pattern<T, Context>)>, Result<Option<T>, MatcherError>) -> bool,
    ) -> bool {
        exists|st: MatchState<T>, a: Result<ExtractorAction<T, Context>, ExtractorError>|
            Self::chain_state(st, item, start, c, total) && #[trigger] hooks[i].hook.gives(st, a) && Self::action_k(
                chain.len() as int,
                t,
                item,
                start,
                c,
                a,
                k,
            )
    }

    /// `chain_outcome` with its result handed to `k`: feeding `item` to
    /// `chain` from element `c`, with extractors `hooks`, table `t` and
    /// processed count `total`.
    pub open spec fn chain_k(
        chain: Seq<PatternElement<T, Context>>,
        hooks: Seq<ExtractorEntry<T, Context>>,
        t: Seq<(String, Pattern<T, Context>)>,
        total: int,
        item: T,
        start: int,
        c: int,
        k: spec_fn(int, Seq<(String, Pattern<T, Context>)>, Result<Option<T>, MatcherError>) -> bool,
    ) -> bool
        decreases chain.len() - c,
    {
        if c < 0 || c >= chain.len() {
            k(0, t, Ok(None))
        } else {
            let el = chain[c];
            let on_mismatch = if el.is_optional() {
                Self::chain_k(chain, hooks, t, total, item, start, c + 1, k)
            } else {
                k(0, t, Ok(None))
            };
            let on_match = match el.extractor_ref() {
                None => Self::advance_k(chain.len() as int, t, item, c, k),
                Some(id) => match lookup_hook(hooks, id) {
                    None => Self::advance_k(chain.len() as int, t, item, c, k),
                    Some(i) => Self::hook_k(chain, hooks, t, total, i, item, start, c, k),
                },
            };
            (el.gives(item, false) && on_mismatch) || (el.gives(item, true) && on_match)
        }
    }

    /// What `process_items` does after one call ended with cursor `nc`,
    /// table `nt` and result `o`: an error ends it; otherwise the result (if
    /// any) joins `acc` and the rest of the items follow.
    pub open spec fn items_k(
        m: Self,
        processed: int,
        rest: Seq<T>,
        acc: Seq<T>,
        fc: int,
        fp: int,
        ft: Seq<(String, Pattern<T, Context>)>,
        rr: Result<Seq<T>, MatcherError>,
    ) -> spec_fn(int, Seq<(String, Pattern<T, Context>)>, Result<Option<T>, MatcherError>) -> bool
        decreases rest.len(), 1int,
    {
        |nc: int, nt: Seq<(String, Pattern<T, Context>)>, o: Result<Option<T>, MatcherError>|
            match o {
                Err(e) => fc == nc && fp == processed && ft == nt && rr == Err::<Seq<T>, MatcherError>(e),
                Ok(x) => Self::items_rel(
                    m,
                    nc,
                    processed,
                    nt,
                    rest,
                    match x {
                        Some(v) => acc.push(v),
                        None => acc,
                    },
                    fc,
                    fp,
                    ft,
                    rr,
                ),
            }
    }

    /// Feeding `items` one by one with `process_item` to a matcher set up as
    /// `m`, from cursor `cursor`, processed count `processed` and table `t`,
    /// with results `acc` collected so far, may end with cursor `fc`, count
    /// `fp`, table `ft` and collected result `rr`. The first error ends it.
    pub open spec fn items_rel(
        m: Self,
        cursor: int,
        processed: int,
        t: Seq<(String, Pattern<T, Context>)>,
        items: Seq<T>,
        acc: Seq<T>,
        fc: int,
        fp: int,
        ft: Seq<(String, Pattern<T, Context>)>,
        rr: Result<Seq<T>, MatcherError>,
    ) -> bool
        decreases items.len(), 0int,
    {
        if items.len() == 0 {
            fc == cursor && fp == processed && ft == t && rr == Ok::<Seq<T>, MatcherError>(acc)
        } else if m.chain().len() == 0 {
            fc == cursor && fp == processed && ft == t && rr == Err::<Seq<T>, MatcherError>(MatcherError::NoPatterns)
        } else {
            Self::chain_k(
                m.chain(),
                m.hooks(),
                t,
                processed + 1,
                items[0],
                cursor,
                cursor,
                Self::items_k(m, processed + 1, items.drop_first(), acc, fc, fp, ft, rr),
            )
        }
    }

    /// A `chain_outcome` ending in `new` and `r` satisfies `chain_k` for every
    /// continuation that accepts `new`'s cursor and table and `r`.
    pub proof fn lemma_chain_k(
        m: Self,
        item: T,
        start: int,
        c: int,
        new: Self,
        r: Result<Option<T>, MatcherError>,
        k: spec_fn(int, Seq<(String, Pattern<T, Context>)>, Result<Option<T>, MatcherError>) -> bool,
    )
        requires
            m.cursor() == start,
            Self::chain_outcome(m, item, start, c, new, r),
            k(new.cursor(), new.table(), r),
        ensures
            Self::chain_k(m.chain(), m.hooks(), m.table(), m.processed() + 1, item, start, c, k),
        decreases m.chain().len() - c,
    {
        if 0 <= c < m.chain().len() {
            let el = m.chain()[c];
            if el.gives(item, false) && el.is_optional() && Self::chain_outcome(m, item, start, c + 1, new, r) {
                Self::lemma_chain_k(m, item, start, c + 1, new, r, k);
            }
            if el.gives(item, true) {
                if let Some(id) = el.extractor_ref() {
                    if let Some(i) = m.hook(id) {
                        if Self::hook_outcome(m, i, item, start, c, new, r) {
                            let (st, a) = choose|st: MatchState<T>, a: Result<ExtractorAction<T, Context>, ExtractorError>|
                                Self::chain_state(st, item, start, c, m.processed() + 1)
                                    && #[trigger] m.hooks()[i].hook.gives(st, a) && Self::chain_action_outcome(
                                    m,
                                    item,
                                    c,
                                    a,
                                    new,
                                    r,
                                );
                            assert(Self::action_k(m.chain().len() as int, m.table(), item, start, c, a, k));
                            assert(Self::hook_k(m.chain(), m.hooks(), m.table(), m.processed() + 1, i, item, start, c, k));
                        }
                    }
                }
            }
        }
    }

    /// Feeds one item to the chain.
    ///
    /// Returns the item when it completes the chain, the value of an
    /// extractor's `Extract`, or `None`.
    pub fn process_item(&mut self, item: T) -> (r: Result<Option<T>, MatcherError>)
        requires
            old(self).wf(),
            old(self).hooks_total(),
            table_admits_all(old(self).table()),
            old(self).processed() < usize::MAX,
            forall|i: int| 0 <= i < old(self).chain().len() ==> #[trigger] old(self).chain()[i].admits(item),
        ensures
            final(self).wf(),
            table_admits_all(final(self).table()),
            final(self).chain() == old(self).chain(),
            final(self).window() == old(self).window(),
            final(self).hooks() == old(self).hooks(),
            final(self).ctx() == old(self).ctx(),
            old(self).chain().len() == 0 ==> r == Err::<Option<T>, MatcherError>(MatcherError::NoPatterns)
                && final(self).processed() == old(self).processed() && final(self).cursor() == old(self).cursor()
                && final(self).table() == old(self).table(),
            old(self).chain().len() > 0 ==> final(self).processed() == old(self).processed() + 1
                && Self::chain_outcome(*old(self), item, old(self).cursor(), old(self).cursor(), *final(self), r),
            Self::step_outcome(*old(self), item, *final(self), r),
            r matches Err(e) ==> (e is NoPatterns || e is ExtractorFailed || e is PatternNotFound),
    {
        if self.patterns.len() == 0 {
            return Err(MatcherError::NoPatterns);
        }
        let ghost m = *self;
        self.total_processed = self.total_processed + 1;
        let start = self.current_position;
        let len = self.patterns.len();
        let mut cur = start;
        loop
            invariant
                m == *old(self),
                m.wf(),
                m.hooks_total(),
                table_admits_all(m.table()),
                forall|i: int| 0 <= i < m.chain().len() ==> #[trigger] m.chain()[i].admits(item),
                self.patterns@ == m.chain(),
                self.extractors@ == m.hooks(),
                self.table@ == m.table(),
                self.window_size == m.window(),
                self.context == m.ctx(),
                self.total_processed == m.processed() + 1,
                start == m.cursor(),
                len == m.chain().len(),
                len > 0,
                start <= cur <= len,
                self.current_position == start,
                forall|new: Self, r: Result<Option<T>, MatcherError>|
                    Self::chain_outcome(m, item, start as int, cur as int, new, r) ==> Self::chain_outcome(
                        m,
                        item,
                        start as int,
                        start as int,
                        new,
                        r,
                    ),
            decreases len - cur,
        {
            if cur >= len {
                self.current_position = 0;
                assert(Self::chain_outcome(m, item, start as int, cur as int, *self, Ok(None)));
                return Ok(None);
            }
            let el = &self.patterns[cur];
            if el.check(&item) {
                let found = match el.extractor_of() {
                    Some(id) => self.find_hook(id),
                    None => None,
                };
                match found {
                    None => {
                        if cur + 1 == len {
                            self.current_position = 0;
                            assert(Self::chain_outcome(m, item, start as int, cur as int, *self, Ok(Some(item))));
                            return Ok(Some(item));
                        } else {
                            self.current_position = cur + 1;
                            assert(Self::chain_outcome(m, item, start as int, cur as int, *self, Ok(None)));
                            return Ok(None);
                        }
                    },
                    Some(i) => {
                        let state = MatchState {
                            current_item: item.clone(),
                            position: start,
                            total_processed: self.total_processed,
                            matched_items: Vec::new(),
                            element_index: cur,
                            pattern_name: None,
                            input_length: None,
                        };
                        assert(m.hooks()[i as int].hook.admits(state));
                        let a = self.extractors[i].hook.extract(&state);
                        let ghost ga = a;
                        assert(m.hooks()[i as int].hook.gives(state, ga));
                        assert(Self::chain_state(state, item, start as int, cur as int, m.processed() + 1));
                        let r = self.apply_chain_action(a, item, cur);
                        proof {
                            assert(Self::chain_action_outcome(m, item, cur as int, ga, *self, r));
                            assert(Self::hook_outcome(m, i as int, item, start as int, cur as int, *self, r));
                            assert(Self::chain_outcome(m, item, start as int, cur as int, *self, r));
                        }
                        return r;
                    },
                }
            } else {
                if el.optional_flag() {
                    cur = cur + 1;
                } else {
                    self.current_position = 0;
                    assert(Self::chain_outcome(m, item, start as int, cur as int, *self, Ok(None)));
                    return Ok(None);
                }
            }
        }
    }

    /// On a plain chain the outcome of feeding one item is `plain_scan`.
    pub proof fn lemma_plain_outcome(
        m: Self,
        item: T,
        start: int,
        c: int,
        new: Self,
        r: Result<Option<T>, MatcherError>,
    )
        requires
            T::obeys_eq_spec(),
            T::obeys_partial_cmp_spec(),
            chain_is_plain(m.chain()),
            0 <= c,
            Self::chain_outcome(m, item, start, c, new, r),
        ensures
            r == Ok::<Option<T>, MatcherError>(plain_scan(m.chain(), c, item).1),
            new.cursor() == plain_scan(m.chain(), c, item).0,
            new.table() == m.table(),
        decreases m.chain().len() - c,
    {
        if c < m.chain().len() {
            let el = m.chain()[c];
            assert(el.is_plain());
            assert(el.is_plain_test());
            if el.plain_matches(item) {
                if el.gives(item, false) {
                    el.lemma_plain_gives(item, false);
                }
            } else {
                if el.gives(item, true) {
                    el.lemma_plain_gives(item, true);
                }
                if el.is_optional() {
                    Self::lemma_plain_outcome(m, item, start, c + 1, new, r);
                }
            }
        }
    }

    /// Feeds the items in order and collects the non-empty results; the
    /// first error ends the call.
    pub fn process_items(&mut self, items: Vec<T>) -> (r: Result<Vec<T>, MatcherError>)
        requires
            old(self).wf(),
            old(self).hooks_total(),
            table_admits_all(old(self).table()),
            old(self).processed() + items@.len() <= usize::MAX,
            forall|i: int, j: int|
                0 <= i < old(self).chain().len() && 0 <= j < items@.len() ==> #[trigger] old(self).chain()[i].admits(
                    #[trigger] items@[j],
                ),
        ensures
            final(self).wf(),
            table_admits_all(final(self).table()),
            Self::same_setup(*old(self), *final(self)),
            items@.len() == 0 ==> (r matches Ok(v) && v@.len() == 0) && final(self).cursor() == old(self).cursor()
                && final(self).processed() == old(self).processed() && final(self).table() == old(self).table(),
            old(self).chain().len() == 0 && items@.len() > 0 ==> r == Err::<Vec<T>, MatcherError>(
                MatcherError::NoPatterns,
            ) && final(self).cursor() == old(self).cursor() && final(self).processed() == old(self).processed()
                && final(self).table() == old(self).table(),
            old(self).chain().len() > 0 ==> (r matches Ok(v) ==> v@.len() <= items@.len() && final(self).processed()
                == old(self).processed() + items@.len()),
            r matches Err(e) ==> (e is NoPatterns || e is ExtractorFailed || e is PatternNotFound),
            T::obeys_eq_spec() && T::obeys_partial_cmp_spec() && chain_is_plain(old(self).chain())
                && old(self).chain().len() > 0 ==> (r matches Ok(v) && v@ == plain_run(
                old(self).chain(),
                old(self).cursor(),
                items@,
            ).1) && final(self).cursor() == plain_run(old(self).chain(), old(self).cursor(), items@).0
                && final(self).table() == old(self).table(),
            Self::items_rel(
                *old(self),
                old(self).cursor(),
                old(self).processed(),
                old(self).table(),
                items@,
                Seq::empty(),
                final(self).cursor(),
                final(self).processed(),
                final(self).table(),
                match r {
                    Ok(v) => Ok(v@),
                    Err(e) => Err(e),
                },
            ),
    {
        let ghost m0 = *self;
        let ghost all = items@;
        let ghost pl = T::obeys_eq_spec() && T::obeys_partial_cmp_spec() && chain_is_plain(m0.chain())
            && m0.chain().len() > 0;
        let mut rest = items;
        let mut results: Vec<T> = Vec::new();
        let ghost mut k: int = 0;
        while rest.len() > 0
            invariant
                m0 == *old(self),
                all == items@,
                0 <= k <= all.len(),
                rest@ == all.skip(k),
                self.wf(),
                self.hooks_total(),
                table_admits_all(self.table()),
                Self::same_setup(m0, *self),
                m0.chain().len() > 0 ==> self.processed() == m0.processed() + k,
                k == 0 ==> self.cursor() == m0.cursor() && self.processed() == m0.processed() && self.table()
                    == m0.table(),
                m0.chain().len() == 0 ==> k == 0 && self.cursor() == m0.cursor() && self.processed()
                    == m0.processed() && self.table() == m0.table(),
                results@.len() <= k,
                pl == (T::obeys_eq_spec() && T::obeys_partial_cmp_spec() && chain_is_plain(m0.chain())
                    && m0.chain().len() > 0),
                pl ==> self.table() == m0.table(),
                pl ==> plain_run(m0.chain(), m0.cursor(), all) == (
                    plain_run(m0.chain(), self.cursor(), rest@).0,
                    results@ + plain_run(m0.chain(), self.cursor(), rest@).1,
                ),
                m0.processed() + all.len() <= usize::MAX,
                forall|i: int, j: int|
                    0 <= i < m0.chain().len() && 0 <= j < all.len() ==> #[trigger] m0.chain()[i].admits(#[trigger] all[j]),
                forall|fc: int, fp: int, ft: Seq<(String, Pattern<T, Context>)>, rr: Result<Seq<T>, MatcherError>|
                    #[trigger] Self::items_rel(m0, self.cursor(), self.processed(), self.table(), rest@, results@, fc, fp, ft, rr)
                    ==> Self::items_rel(m0, m0.cursor(), m0.processed(), m0.table(), all, Seq::empty(), fc, fp, ft, rr),
            decreases rest@.len(),
        {
            assert(all.len() > k);
            let ghost before = *self;
            let ghost rest0 = rest@;
            let ghost acc0 = results@;
            let item = rest.remove(0);
            assert(item == all[k]);
            assert(rest@ =~= all.skip(k + 1));
            assert forall|i: int| 0 <= i < self.chain().len() implies #[trigger] self.chain()[i].admits(item) by {
                assert(m0.chain()[i].admits(all[k]));
            }
            let o = self.process_item(item);
            proof {
                if pl {
                    assert(rest0.drop_first() =~= rest@);
                    Self::lemma_plain_outcome(before, item, before.cursor(), before.cursor(), *self, o);
                }
            }
            let ghost go = o;
            match o {
                Err(e) => {
                    proof {
                        let fin = Err::<Seq<T>, MatcherError>(e);
                        if m0.chain().len() > 0 {
                            Self::lemma_chain_k(
                                before,
                                item,
                                before.cursor(),
                                before.cursor(),
                                *self,
                                go,
                                Self::items_k(m0, before.processed() + 1, rest@, acc0, self.cursor(), self.processed(), self.table(), fin),
                            );
                        }
                        assert(Self::items_rel(m0, before.cursor(), before.processed(), before.table(), rest0, acc0, self.cursor(), self.processed(), self.table(), fin));
                    }
                    return Err(e);
                },
                Ok(Some(v)) => {
                    results.push(v);
                },
                Ok(None) => {},
            }
            proof {
                assert forall|fc: int, fp: int, ft: Seq<(String, Pattern<T, Context>)>, rr: Result<Seq<T>, MatcherError>|
                    #[trigger] Self::items_rel(m0, self.cursor(), self.processed(), self.table(), rest@, results@, fc, fp, ft, rr)
                    implies Self::items_rel(m0, m0.cursor(), m0.processed(), m0.table(), all, Seq::empty(), fc, fp, ft, rr) by {
                    Self::lemma_chain_k(
                        before,
                        item,
                        before.cursor(),
                        before.cursor(),
                        *self,
                        go,
                        Self::items_k(m0, before.processed() + 1, rest@, acc0, fc, fp, ft, rr),
                    );
                    assert(Self::items_rel(m0, before.cursor(), before.processed(), before.table(), rest0, acc0, fc, fp, ft, rr));
                }
            }
            proof {
                if pl {
                    let tail = plain_run(m0.chain(), self.cursor(), rest@).1;
                    match plain_scan(m0.chain(), before.cursor(), item).1 {
                        Some(v) => {
                            assert(acc0 + (seq![v] + tail) =~= results@ + tail);
                        },
                        None => {
                            assert(acc0 + tail =~= results@ + tail);
                        },
                    }
                }
                k = k + 1;
            }
        }
        assert(Self::items_rel(m0, self.cursor(), self.processed(), self.table(), rest@, results@, self.cursor(), self.processed(), self.table(), Ok(results@)));
        Ok(results)
    }

    /// Carries out an extractor's answer for chain element `cur`.
    fn apply_chain_action(
        &mut self,
        a: Result<ExtractorAction<T, Context>, ExtractorError>,
        item: T,
        cur: usize,
    ) -> (r: Result<Option<T>, MatcherError>)
        requires
            names_unique(old(self).table()),
            table_admits_all(old(self).table()),
            a matches Ok(ExtractorAction::AddPattern(_, p)) ==> p.admits_all(),
            cur < old(self).chain().len(),
        ensures
            Self::chain_action_outcome(*old(self), item, cur as int, a, *final(self), r),
            table_admits_all(final(self).table()),
            r matches Err(e) ==> (e is ExtractorFailed || e is PatternNotFound),
            names_unique(final(self).table()),
            final(self).cursor() == 0 || final(self).cursor() == old(self).cursor() || (final(self).cursor()
                == cur + 1 && cur + 1 < final(self).chain().len()),
            final(self).chain() == old(self).chain(),
            final(self).processed() == old(self).processed(),
            final(self).window() == old(self).window(),
            final(self).hooks() == old(self).hooks(),
            final(self).ctx() == old(self).ctx(),
    {
        let ghost m = *self;
        let len = self.patterns.len();
        let advance = match a {
            Err(e) => {
                return Err(MatcherError::ExtractorFailed(e));
            },
            Ok(ExtractorAction::Continue) => true,
            Ok(ExtractorAction::Extract(v)) => {
                self.current_position = 0;
                return Ok(Some(v));
            },
            Ok(ExtractorAction::AddPattern(name, p)) => {
                self.insert_named(name, p);
                true
            },
            Ok(ExtractorAction::RemovePattern(name)) => {
                proof {
                    lemma_name_index(self.table@, name@);
                }
                match self.remove_named(&name) {
                    Some(_) => true,
                    None => {
                        return Err(MatcherError::PatternNotFound(name));
                    },
                }
            },
            Ok(_) => {
                self.current_position = 0;
                return Ok(None);
            },
        };
        if cur + 1 == len {
            self.current_position = 0;
            Ok(Some(item))
        } else {
            self.current_position = cur + 1;
            Ok(None)
        }
    }
}

/// `x` as a `usize`, saturating at `usize::MAX`.
pub open spec fn saturate(x: int) -> usize {
    if x > usize::MAX {
        usize::MAX
    } else if x < 0 {
        0
    } else {
        x as usize
    }
}

/// Where a batch scan goes on after an action, when the pattern began at
/// `pos` and would otherwise resume at `default_next`, over an input of
/// length `len`: `Ok(Some(p))` to resume at `p`, `Ok(None)` to stop, or an
/// error for a target past the end.
pub open spec fn spec_next_position<T, Context>(
    action: ExtractorAction<T, Context>,
    pos: int,
    default_next: int,
    len: int,
) -> Result<Option<usize>, MatcherError> {
    match action {
        ExtractorAction::Continue | ExtractorAction::AddPattern(..) | ExtractorAction::RemovePattern(..) => Ok(
            Some(default_next as usize),
        ),
        ExtractorAction::Extract(_) | ExtractorAction::StopMatching => Ok(None),
        ExtractorAction::Skip(n) => if pos + n <= len {
            Ok(Some((pos + n) as usize))
        } else {
            Err(MatcherError::InvalidPosition(saturate(pos + n)))
        },
        ExtractorAction::Jump(off) => {
            let t = if pos + off < 0 {
                0
            } else {
                pos + off
            };
            if t <= len {
                Ok(Some(t as usize))
            } else {
                Err(MatcherError::InvalidPosition(saturate(t)))
            }
        },
        ExtractorAction::RestartFrom(p) => if p <= len {
            Ok(Some(p))
        } else {
            Err(MatcherError::InvalidPosition(p))
        },
        ExtractorAction::DiscardPartialMatch | ExtractorAction::Restart => Ok(Some((pos + 1) as usize)),
    }
}

/// Computes where a batch scan goes on after `action` (see `spec_next_position`).
pub fn next_position<T, Context>(
    action: &ExtractorAction<T, Context>,
    pos: usize,
    default_next: usize,
    len: usize,
) -> (r: Result<Option<usize>, MatcherError>)
    requires
        pos < len,
        default_next <= len,
    ensures
        r == spec_next_position(*action, pos as int, default_next as int, len as int),
        r matches Ok(Some(p)) ==> p <= len,
{
    match action {
        ExtractorAction::Continue | ExtractorAction::AddPattern(..) | ExtractorAction::RemovePattern(..) => Ok(
            Some(default_next),
        ),
        ExtractorAction::Extract(_) | ExtractorAction::StopMatching => Ok(None),
        ExtractorAction::Skip(n) => {
            if *n <= len - pos {
                Ok(Some(pos + *n))
            } else if *n > usize::MAX - pos {
                Err(MatcherError::InvalidPosition(usize::MAX))
            } else {
                Err(MatcherError::InvalidPosition(pos + *n))
            }
        },
        ExtractorAction::Jump(off) => {
            let off = *off;
            if off < 0 {
                let back: usize = if off == isize::MIN {
                    (isize::MAX as usize) + 1
                } else {
                    (-off) as usize
                };
                if back >= pos {
                    Ok(Some(0))
                } else {
                    Ok(Some(pos - back))
                }
            } else {
                let fwd = off as usize;
                if fwd <= len - pos {
                    Ok(Some(pos + fwd))
                } else if fwd > usize::MAX - pos {
                    Err(MatcherError::InvalidPosition(usize::MAX))
                } else {
                    Err(MatcherError::InvalidPosition(pos + fwd))
                }
            }
        },
        ExtractorAction::RestartFrom(p) => {
            if *p <= len {
                Ok(Some(*p))
            } else {
                Err(MatcherError::InvalidPosition(*p))
            }
        },
        ExtractorAction::DiscardPartialMatch | ExtractorAction::Restart => Ok(Some(pos + 1)),
    }
}

/// `order` lists every index of `table` once, by ascending priority and,
/// within a priority, by registration order.
pub open spec fn is_priority_order<T, Context>(table: Seq<(String, Pattern<T, Context>)>, order: Seq<usize>) -> bool {
    &&& order.len() == table.len()
    &&& forall|i: int| 0 <= i < order.len() ==> #[trigger] order[i] < table.len()
    &&& forall|i: int, j: int| 0 <= i < j < order.len() ==> #[trigger] order[i] != #[trigger] order[j]
    &&& forall|i: int, j: int|
        0 <= i < j < order.len() ==> {
            let a = table[order[i] as int].1.settings.priority;
            let b = table[order[j] as int].1.settings.priority;
            #[trigger] order[i] < #[trigger] order[j] ==> a <= b
        }
    &&& forall|i: int, j: int|
        0 <= i < j < order.len() ==> {
            let a = table[order[i] as int].1.settings.priority;
            let b = table[order[j] as int].1.settings.priority;
            #[trigger] order[i] > #[trigger] order[j] ==> a < b
        }
}

impl<T, Context> Matcher<T, Context> {
    /// The table's indices in the order a batch scan tries them.
    pub fn priority_order(&self) -> (order: Vec<usize>)
        ensures
            is_priority_order(self.table(), order@),
    {
        let n = self.table.len();
        let mut order: Vec<usize> = Vec::new();
        let mut k: usize = 0;
        while k < n
            invariant
                n == self.table@.len(),
                k <= n,
                order@.len() == k,
                forall|i: int| 0 <= i < order@.len() ==> #[trigger] order@[i] < k,
                forall|i: int, j: int| 0 <= i < j < order@.len() ==> #[trigger] order@[i] != #[trigger] order@[j],
                forall|i: int, j: int|
                    0 <= i < j < order@.len() ==> {
                        let a = self.table@[order@[i] as int].1.settings.priority;
                        let b = self.table@[order@[j] as int].1.settings.priority;
                        #[trigger] order@[i] < #[trigger] order@[j] ==> a <= b
                    },
                forall|i: int, j: int|
                    0 <= i < j < order@.len() ==> {
                        let a = self.table@[order@[i] as int].1.settings.priority;
                        let b = self.table@[order@[j] as int].1.settings.priority;
                        #[trigger] order@[i] > #[trigger] order@[j] ==> a < b
                    },
            decreases n - k,
        {
            let pk = self.table[k].1.settings.priority;
            // Insert k after every entry whose priority is at most pk.
            let mut at: usize = order.len();
            while at > 0 && self.table[order[at - 1]].1.settings.priority > pk
                invariant
                    n == self.table@.len(),
                    k < n,
                    order@.len() == k,
                    at <= order@.len(),
                    forall|i: int| 0 <= i < order@.len() ==> #[trigger] order@[i] < k,
                    forall|i: int| at <= i < order@.len() ==> self.table@[#[trigger] order@[i] as int].1.settings.priority > pk,
                decreases at,
            {
                at = at - 1;
            }
            proof {
                assert forall|i: int| 0 <= i < at implies self.table@[#[trigger] order@[i] as int].1.settings.priority <= pk by {
                    if at > 0 {
                        let q = order@[at - 1];
                        assert(self.table@[q as int].1.settings.priority <= pk);
                        if i < at - 1 {
                            let oi = order@[i];
                            if oi < q {
                            } else {
                                assert(oi != q);
                            }
                        }
                    }
                }
            }
            let ghost before = order@;
            order.insert(at, k);
            proof {
                assert forall|i: int| 0 <= i < order@.len() implies #[trigger] order@[i] < k + 1 by {
                    if i < at {
                        assert(order@[i] == before[i]);
                    } else if i > at {
                        assert(order@[i] == before[i - 1]);
                    }
                }
                assert forall|i: int, j: int| 0 <= i < j < order@.len() implies #[trigger] order@[i] != #[trigger] order@[j] by {
                    if i < at && j < at {
                        assert(order@[i] == before[i] && order@[j] == before[j]);
                    } else if i < at && j == at {
                        assert(order@[i] == before[i]);
                    } else if i < at {
                        assert(order@[i] == before[i] && order@[j] == before[j - 1]);
                    } else if i == at {
                        assert(order@[j] == before[j - 1]);
                    } else {
                        assert(order@[i] == before[i - 1] && order@[j] == before[j - 1]);
                    }
                }
                assert forall|i: int, j: int|
                    0 <= i < j < order@.len() implies {
                        let a = self.table@[order@[i] as int].1.settings.priority;
                        let b = self.table@[order@[j] as int].1.settings.priority;
                        (#[trigger] order@[i] < #[trigger] order@[j] ==> a <= b) && (order@[i] > order@[j] ==> a < b)
                    } by {
                    if i < at && j < at {
                        assert(order@[i] == before[i] && order@[j] == before[j]);
                    } else if i < at && j == at {
                        assert(order@[i] == before[i]);
                    } else if i < at {
                        assert(order@[i] == before[i] && order@[j] == before[j - 1]);
                    } else if i == at {
                        assert(order@[j] == before[j - 1]);
                    } else {
                        assert(order@[i] == before[i - 1] && order@[j] == before[j - 1]);
                    }
                }
            }
            k = k + 1;
        }
        order
    }
}

proof fn lemma_sum_nonneg(s: Seq<usize>)
    ensures
        seq_sum(s) >= 0,
    decreases s.len(),
{
    if s.len() > 0 {
        lemma_sum_nonneg(s.drop_last());
    }
}

proof fn lemma_sum_prefix(s: Seq<usize>, i: int)
    requires
        0 <= i < s.len(),
    ensures
        seq_sum(s.take(i + 1)) == seq_sum(s.take(i)) + s[i],
        seq_sum(s.take(i + 1)) <= seq_sum(s),
    decreases s.len() - i,
{
    assert(s.take(i + 1).drop_last() =~= s.take(i));
    if i + 1 < s.len() {
        lemma_sum_prefix(s, i + 1);
    } else {
        assert(s.take(i + 1) =~= s);
    }
}

/// Clones of `data[a..b]`.
fn clone_range<T: Clone>(data: &[T], a: usize, b: usize) -> (r: Vec<T>)
    requires
        a <= b <= data@.len(),
    ensures
        r@.len() == b - a,
        forall|j: int| 0 <= j < b - a ==> cloned(data@[a + j], #[trigger] r@[j]),
{
    let mut r: Vec<T> = Vec::new();
    let mut q = a;
    while q < b
        invariant
            a <= q <= b <= data@.len(),
            r@.len() == q - a,
            forall|j: int| 0 <= j < q - a ==> cloned(data@[a + j], #[trigger] r@[j]),
        decreases b - q,
    {
        r.push(data[q].clone());
        q = q + 1;
    }
    r
}

impl<T, Context> Pattern<T, Context> {
    /// The pattern-level extractor id, if any.
    pub open spec fn pattern_hook_ref(&self) -> Option<ExtractorId> {
        self.settings.extractor_id
    }
}

/// An action that a batch scan stages instead of acting on at once: the
/// table actions, and `Continue`, which is dropped.
pub open spec fn is_staged<T, Context>(act: ExtractorAction<T, Context>) -> bool {
    match act {
        ExtractorAction::Continue | ExtractorAction::AddPattern(..) | ExtractorAction::RemovePattern(..) => true,
        _ => false,
    }
}

/// `pending` after staging `act`.
pub open spec fn staged_after<T, Context>(
    pending: Seq<ExtractorAction<T, Context>>,
    act: ExtractorAction<T, Context>,
) -> Seq<ExtractorAction<T, Context>> {
    if act is Continue {
        pending
    } else {
        pending.push(act)
    }
}

/// `items` are clones of `data[a..b]`.
pub open spec fn clones_of<T: Clone>(items: Seq<T>, data: Seq<T>, a: int, b: int) -> bool {
    &&& items.len() == b - a
    &&& forall|j: int| 0 <= j < b - a ==> cloned(data[a + j], #[trigger] items[j])
}

impl<T: Clone + PartialEq + PartialOrd, Context> Matcher<T, Context> {
    /// `st` is the state a batch scan hands to the extractor of element `i`
    /// of the pattern called `name`, which began at `pos`, for the item at
    /// `q`; the element's items began at `start`.
    pub open spec fn element_state(
        st: MatchState<T>,
        data: Seq<T>,
        pos: int,
        total: int,
        name: String,
        i: int,
        start: int,
        q: int,
    ) -> bool {
        &&& cloned(data[q], st.current_item)
        &&& st.position == pos
        &&& st.total_processed == total
        &&& clones_of(st.matched_items@, data, start, q + 1)
        &&& st.element_index == i
        &&& st.pattern_name == Some(name)
        &&& st.input_length == Some(data.len() as usize)
    }

    /// `st` is the state a batch scan hands to the extractor of the pattern
    /// called `name` with `n_el` elements, which matched `data[pos..end]`.
    pub open spec fn pattern_state(
        st: MatchState<T>,
        data: Seq<T>,
        pos: int,
        end: int,
        total: int,
        name: String,
        n_el: int,
    ) -> bool {
        &&& cloned(data[if end > pos { end - 1 } else { pos }], st.current_item)
        &&& st.position == pos
        &&& st.total_processed == total
        &&& clones_of(st.matched_items@, data, pos, end)
        &&& st.element_index == n_el
        &&& st.pattern_name == Some(name)
        &&& st.input_length == Some(data.len() as usize)
    }

    /// A batch scan of `data` at `pos`, having taken `steps` steps, with
    /// table `t`, may end with table `nt` and result `r`.
    ///
    /// Past the end (or after `usize::MAX` steps) it ends with `Ok(())`.
    /// Otherwise the patterns are tried in priority order (`try_patterns`).
    pub open spec fn scan(m: Self, t: Seq<(String, Pattern<T, Context>)>, data: Seq<T>, pos: int, steps: int, nt: Seq<
        (String, Pattern<T, Context>),
    >, r: Result<(), MatcherError>) -> bool
        decreases usize::MAX - steps, 4int, 0int, 0int,
    {
        if pos < 0 || pos >= data.len() || steps < 0 || steps >= usize::MAX {
            nt == t && r == Ok::<(), MatcherError>(())
        } else {
            exists|order: Seq<usize>|
                #[trigger] is_priority_order(t, order) && Self::try_patterns(
                    m,
                    t,
                    data,
                    pos,
                    steps + 1,
                    order,
                    0,
                    nt,
                    r,
                )
        }
    }

    /// Pattern `order[k]` and those after it are tried at `pos`. A pattern
    /// that fails passes on to the next; the first that matches, with `cs`
    /// items per element, fires (`element_phase`). When none matches, the
    /// scan goes on at `pos + 1`.
    pub open spec fn try_patterns(
        m: Self,
        t: Seq<(String, Pattern<T, Context>)>,
        data: Seq<T>,
        pos: int,
        steps: int,
        order: Seq<usize>,
        k: int,
        nt: Seq<(String, Pattern<T, Context>)>,
        r: Result<(), MatcherError>,
    ) -> bool
        decreases usize::MAX - steps + 1, 3int, order.len() - k, 0int,
    {
        if steps <= 0 || steps > usize::MAX {
            nt == t && r == Ok::<(), MatcherError>(())
        } else if k < 0 || k >= order.len() || order[k] >= t.len() {
            Self::scan(m, t, data, pos + 1, steps, nt, r)
        } else {
            let p = t[order[k] as int].1;
            ||| p.fails_at(data, pos) && Self::try_patterns(m, t, data, pos, steps, order, k + 1, nt, r)
            ||| Self::fires(m, t, data, pos, steps, order[k] as int, nt, r)
        }
    }

    /// Pattern `idx` of `t` matched at `pos` with some counts `cs` and fired.
    pub open spec fn fires(
        m: Self,
        t: Seq<(String, Pattern<T, Context>)>,
        data: Seq<T>,
        pos: int,
        steps: int,
        idx: int,
        nt: Seq<(String, Pattern<T, Context>)>,
        r: Result<(), MatcherError>,
    ) -> bool
        decreases usize::MAX - steps + 1, 2int, 0int, 0int,
    {
        exists|cs: Seq<usize>|
            t[idx].1.elements@.len() > 0 && #[trigger] t[idx].1.counts_ok(
                data,
                pos,
                cs,
                t[idx].1.elements@.len() as int,
            ) && Self::element_phase(m, t, data, pos, steps, idx, cs, 0, pos, Seq::empty(), nt, r)
    }

    /// The extractors of element `i` and those after it run, starting at
    /// item `q`, with `pending` staged so far. An element without a
    /// registered extractor is passed over. An answer of the extractor: an
    /// error ends the scan with `ExtractorFailed`; `Continue` and the table
    /// actions are staged and the next item follows; any other action stops
    /// the extractors and decides the next position (`apply_phase`).
    pub open spec fn element_phase(
        m: Self,
        t: Seq<(String, Pattern<T, Context>)>,
        data: Seq<T>,
        pos: int,
        steps: int,
        idx: int,
        cs: Seq<usize>,
        i: int,
        q: int,
        pending: Seq<ExtractorAction<T, Context>>,
        nt: Seq<(String, Pattern<T, Context>)>,
        r: Result<(), MatcherError>,
    ) -> bool
        decreases usize::MAX - steps + 1, 1int, cs.len() - i, 2 * (data.len() - q) + 1,
    {
        if i < 0 || i >= cs.len() {
            Self::pattern_phase(m, t, data, pos, steps, idx, cs, pending, nt, r)
        } else {
            let p = t[idx].1;
            let start = pos + seq_sum(cs.take(i));
            let stop = start + cs[i];
            let h = match p.elements@[i].extractor_ref() {
                Some(id) => lookup_hook(m.hooks(), id),
                None => None,
            };
            if h is None || q < start || q >= stop || q >= data.len() {
                Self::element_phase(m, t, data, pos, steps, idx, cs, i + 1, stop, pending, nt, r)
            } else {
                Self::element_hook(m, t, data, pos, steps, idx, cs, i, q, h->0, pending, nt, r)
            }
        }
    }

    /// Extractor `hi` of element `i` is called for the item at `q`.
    pub open spec fn element_hook(
        m: Self,
        t: Seq<(String, Pattern<T, Context>)>,
        data: Seq<T>,
        pos: int,
        steps: int,
        idx: int,
        cs: Seq<usize>,
        i: int,
        q: int,
        hi: int,
        pending: Seq<ExtractorAction<T, Context>>,
        nt: Seq<(String, Pattern<T, Context>)>,
        r: Result<(), MatcherError>,
    ) -> bool
        decreases usize::MAX - steps + 1, 1int, cs.len() - i, 2 * (data.len() - q),
    {
        &&& 0 <= i < cs.len()
        &&& 0 <= q < data.len()
        &&& exists|st: MatchState<T>, a: Result<ExtractorAction<T, Context>, ExtractorError>|
            Self::element_state(st, data, pos, m.processed(), t[idx].0, i, pos + seq_sum(cs.take(i)), q)
                && #[trigger] m.hooks()[hi].hook.gives(st, a) && match a {
                Err(e) => nt == t && r == Err::<(), MatcherError>(MatcherError::ExtractorFailed(e)),
                Ok(act) => if is_staged(act) {
                    Self::element_phase(m, t, data, pos, steps, idx, cs, i, q + 1, staged_after(pending, act), nt, r)
                } else {
                    Self::apply_phase(m, t, data, pos, steps, pos + seq_sum(cs), pending, act, nt, r)
                },
            }
    }

    /// After the element extractors, the pattern's own extractor (if
    /// registered) runs; its answer is handled as an element extractor's.
    pub open spec fn pattern_phase(
        m: Self,
        t: Seq<(String, Pattern<T, Context>)>,
        data: Seq<T>,
        pos: int,
        steps: int,
        idx: int,
        cs: Seq<usize>,
        pending: Seq<ExtractorAction<T, Context>>,
        nt: Seq<(String, Pattern<T, Context>)>,
        r: Result<(), MatcherError>,
    ) -> bool
        decreases usize::MAX - steps + 1, 0int, 3int, 0int,
    {
        let p = t[idx].1;
        let end = pos + seq_sum(cs);
        let h = match p.pattern_hook_ref() {
            Some(id) => lookup_hook(m.hooks(), id),
            None => None,
        };
        if h is None {
            Self::apply_phase(m, t, data, pos, steps, end, pending, ExtractorAction::Continue, nt, r)
        } else {
            Self::pattern_hook(m, t, data, pos, steps, idx, cs, h->0, pending, nt, r)
        }
    }

    /// The pattern's extractor `hi` is called.
    pub open spec fn pattern_hook(
        m: Self,
        t: Seq<(String, Pattern<T, Context>)>,
        data: Seq<T>,
        pos: int,
        steps: int,
        idx: int,
        cs: Seq<usize>,
        hi: int,
        pending: Seq<ExtractorAction<T, Context>>,
        nt: Seq<(String, Pattern<T, Context>)>,
        r: Result<(), MatcherError>,
    ) -> bool
        decreases usize::MAX - steps + 1, 0int, 2int, 0int,
    {
        let end = pos + seq_sum(cs);
        exists|st: MatchState<T>, a: Result<ExtractorAction<T, Context>, ExtractorError>|
            Self::pattern_state(st, data, pos, end, m.processed(), t[idx].0, t[idx].1.elements@.len() as int)
                && #[trigger] m.hooks()[hi].hook.gives(st, a) && match a {
                Err(e) => nt == t && r == Err::<(), MatcherError>(MatcherError::ExtractorFailed(e)),
                Ok(act) => if is_staged(act) {
                    Self::apply_phase(
                        m,
                        t,
                        data,
                        pos,
                        steps,
                        end,
                        staged_after(pending, act),
                        ExtractorAction::Continue,
                        nt,
                        r,
                    )
                } else {
                    Self::apply_phase(m, t, data, pos, steps, end, pending, act, nt, r)
                },
            }
    }

    /// What the scan does after a fired pattern returned `r` (`Ok(Some(p))`:
    /// go on at `p`; `Ok(None)`: stop; an error: end with it) with table `ft`.
    pub open spec fn scan_leaf(
        m: Self,
        ft: Seq<(String, Pattern<T, Context>)>,
        data: Seq<T>,
        steps: int,
        r: Result<Option<usize>, MatcherError>,
        nt: Seq<(String, Pattern<T, Context>)>,
        r2: Result<(), MatcherError>,
    ) -> bool {
        match r {
            Err(e) => nt == ft && r2 == Err::<(), MatcherError>(e),
            Ok(None) => nt == ft && r2 == Ok::<(), MatcherError>(()),
            Ok(Some(p)) => Self::scan(m, ft, data, p as int, steps, nt, r2),
        }
    }

    /// The staged table actions are applied in order (the first failure
    /// ends the scan with its error), then the scan goes on where
    /// `spec_next_position` says for the controlling action, resuming after
    /// the match by default and at least one position further.
    pub open spec fn apply_phase(
        m: Self,
        t: Seq<(String, Pattern<T, Context>)>,
        data: Seq<T>,
        pos: int,
        steps: int,
        end: int,
        pending: Seq<ExtractorAction<T, Context>>,
        control: ExtractorAction<T, Context>,
        nt: Seq<(String, Pattern<T, Context>)>,
        r: Result<(), MatcherError>,
    ) -> bool
        decreases usize::MAX - steps + 1, 0int, 0int, pending.len(),
    {
        if steps <= 0 || steps > usize::MAX {
            nt == t && r == Ok::<(), MatcherError>(())
        } else if pending.len() > 0 {
            match table_after(t, pending[0]) {
                Err(e) => nt == t && r == Err::<(), MatcherError>(e),
                Ok(t2) => Self::apply_phase(m, t2, data, pos, steps, end, pending.drop_first(), control, nt, r),
            }
        } else {
            let default_next = if end > pos {
                end
            } else {
                pos + 1
            };
            match spec_next_position(control, pos, default_next, data.len() as int) {
                Err(e) => nt == t && r == Err::<(), MatcherError>(e),
                Ok(None) => nt == t && r == Ok::<(), MatcherError>(()),
                Ok(Some(p)) => Self::scan(m, t, data, p as int, steps, nt, r),
            }
        }
    }
}

impl<T: Clone + PartialEq + PartialOrd, Context> Matcher<T, Context> {
    /// Hands the answer of an extractor on: table actions are staged in
    /// `pending`, any other action but `Continue` becomes the control action.
    fn route_action(
        a: Result<ExtractorAction<T, Context>, ExtractorError>,
        pending: &mut Vec<ExtractorAction<T, Context>>,
        control: &mut Option<ExtractorAction<T, Context>>,
    ) -> (r: Result<(), MatcherError>)
        requires
            (*old(control)) is None,
            a matches Ok(ExtractorAction::AddPattern(_, p)) ==> p.admits_all(),
            forall|j: int|
                0 <= j < old(pending)@.len() ==> (#[trigger] old(pending)@[j] matches ExtractorAction::AddPattern(
                    _,
                    p,
                ) ==> p.admits_all()),
        ensures
            forall|j: int|
                0 <= j < final(pending)@.len() ==> (#[trigger] final(pending)@[j] matches ExtractorAction::AddPattern(
                    _,
                    p,
                ) ==> p.admits_all()),
            r matches Err(e) ==> e is ExtractorFailed,
            match a {
                Err(e) => r == Err::<(), MatcherError>(MatcherError::ExtractorFailed(e)) && final(pending)@
                    == old(pending)@ && (*final(control)) is None,
                Ok(act) => r is Ok && if is_staged(act) {
                    final(pending)@ == staged_after(old(pending)@, act) && (*final(control)) is None
                } else {
                    final(pending)@ == old(pending)@ && *final(control) == Some(act)
                },
            },
    {
        match a {
            Err(e) => Err(MatcherError::ExtractorFailed(e)),
            Ok(ExtractorAction::Continue) => Ok(()),
            Ok(ExtractorAction::AddPattern(name, p)) => {
                pending.push(ExtractorAction::AddPattern(name, p));
                Ok(())
            },
            Ok(ExtractorAction::RemovePattern(name)) => {
                pending.push(ExtractorAction::RemovePattern(name));
                Ok(())
            },
            Ok(other) => {
                *control = Some(other);
                Ok(())
            },
        }
    }

    /// Runs the extractors of table pattern `idx`, which matched from `pos`
    /// to `end` with `counts` items per element, applies the staged table
    /// actions and returns where the scan goes on (`None`: it stops).
    fn fire(
        &mut self,
        idx: usize,
        data: &[T],
        pos: usize,
        end: usize,
        counts: Vec<usize>,
        gm: Ghost<Self>,
        gsteps: Ghost<int>,
    ) -> (r: Result<Option<usize>, MatcherError>)
        requires
            old(self).wf(),
            old(self).hooks_total(),
            table_admits_all(old(self).table()),
            idx < old(self).table().len(),
            pos < data@.len(),
            pos <= end <= data@.len(),
            counts@.len() == old(self).table()[idx as int].1.elements@.len(),
            end == pos + seq_sum(counts@),
            gm@.hooks() == old(self).hooks(),
            gm@.processed() == old(self).processed(),
            1 <= gsteps@ <= usize::MAX,
        ensures
            final(self).wf(),
            table_admits_all(final(self).table()),
            final(self).chain() == old(self).chain(),
            final(self).cursor() == old(self).cursor(),
            final(self).processed() == old(self).processed(),
            final(self).window() == old(self).window(),
            final(self).hooks() == old(self).hooks(),
            final(self).ctx() == old(self).ctx(),
            r matches Ok(Some(p)) ==> p <= data@.len(),
            r matches Err(e) ==> (e is InvalidPosition || e is PatternNotFound || e is ExtractorFailed),
            old(self).table()[idx as int].1.has_no_extractors() ==> r == Ok::<Option<usize>, MatcherError>(
                Some(
                    if end > pos {
                        end
                    } else {
                        (pos + 1) as usize
                    },
                ),
            ) && final(self).table() == old(self).table(),
            forall|nt: Seq<(String, Pattern<T, Context>)>, r2: Result<(), MatcherError>|
                #[trigger] Self::scan_leaf(gm@, final(self).table(), data@, gsteps@, r, nt, r2) ==> Self::element_phase(
                    gm@,
                    old(self).table(),
                    data@,
                    pos as int,
                    gsteps@,
                    idx as int,
                    counts@,
                    0,
                    pos as int,
                    Seq::empty(),
                    nt,
                    r2,
                ),
    {
        let ghost m = gm@;
        let ghost steps = gsteps@;
        let ghost t0 = self.table();
        let ghost silent = old(self).table()[idx as int].1.has_no_extractors();
        let n = data.len();
        let mut pending: Vec<ExtractorAction<T, Context>> = Vec::new();
        let mut control: Option<ExtractorAction<T, Context>> = None;
        let n_el = counts.len();
        let mut i: usize = 0;
        let mut start = pos;
        proof {
            assert(counts@.take(0) =~= Seq::<usize>::empty());
        }
        while i < n_el && control.is_none()
            invariant
                *self == *old(self),
                t0 == old(self).table(),
                m == gm@,
                steps == gsteps@,
                m.hooks() == self.hooks(),
                m.processed() == self.processed(),
                1 <= steps <= usize::MAX,
                self.wf(),
                table_admits_all(self.table()),
                self.hooks_total(),
                n == data@.len(),
                n_el == counts@.len(),
                idx < self.table@.len(),
                n_el == self.table@[idx as int].1.elements@.len(),
                i <= n_el,
                pos < n,
                silent == self.table()[idx as int].1.has_no_extractors(),
                silent ==> pending@.len() == 0 && control is None,
                start == pos + seq_sum(counts@.take(i as int)),
                end == pos + seq_sum(counts@),
                end <= n,
                forall|j: int|
                    0 <= j < pending@.len() ==> (#[trigger] pending@[j] matches ExtractorAction::AddPattern(
                        _,
                        p,
                    ) ==> p.admits_all()),
                control is None ==> forall|nt: Seq<(String, Pattern<T, Context>)>, r2: Result<(), MatcherError>|
                    #[trigger] Self::element_phase(
                        m,
                        t0,
                        data@,
                        pos as int,
                        steps,
                        idx as int,
                        counts@,
                        i as int,
                        start as int,
                        pending@,
                        nt,
                        r2,
                    ) ==> Self::element_phase(
                        m,
                        t0,
                        data@,
                        pos as int,
                        steps,
                        idx as int,
                        counts@,
                        0,
                        pos as int,
                        Seq::empty(),
                        nt,
                        r2,
                    ),
                control is Some ==> forall|nt: Seq<(String, Pattern<T, Context>)>, r2: Result<(), MatcherError>|
                    #[trigger] Self::apply_phase(
                        m,
                        t0,
                        data@,
                        pos as int,
                        steps,
                        end as int,
                        pending@,
                        control->0,
                        nt,
                        r2,
                    ) ==> Self::element_phase(
                        m,
                        t0,
                        data@,
                        pos as int,
                        steps,
                        idx as int,
                        counts@,
                        0,
                        pos as int,
                        Seq::empty(),
                        nt,
                        r2,
                    ),
            decreases n_el - i,
        {
            proof {
                lemma_sum_prefix(counts@, i as int);
            }
            let c = counts[i];
            assert(silent ==> self.table()[idx as int].1.elements@[i as int].extractor_ref() is None);
            let found = match self.table[idx].1.elements[i].extractor_of() {
                Some(id) => self.find_hook(id),
                None => None,
            };
            let ghost stop = start + c;
            if let Some(h) = found {
                assert(!silent);
                let mut q = start;
                while q < start + c && control.is_none()
                    invariant
                        *self == *old(self),
                        t0 == old(self).table(),
                        m == gm@,
                        steps == gsteps@,
                        m.hooks() == self.hooks(),
                        m.processed() == self.processed(),
                        1 <= steps <= usize::MAX,
                        !silent,
                        silent == old(self).table()[idx as int].1.has_no_extractors(),
                        self.wf(),
                        table_admits_all(self.table()),
                        self.hooks_total(),
                        idx < self.table@.len(),
                        n_el == counts@.len(),
                        i < n_el,
                        c == counts@[i as int],
                        start == pos + seq_sum(counts@.take(i as int)),
                        end == pos + seq_sum(counts@),
                        h < self.extractors@.len(),
                        self.table()[idx as int].1.elements@[i as int].extractor_ref() matches Some(id) && self.hook(id)
                            == Some(h as int),
                        n == data@.len(),
                        start <= q <= start + c,
                        start + c <= end <= n,
                        pos < n,
                        forall|j: int|
                            0 <= j < pending@.len() ==> (#[trigger] pending@[j] matches ExtractorAction::AddPattern(
                                _,
                                p,
                            ) ==> p.admits_all()),
                        control is None ==> forall|nt: Seq<(String, Pattern<T, Context>)>, r2: Result<(), MatcherError>|
                            #[trigger] Self::element_phase(
                                m,
                                t0,
                                data@,
                                pos as int,
                                steps,
                                idx as int,
                                counts@,
                                i as int,
                                q as int,
                                pending@,
                                nt,
                                r2,
                            ) ==> Self::element_phase(
                                m,
                                t0,
                                data@,
                                pos as int,
                                steps,
                                idx as int,
                                counts@,
                                0,
                                pos as int,
                                Seq::empty(),
                                nt,
                                r2,
                            ),
                        control is Some ==> forall|nt: Seq<(String, Pattern<T, Context>)>, r2: Result<(), MatcherError>|
                            #[trigger] Self::apply_phase(
                                m,
                                t0,
                                data@,
                                pos as int,
                                steps,
                                end as int,
                                pending@,
                                control->0,
                                nt,
                                r2,
                            ) ==> Self::element_phase(
                                m,
                                t0,
                                data@,
                                pos as int,
                                steps,
                                idx as int,
                                counts@,
                                0,
                                pos as int,
                                Seq::empty(),
                                nt,
                                r2,
                            ),
                    decreases start + c - q,
                {
                    let state = MatchState {
                        current_item: data[q].clone(),
                        position: pos,
                        total_processed: self.total_processed,
                        matched_items: clone_range(data, start, q + 1),
                        element_index: i,
                        pattern_name: Some(self.table[idx].0.clone()),
                        input_length: Some(n),
                    };
                    assert(self.hooks()[h as int].hook.admits(state));
                    let a = self.extractors[h].hook.extract(&state);
                    let ghost ga = a;
                    let ghost p0 = pending@;
                    assert(self.hooks()[h as int].hook.gives(state, ga));
                    assert(Self::element_state(state, data@, pos as int, m.processed(), t0[idx as int].0, i as int, start as int, q as int));
                    let routed = Self::route_action(a, &mut pending, &mut control);
                    proof {
                        assert forall|nt: Seq<(String, Pattern<T, Context>)>, r2: Result<(), MatcherError>|
                            #[trigger] Self::element_hook(m, t0, data@, pos as int, steps, idx as int, counts@, i as int, q as int, h as int, p0, nt, r2)
                            implies Self::element_phase(m, t0, data@, pos as int, steps, idx as int, counts@, i as int, q as int, p0, nt, r2) by {
                        }
                    }
                    match routed {
                        Err(e) => {
                            proof {
                                assert forall|nt: Seq<(String, Pattern<T, Context>)>, r2: Result<(), MatcherError>|
                                    #[trigger] Self::scan_leaf(m, self.table(), data@, steps, Err(e), nt, r2)
                                    implies Self::element_phase(m, t0, data@, pos as int, steps, idx as int, counts@, 0, pos as int, Seq::empty(), nt, r2) by {
                                    assert(ga is Err);
                                    assert(e == MatcherError::ExtractorFailed(ga->Err_0));
                                    assert(nt == t0);
                                    assert(Self::element_hook(m, t0, data@, pos as int, steps, idx as int, counts@, i as int, q as int, h as int, p0, nt, r2));
                                    assert(Self::element_phase(m, t0, data@, pos as int, steps, idx as int, counts@, i as int, q as int, p0, nt, r2));
                                }
                            }
                            return Err(e);
                        },
                        Ok(()) => {},
                    }
                    proof {
                        if control is None {
                            assert forall|nt: Seq<(String, Pattern<T, Context>)>, r2: Result<(), MatcherError>|
                                #[trigger] Self::element_phase(m, t0, data@, pos as int, steps, idx as int, counts@, i as int, q + 1, pending@, nt, r2)
                                implies Self::element_phase(m, t0, data@, pos as int, steps, idx as int, counts@, 0, pos as int, Seq::empty(), nt, r2) by {
                                assert(Self::element_hook(m, t0, data@, pos as int, steps, idx as int, counts@, i as int, q as int, h as int, p0, nt, r2));
                            }
                        } else {
                            assert forall|nt: Seq<(String, Pattern<T, Context>)>, r2: Result<(), MatcherError>|
                                #[trigger] Self::apply_phase(m, t0, data@, pos as int, steps, end as int, pending@, control->0, nt, r2)
                                implies Self::element_phase(m, t0, data@, pos as int, steps, idx as int, counts@, 0, pos as int, Seq::empty(), nt, r2) by {
                                assert(Self::element_hook(m, t0, data@, pos as int, steps, idx as int, counts@, i as int, q as int, h as int, p0, nt, r2));
                            }
                        }
                    }
                    q = q + 1;
                }
            }
            proof {
                if control is None {
                    assert forall|nt: Seq<(String, Pattern<T, Context>)>, r2: Result<(), MatcherError>|
                        #[trigger] Self::element_phase(m, t0, data@, pos as int, steps, idx as int, counts@, i + 1, stop, pending@, nt, r2)
                        implies Self::element_phase(m, t0, data@, pos as int, steps, idx as int, counts@, 0, pos as int, Seq::empty(), nt, r2) by {
                        if found is Some {
                            assert(Self::element_phase(m, t0, data@, pos as int, steps, idx as int, counts@, i as int, stop, pending@, nt, r2));
                        } else {
                            assert(Self::element_phase(m, t0, data@, pos as int, steps, idx as int, counts@, i as int, start as int, pending@, nt, r2));
                        }
                    }
                }
            }
            start = start + c;
            i = i + 1;
        }
        let ghost p1 = pending@;
        if control.is_none() {
            assert(forall|nt: Seq<(String, Pattern<T, Context>)>, r2: Result<(), MatcherError>|
                #[trigger] Self::pattern_phase(m, t0, data@, pos as int, steps, idx as int, counts@, p1, nt, r2)
                ==> Self::element_phase(m, t0, data@, pos as int, steps, idx as int, counts@, i as int, start as int, p1, nt, r2));
            let found = match self.table[idx].1.settings.extractor_id {
                Some(id) => self.find_hook(id),
                None => None,
            };
            if let Some(h) = found {
                let last = if end > pos {
                    end - 1
                } else {
                    pos
                };
                let state = MatchState {
                    current_item: data[last].clone(),
                    position: pos,
                    total_processed: self.total_processed,
                    matched_items: clone_range(data, pos, end),
                    element_index: n_el,
                    pattern_name: Some(self.table[idx].0.clone()),
                    input_length: Some(n),
                };
                assert(self.hooks()[h as int].hook.admits(state));
                let a = self.extractors[h].hook.extract(&state);
                let ghost ga = a;
                assert(self.hooks()[h as int].hook.gives(state, ga));
                assert(Self::pattern_state(state, data@, pos as int, end as int, m.processed(), t0[idx as int].0, n_el as int));
                let routed = Self::route_action(a, &mut pending, &mut control);
                proof {
                    assert forall|nt: Seq<(String, Pattern<T, Context>)>, r2: Result<(), MatcherError>|
                        #[trigger] Self::pattern_hook(m, t0, data@, pos as int, steps, idx as int, counts@, h as int, p1, nt, r2)
                        implies Self::pattern_phase(m, t0, data@, pos as int, steps, idx as int, counts@, p1, nt, r2) by {
                    }
                }
                match routed {
                    Err(e) => {
                        proof {
                            assert forall|nt: Seq<(String, Pattern<T, Context>)>, r2: Result<(), MatcherError>|
                                #[trigger] Self::scan_leaf(m, self.table(), data@, steps, Err(e), nt, r2)
                                implies Self::element_phase(m, t0, data@, pos as int, steps, idx as int, counts@, 0, pos as int, Seq::empty(), nt, r2) by {
                                assert(Self::pattern_hook(m, t0, data@, pos as int, steps, idx as int, counts@, h as int, p1, nt, r2));
                            }
                        }
                        return Err(e);
                    },
                    Ok(()) => {},
                }
                proof {
                    let ctl = if control is Some { control->0 } else { ExtractorAction::Continue };
                    assert forall|nt: Seq<(String, Pattern<T, Context>)>, r2: Result<(), MatcherError>|
                        #[trigger] Self::apply_phase(m, t0, data@, pos as int, steps, end as int, pending@, ctl, nt, r2)
                        implies Self::element_phase(m, t0, data@, pos as int, steps, idx as int, counts@, 0, pos as int, Seq::empty(), nt, r2) by {
                        assert(Self::pattern_hook(m, t0, data@, pos as int, steps, idx as int, counts@, h as int, p1, nt, r2));
                    }
                }
            } else {
                proof {
                    assert forall|nt: Seq<(String, Pattern<T, Context>)>, r2: Result<(), MatcherError>|
                        #[trigger] Self::apply_phase(m, t0, data@, pos as int, steps, end as int, pending@, ExtractorAction::Continue, nt, r2)
                        implies Self::element_phase(m, t0, data@, pos as int, steps, idx as int, counts@, 0, pos as int, Seq::empty(), nt, r2) by {
                        assert(Self::pattern_phase(m, t0, data@, pos as int, steps, idx as int, counts@, p1, nt, r2));
                    }
                }
            }
        }
        let ghost ctl = if control is Some { control->0 } else { ExtractorAction::Continue };
        assert(forall|nt: Seq<(String, Pattern<T, Context>)>, r2: Result<(), MatcherError>|
            #[trigger] Self::apply_phase(m, t0, data@, pos as int, steps, end as int, pending@, ctl, nt, r2)
            ==> Self::element_phase(m, t0, data@, pos as int, steps, idx as int, counts@, 0, pos as int, Seq::empty(), nt, r2));
        while pending.len() > 0
            invariant
                silent == old(self).table()[idx as int].1.has_no_extractors(),
                silent ==> pending@.len() == 0,
                silent ==> self.table() == old(self).table(),
                self.wf(),
                table_admits_all(self.table()),
                self.chain() == old(self).chain(),
                self.cursor() == old(self).cursor(),
                self.processed() == old(self).processed(),
                self.window() == old(self).window(),
                self.hooks() == old(self).hooks(),
                self.ctx() == old(self).ctx(),
                1 <= steps <= usize::MAX,
                m == gm@,
                steps == gsteps@,
                t0 == old(self).table(),
                forall|j: int|
                    0 <= j < pending@.len() ==> (#[trigger] pending@[j] matches ExtractorAction::AddPattern(
                        _,
                        p,
                    ) ==> p.admits_all()),
                forall|nt: Seq<(String, Pattern<T, Context>)>, r2: Result<(), MatcherError>|
                    #[trigger] Self::apply_phase(m, self.table(), data@, pos as int, steps, end as int, pending@, ctl, nt, r2)
                    ==> Self::element_phase(m, t0, data@, pos as int, steps, idx as int, counts@, 0, pos as int, Seq::empty(), nt, r2),
            decreases pending@.len(),
        {
            let ghost before = pending@;
            let ghost tb = self.table();
            let act = pending.remove(0);
            assert(act == before[0]);
            assert forall|j: int| 0 <= j < pending@.len() implies #[trigger] pending@[j] == before[j + 1] by {}
            assert(pending@ =~= before.drop_first());
            match act {
                ExtractorAction::AddPattern(name, p) => {
                    self.insert_named(name, p);
                },
                ExtractorAction::RemovePattern(name) => {
                    proof {
                        lemma_name_index(self.table@, name@);
                    }
                    if self.remove_named(&name).is_none() {
                        proof {
                            assert forall|nt: Seq<(String, Pattern<T, Context>)>, r2: Result<(), MatcherError>|
                                #[trigger] Self::scan_leaf(m, self.table(), data@, steps, Err(MatcherError::PatternNotFound(name)), nt, r2)
                                implies Self::element_phase(m, t0, data@, pos as int, steps, idx as int, counts@, 0, pos as int, Seq::empty(), nt, r2) by {
                                assert(Self::apply_phase(m, tb, data@, pos as int, steps, end as int, before, ctl, nt, r2));
                            }
                        }
                        return Err(MatcherError::PatternNotFound(name));
                    }
                },
                _ => {},
            }
            proof {
                assert forall|nt: Seq<(String, Pattern<T, Context>)>, r2: Result<(), MatcherError>|
                    #[trigger] Self::apply_phase(m, self.table(), data@, pos as int, steps, end as int, pending@, ctl, nt, r2)
                    implies Self::element_phase(m, t0, data@, pos as int, steps, idx as int, counts@, 0, pos as int, Seq::empty(), nt, r2) by {
                    assert(Self::apply_phase(m, tb, data@, pos as int, steps, end as int, before, ctl, nt, r2));
                }
            }
        }
        let default_next = if end > pos {
            end
        } else {
            pos + 1
        };
        let action = match control {
            Some(a) => a,
            None => ExtractorAction::Continue,
        };
        assert(action == ctl);
        let r = next_position(&action, pos, default_next, n);
        proof {
            assert forall|nt: Seq<(String, Pattern<T, Context>)>, r2: Result<(), MatcherError>|
                #[trigger] Self::scan_leaf(m, self.table(), data@, steps, r, nt, r2)
                implies Self::element_phase(m, t0, data@, pos as int, steps, idx as int, counts@, 0, pos as int, Seq::empty(), nt, r2) by {
                assert(Self::apply_phase(m, self.table(), data@, pos as int, steps, end as int, pending@, ctl, nt, r2));
            }
        }
        r
    }

    /// Scans `data` once with the table's patterns.
    ///
    /// At each position the patterns are tried by priority; the first that
    /// matches wins. Its element extractors then run once for each item their
    /// element consumed, in order, followed by the pattern's own extractor;
    /// the first action other than `Continue` or a table action ends this.
    /// The scan resumes after the match (at least one position further) or
    /// where that action says (see `spec_next_position`).
    /// Without a match the scan moves one position on. Table changes asked
    /// for by extractors take effect from the next position. A scan takes at
    /// most `usize::MAX` steps.
    pub fn run(&mut self, data: &[T]) -> (r: Result<(), MatcherError>)
        requires
            old(self).wf(),
            old(self).hooks_total(),
            table_admits_all(old(self).table()),
        ensures
            final(self).wf(),
            table_admits_all(final(self).table()),
            final(self).chain() == old(self).chain(),
            final(self).cursor() == old(self).cursor(),
            final(self).processed() == old(self).processed(),
            final(self).window() == old(self).window(),
            final(self).hooks() == old(self).hooks(),
            final(self).ctx() == old(self).ctx(),
            data@.len() == 0 ==> r == Ok::<(), MatcherError>(()) && final(self).table() == old(self).table(),
            (forall|i: int|
                0 <= i < old(self).table().len() ==> #[trigger] old(self).table()[i].1.never_matches(data@)) ==> r
                == Ok::<(), MatcherError>(()) && final(self).table() == old(self).table(),
            (forall|i: int|
                0 <= i < old(self).table().len() ==> #[trigger] old(self).table()[i].1.has_no_extractors()) ==> r
                == Ok::<(), MatcherError>(()) && final(self).table() == old(self).table(),
            r matches Err(e) ==> (e is InvalidPosition || e is PatternNotFound || e is ExtractorFailed),
            Self::scan(*old(self), old(self).table(), data@, 0, 0, final(self).table(), r),
    {
        let ghost m0 = *old(self);
        let n = data.len();
        let ghost silent = forall|i: int|
            0 <= i < old(self).table().len() ==> #[trigger] old(self).table()[i].1.has_no_extractors();
        let ghost quiet = forall|i: int|
            0 <= i < old(self).table().len() ==> #[trigger] old(self).table()[i].1.never_matches(data@);
        let mut pos: usize = 0;
        let mut steps: usize = 0;
        while pos < n && steps < usize::MAX
            invariant
                n == data@.len(),
                pos <= n,
                self.wf(),
                self.hooks_total(),
                table_admits_all(self.table()),
                self.chain() == old(self).chain(),
                self.cursor() == old(self).cursor(),
                self.processed() == old(self).processed(),
                self.window() == old(self).window(),
                self.hooks() == old(self).hooks(),
                self.ctx() == old(self).ctx(),
                quiet == forall|i: int|
                    0 <= i < old(self).table().len() ==> #[trigger] old(self).table()[i].1.never_matches(data@),
                quiet ==> self.table() == old(self).table(),
                silent == forall|i: int|
                    0 <= i < old(self).table().len() ==> #[trigger] old(self).table()[i].1.has_no_extractors(),
                silent ==> self.table() == old(self).table(),
                m0 == *old(self),
                forall|nt: Seq<(String, Pattern<T, Context>)>, r: Result<(), MatcherError>|
                    #[trigger] Self::scan(m0, self.table(), data@, pos as int, steps as int, nt, r) ==> Self::scan(
                        m0,
                        old(self).table(),
                        data@,
                        0,
                        0,
                        nt,
                        r,
                    ),
            decreases usize::MAX - steps,
        {
            let ghost s0 = steps as int;
            let ghost tb = self.table();
            steps = steps + 1;
            let order = self.priority_order();
            let mut k: usize = 0;
            let mut chosen: Option<(usize, usize, Vec<usize>)> = None;
            while k < order.len() && chosen.is_none()
                invariant
                    m0 == *old(self),
                    tb == self.table(),
                    s0 + 1 == steps,
                    0 <= s0,
                    self.hooks() == old(self).hooks(),
                    self.processed() == old(self).processed(),
                    forall|nt: Seq<(String, Pattern<T, Context>)>, r: Result<(), MatcherError>|
                        #[trigger] Self::scan(m0, tb, data@, pos as int, s0, nt, r) ==> Self::scan(
                            m0,
                            old(self).table(),
                            data@,
                            0,
                            0,
                            nt,
                            r,
                        ),
                    chosen is None ==> forall|nt: Seq<(String, Pattern<T, Context>)>, r: Result<(), MatcherError>|
                        #[trigger] Self::try_patterns(m0, tb, data@, pos as int, steps as int, order@, k as int, nt, r)
                            ==> Self::scan(m0, tb, data@, pos as int, s0, nt, r),
                    chosen matches Some((idx, end, cs)) ==> {
                        &&& tb[idx as int].1.elements@.len() > 0
                        &&& tb[idx as int].1.counts_ok(data@, pos as int, cs@, tb[idx as int].1.elements@.len() as int)
                        &&& forall|nt: Seq<(String, Pattern<T, Context>)>, r: Result<(), MatcherError>|
                            #[trigger] Self::fires(m0, tb, data@, pos as int, steps as int, idx as int, nt, r)
                                ==> Self::scan(m0, tb, data@, pos as int, s0, nt, r)
                    },
                    n == data@.len(),
                    pos < n,
                    k <= order@.len(),
                    is_priority_order(self.table(), order@),
                    table_admits_all(self.table()),
                    quiet == forall|i: int|
                        0 <= i < old(self).table().len() ==> #[trigger] old(self).table()[i].1.never_matches(data@),
                    quiet ==> self.table() == old(self).table(),
                    quiet ==> chosen is None,
                    silent == forall|i: int|
                        0 <= i < old(self).table().len() ==> #[trigger] old(self).table()[i].1.has_no_extractors(),
                    silent ==> self.table() == old(self).table(),
                    chosen matches Some((idx, end, cs)) ==> {
                        &&& idx < self.table().len()
                        &&& cs@.len() == self.table()[idx as int].1.elements@.len()
                        &&& end == pos + seq_sum(cs@)
                        &&& pos <= end <= n
                    },
                decreases order@.len() - k + if chosen is None {
                    1int
                } else {
                    0int
                },
            {
                let idx = order[k];
                assert(order@[k as int] < self.table().len());
                assert(self.table()[idx as int].1.admits_all());
                match self.table[idx].1.match_pattern(data, pos) {
                    Some((end, cs)) => {
                        proof {
                            if quiet {
                                assert(self.table()[idx as int].1.never_matches(data@));
                                assert(self.table()[idx as int].1.counts_ok(
                                    data@,
                                    pos as int,
                                    cs@,
                                    self.table()[idx as int].1.elements@.len() as int,
                                ));
                            }
                        }
                        assert(cs@.len() == self.table()[idx as int].1.elements@.len());
                        proof {
                            lemma_sum_nonneg(cs@);
                            assert forall|nt: Seq<(String, Pattern<T, Context>)>, r: Result<(), MatcherError>|
                                #[trigger] Self::fires(m0, tb, data@, pos as int, steps as int, idx as int, nt, r)
                                implies Self::scan(m0, tb, data@, pos as int, s0, nt, r) by {
                                assert(Self::try_patterns(m0, tb, data@, pos as int, steps as int, order@, k as int, nt, r));
                            }
                        }
                        chosen = Some((idx, end, cs));
                    },
                    None => {
                        proof {
                            assert forall|nt: Seq<(String, Pattern<T, Context>)>, r: Result<(), MatcherError>|
                                #[trigger] Self::try_patterns(m0, tb, data@, pos as int, steps as int, order@, k + 1, nt, r)
                                implies Self::scan(m0, tb, data@, pos as int, s0, nt, r) by {
                                assert(Self::try_patterns(m0, tb, data@, pos as int, steps as int, order@, k as int, nt, r));
                            }
                        }
                        k = k + 1;
                    },
                }
            }
            match chosen {
                None => {
                    proof {
                        assert forall|nt: Seq<(String, Pattern<T, Context>)>, r: Result<(), MatcherError>|
                            #[trigger] Self::scan(m0, self.table(), data@, pos + 1, steps as int, nt, r)
                            implies Self::scan(m0, old(self).table(), data@, 0, 0, nt, r) by {
                            assert(Self::try_patterns(m0, tb, data@, pos as int, steps as int, order@, k as int, nt, r));
                        }
                    }
                    pos = pos + 1;
                },
                Some((idx, end, cs)) => {
                    assert(silent ==> self.table()[idx as int].1.has_no_extractors());
                    let ghost gcs = cs@;
                    let fired = self.fire(idx, data, pos, end, cs, Ghost(m0), Ghost(steps as int));
                    proof {
                        assert forall|nt: Seq<(String, Pattern<T, Context>)>, r: Result<(), MatcherError>|
                            #[trigger] Self::scan_leaf(m0, self.table(), data@, steps as int, fired, nt, r)
                            implies Self::scan(m0, old(self).table(), data@, 0, 0, nt, r) by {
                            assert(Self::fires(m0, tb, data@, pos as int, steps as int, idx as int, nt, r));
                        }
                    }
                    match fired {
                        Err(e) => {
                            assert(Self::scan_leaf(m0, self.table(), data@, steps as int, fired, self.table(), Err(e)));
                            return Err(e);
                        },
                        Ok(None) => {
                            assert(Self::scan_leaf(m0, self.table(), data@, steps as int, fired, self.table(), Ok(())));
                            return Ok(());
                        },
                        Ok(Some(p)) => {
                            proof {
                                assert forall|nt: Seq<(String, Pattern<T, Context>)>, r: Result<(), MatcherError>|
                                    #[trigger] Self::scan(m0, self.table(), data@, p as int, steps as int, nt, r)
                                    implies Self::scan(m0, old(self).table(), data@, 0, 0, nt, r) by {
                                    assert(Self::scan_leaf(m0, self.table(), data@, steps as int, fired, nt, r));
                                }
                            }
                            pos = p;
                        },
                    }
                },
            }
        }
        assert(Self::scan(m0, self.table(), data@, pos as int, steps as int, self.table(), Ok(())));
        Ok(())
    }
}

impl<T, Context> Matcher<T, Context> {
    /// Adds `pattern` to the table under `name`, replacing an entry of that
    /// name. Fails with `InvalidPattern(name)` when an element has
    /// `min_repeat > max_repeat`, leaving the table as it was.
    pub fn add_named_pattern(&mut self, name: String, pattern: Pattern<T, Context>) -> (r: Result<(), MatcherError>)
        requires
            old(self).wf(),
            table_admits_all(old(self).table()),
            pattern.admits_all(),
        ensures
            final(self).wf(),
            table_admits_all(final(self).table()),
            final(self).chain() == old(self).chain(),
            final(self).cursor() == old(self).cursor(),
            final(self).processed() == old(self).processed(),
            final(self).window() == old(self).window(),
            final(self).hooks() == old(self).hooks(),
            final(self).ctx() == old(self).ctx(),
            pattern.well_formed() ==> r == Ok::<(), MatcherError>(()) && table_after(
                old(self).table(),
                ExtractorAction::AddPattern(name, pattern),
            ) == Ok::<Seq<(String, Pattern<T, Context>)>, MatcherError>(final(self).table()),
            !pattern.well_formed() ==> r == Err::<(), MatcherError>(MatcherError::InvalidPattern(name))
                && final(self).table() == old(self).table(),
    {
        let mut i: usize = 0;
        while i < pattern.elements.len()
            invariant
                *self == *old(self),
                self.wf(),
                table_admits_all(self.table()),
                pattern.admits_all(),
                i <= pattern.elements@.len(),
                forall|j: int| 0 <= j < i ==> #[trigger] pattern.elements@[j].well_formed(),
            decreases pattern.elements@.len() - i,
        {
            if !pattern.elements[i].bounds_consistent() {
                return Err(MatcherError::InvalidPattern(name));
            }
            i = i + 1;
        }
        self.insert_named(name, pattern);
        Ok(())
    }

    /// Removes the table entry called `name` and returns its pattern.
    pub fn remove_pattern(&mut self, name: &str) -> (r: Option<Pattern<T, Context>>)
        requires
            old(self).wf(),
            table_admits_all(old(self).table()),
        ensures
            final(self).wf(),
            table_admits_all(final(self).table()),
            match name_index(old(self).table(), name@) {
                Some(i) => r == Some(old(self).table()[i].1) && final(self).table() == old(self).table().remove(i),
                None => r is None && final(self).table() == old(self).table(),
            },
            final(self).chain() == old(self).chain(),
            final(self).cursor() == old(self).cursor(),
            final(self).processed() == old(self).processed(),
            final(self).window() == old(self).window(),
            final(self).hooks() == old(self).hooks(),
            final(self).ctx() == old(self).ctx(),
    {
        let key = name.to_owned();
        self.remove_named(&key)
    }

    /// Number of patterns in the table.
    pub fn named_pattern_count(&self) -> (r: usize)
        ensures
            r == self.table().len(),
    {
        self.table.len()
    }
}

impl<T, Context> Default for Matcher<T, Context> {
    /// An empty matcher with window size 10.
    fn default() -> (m: Self)
        ensures
            m.wf(),
            m.chain().len() == 0,
            m.cursor() == 0,
            m.processed() == 0,
            m.window() == 10,
            m.hooks().len() == 0,
            m.ctx() is None,
            m.table().len() == 0,
    {
        Self::new(10)
    }
}

} // verus!
