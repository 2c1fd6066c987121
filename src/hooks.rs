use vstd::prelude::*;


use crate::element::Pattern;
use crate::types::{ExtractorError, MatchState};

verus! {

/// What the matcher does after an extractor has run.
///
/// The moves within the input (`Skip`, `Jump`, `RestartFrom`) and
/// `DiscardPartialMatch` and `StopMatching` concern batch scans; in chain
/// mode each of them starts the chain over.
#[verifier::reject_recursive_types(T)]
pub enum ExtractorAction<T, Context> {
    /// Go on matching as if no extractor had run.
    Continue,
    /// Stop matching for this call: `process_item` returns the value, a batch
    /// scan ends.
    Extract(T),
    /// Abandon the match in progress: the chain starts over from its first
    /// element, a batch scan resumes one position further.
    Restart,
    /// Move the scan position forward by this many items from where the pattern started.
    Skip(usize),
    /// Move the scan position by a signed offset from where the pattern started.
    Jump(isize),
    /// Move the scan position to this input index.
    RestartFrom(usize),
    /// Abandon the match in progress and resume one position further.
    DiscardPartialMatch,
    /// Add a named pattern, visible from the next scan position on.
    AddPattern(String, Pattern<T, Context>),
    /// Remove the named pattern.
    RemovePattern(String),
    /// End the scan.
    StopMatching,
}

/// A test on single items, used by predicate elements.
///
/// Every closure `Fn(&T) -> bool` is one.
pub trait ItemPredicate<T> {
    /// The items that `test` may be called on.
    spec fn admits(&self, item: T) -> bool;

    /// `r` is a possible answer of `test` on `item`.
    spec fn gives(&self, item: T, r: bool) -> bool;

    fn test(&self, item: &T) -> (r: bool)
        requires
            self.admits(*item),
        ensures
            self.gives(*item, r),
    ;
}

impl<T, F: Fn(&T) -> bool> ItemPredicate<T> for F {
    open spec fn admits(&self, item: T) -> bool {
        call_requires(*self, (&item,))
    }

    open spec fn gives(&self, item: T, r: bool) -> bool {
        call_ensures(*self, (&item,), r)
    }

    fn test(&self, item: &T) -> (r: bool) {
        self(item)
    }
}

/// A hook called when an element or a pattern matches.
///
/// Every closure `Fn(&MatchState<T>) -> Result<ExtractorAction<T, Context>, ExtractorError>`
/// is one.
pub trait Extractor<T, Context> {
    /// The states that `extract` may be called on.
    spec fn admits(&self, state: MatchState<T>) -> bool;

    /// `r` is a possible result of `extract` on `state`.
    spec fn gives(&self, state: MatchState<T>, r: Result<ExtractorAction<T, Context>, ExtractorError>) -> bool;

    fn extract(&self, state: &MatchState<T>) -> (r: Result<ExtractorAction<T, Context>, ExtractorError>)
        requires
            self.admits(*state),
        ensures
            self.gives(*state, r),
    ;
}

impl<T, Context, F> Extractor<T, Context> for F where
    F: Fn(&MatchState<T>) -> Result<ExtractorAction<T, Context>, ExtractorError>,
 {
    open spec fn admits(&self, state: MatchState<T>) -> bool {
        call_requires(*self, (&state,))
    }

    open spec fn gives(&self, state: MatchState<T>, r: Result<ExtractorAction<T, Context>, ExtractorError>) -> bool {
        call_ensures(*self, (&state,), r)
    }

    fn extract(&self, state: &MatchState<T>) -> (r: Result<ExtractorAction<T, Context>, ExtractorError>) {
        self(state)
    }
}

} // verus!
