use vstd::prelude::*;

verus! {

/// Identifier under which an extractor is registered.
pub type ExtractorId = u32;

/// Outcome of testing a pattern element against an item.
#[derive(Debug, Clone, Copy, PartialEq, Eq, Structural)]
pub enum MatchResult {
    /// The element matched the item.
    Match,
    /// The element did not match the item.
    NoMatch,
    /// Testing the element failed.
    Error,
}

/// Snapshot handed to an extractor when it is called.
#[derive(Debug, Clone)]
pub struct MatchState<T> {
    /// The item that has just been matched.
    pub current_item: T,
    /// The cursor when the extractor was called: the element index in the chain
    /// (incremental mode) or the input position where the pattern started (batch mode).
    pub position: usize,
    /// Number of items processed so far.
    pub total_processed: usize,
    /// Items matched so far by the current element or pattern (batch mode;
    /// empty in chain mode).
    pub matched_items: Vec<T>,
    /// Index of the element within its pattern.
    pub element_index: usize,
    /// Name of the pattern being matched (batch mode).
    pub pattern_name: Option<String>,
    /// Length of the input (batch mode).
    pub input_length: Option<usize>,
}

/// Failure reported by an extractor.
#[derive(Debug, Clone, PartialEq)]
pub enum ExtractorError {
    /// The extractor could not process the state it was given.
    ProcessingFailed(String),
    /// The extractor is configured wrongly.
    InvalidConfiguration(String),
}

impl ExtractorError {
    /// The message the error carries.
    pub fn message(&self) -> (r: String)
        ensures
            match self {
                ExtractorError::ProcessingFailed(m) => r@ == m@,
                ExtractorError::InvalidConfiguration(m) => r@ == m@,
            },
    {
        match self {
            ExtractorError::ProcessingFailed(m) => m.clone(),
            ExtractorError::InvalidConfiguration(m) => m.clone(),
        }
    }
}

/// Errors of the matcher.
#[derive(Debug, Clone, PartialEq)]
pub enum MatcherError {
    /// The operation needs at least one pattern.
    NoPatterns,
    /// A pattern is structurally invalid.
    InvalidPattern(String),
    /// An extractor returned an error.
    ExtractorFailed(ExtractorError),
    /// A skip, jump or restart target lies beyond the end of the input.
    InvalidPosition(usize),
    /// A pattern to remove is not in the pattern table.
    PatternNotFound(String),
}

} // verus!
