//! Ordered pattern matching over sequences of arbitrary items.
//!
//! A [`Matcher`] holds a chain of pattern elements that is matched one item at a
//! time ([`Matcher::process_item`]) and a table of named patterns that is matched
//! over a whole slice ([`Matcher::run`]). Extractors registered under an id are
//! called when elements or patterns match and steer the matching through the
//! action they return.
//!
//! The contracts are stated over the spec functions of [`element`] and
//! [`matcher`]; [`laws`] proves properties that relate them.

pub mod element;
pub mod hooks;
pub mod laws;
pub mod matcher;
pub mod types;

pub use element::{ElementSettings, Pattern, PatternElement, PatternSettings};
pub use hooks::{Extractor, ExtractorAction, ItemPredicate};
pub use matcher::{next_position, ExtractorEntry, Matcher};
pub use types::{ExtractorError, ExtractorId, MatchResult, MatchState, MatcherError};
