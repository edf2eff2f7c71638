//! Error kinds surfaced by parsing and decoding.

use vstd::prelude::*;

verus! {

/// Why a textual form or a code source was rejected.
///
/// Failure handling in this crate is fail-fast: an error is surfaced to the
/// caller with the field or source that caused it, and nothing is retried
/// or silently skipped.
#[derive(Debug, Clone, PartialEq, Eq)]
pub enum ParseError {
    /// A delimited portion of a textual form was absent; names the field.
    MissingField(String),
    /// A numeric field was empty, held a non-digit, or exceeded its range;
    /// names the field.
    InvalidNumber(String),
    /// A code source failed to parse; holds the parser's message.
    Syntax(String),
}

/// The usual result of parsing and decoding operations.
pub type ParseResult<T> = Result<T, ParseError>;

} // verus!
