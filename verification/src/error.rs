//! Parse failures. Every parser reports failure synchronously to its
//! caller, carrying the raw input that was rejected; nothing is
//! recovered or defaulted inside the library.

use vstd::prelude::*;

verus! {

/// Why one raw query value failed to parse. Each variant carries the
/// rejected raw text so the caller can report it.
#[derive(Debug, Clone, PartialEq, Eq)]
pub enum ParseError {
    /// An identifier field was supplied but is empty.
    EmptyIdentifier(String),
    /// A time field is neither a decimal number nor an
    /// integer-`%3A`-integer pair.
    InvalidTime(String),
    /// A runway-length field is shorter than four characters or does
    /// not begin with a recognized operator token.
    MalformedComparison(String),
    /// A runway-length field's numeric suffix is not a valid
    /// non-negative integer.
    InvalidLength(String),
}

impl ParseError {
    /// The raw input that was rejected.
    pub open spec fn raw(&self) -> Seq<char> {
        match self {
            ParseError::EmptyIdentifier(s) => s@,
            ParseError::InvalidTime(s) => s@,
            ParseError::MalformedComparison(s) => s@,
            ParseError::InvalidLength(s) => s@,
        }
    }

    /// Read the raw input that was rejected.
    pub fn raw_text(&self) -> (r: &str)
        ensures
            r@ == self.raw(),
    {
        match self {
            ParseError::EmptyIdentifier(s) => s.as_str(),
            ParseError::InvalidTime(s) => s.as_str(),
            ParseError::MalformedComparison(s) => s.as_str(),
            ParseError::InvalidLength(s) => s.as_str(),
        }
    }
}

} // verus!
