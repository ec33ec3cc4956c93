//! The index parser: turns a pure-digit block index into a bounded unsigned
//! integer.

use crate::text::{all_digits, check_all_digits, decimal_value_capped, digits_value, to_chars};
use vstd::prelude::*;
use vstd::string::StringExecFns;

verus! {

/// The running number of one subtitle block. In a well-formed file the
/// indices increase by one from block to block, top to bottom; this layer
/// does not enforce that cross-block rule, only the bounds of a single
/// index.
#[derive(Debug, Clone, PartialEq, Eq, Structural)]
pub struct SrtIndex(pub u32);

/// Everything that can be wrong with an index line: an empty line, a
/// non-digit character, or a value over the field's storage bound.
#[derive(Debug, Clone, PartialEq, Eq, Structural)]
pub enum SrtIndexError {
    EmptyIndex,
    IllegalCharacters,
    ExceedsMaxSize,
}

/// The grammar of an index line, written as a classification.
pub enum IndexClass {
    Empty,
    Illegal,
    TooBig,
    Valid,
}

pub open spec fn index_class(t: Seq<char>) -> IndexClass {
    if t.len() == 0 {
        IndexClass::Empty
    } else if !all_digits(t) {
        IndexClass::Illegal
    } else if digits_value(t) > 0xffff_ffff {
        IndexClass::TooBig
    } else {
        IndexClass::Valid
    }
}

/// The index a valid line denotes.
pub open spec fn index_value(t: Seq<char>) -> SrtIndex {
    SrtIndex(digits_value(t) as u32)
}

/// What the parser returns on input `t`.
pub open spec fn index_result_matches(r: Result<SrtIndex, SrtIndexError>, t: Seq<char>) -> bool {
    match index_class(t) {
        IndexClass::Valid => r == Result::<SrtIndex, SrtIndexError>::Ok(index_value(t)),
        IndexClass::Empty => r == Result::<SrtIndex, SrtIndexError>::Err(SrtIndexError::EmptyIndex),
        IndexClass::Illegal => r == Result::<SrtIndex, SrtIndexError>::Err(
            SrtIndexError::IllegalCharacters,
        ),
        IndexClass::TooBig => r == Result::<SrtIndex, SrtIndexError>::Err(
            SrtIndexError::ExceedsMaxSize,
        ),
    }
}

impl SrtIndexError {
    /// A human-readable description of the error.
    pub fn message(&self) -> (r: String)
        ensures
            r@ == match *self {
                SrtIndexError::EmptyIndex => "Index string is empty"@,
                SrtIndexError::IllegalCharacters => "Index contains disallowed characters; allowed characters are 0123456789"@,
                SrtIndexError::ExceedsMaxSize => "Index value exceeds maximum unsigned 32-bit value of 4294967295"@,
            },
    {
        match self {
            SrtIndexError::EmptyIndex => String::from_str("Index string is empty"),
            SrtIndexError::IllegalCharacters => String::from_str(
                "Index contains disallowed characters; allowed characters are 0123456789",
            ),
            SrtIndexError::ExceedsMaxSize => String::from_str(
                "Index value exceeds maximum unsigned 32-bit value of 4294967295",
            ),
        }
    }
}

impl SrtIndex {
    /// Parses a pure-digit index line into a bounded unsigned integer.
    pub fn parse(s: &str) -> (r: Result<SrtIndex, SrtIndexError>)
        ensures
            index_result_matches(r, s@),
    {
        let v = to_chars(s);
        if v.len() == 0 {
            return Err(SrtIndexError::EmptyIndex);
        }
        if !check_all_digits(&v) {
            return Err(SrtIndexError::IllegalCharacters);
        }
        match decimal_value_capped(&v, 0xffff_ffff) {
            Some(x) => Ok(SrtIndex(x as u32)),
            None => Err(SrtIndexError::ExceedsMaxSize),
        }
    }
}

impl core::str::FromStr for SrtIndex {
    type Err = SrtIndexError;

    fn from_str(s: &str) -> Result<SrtIndex, SrtIndexError> {
        SrtIndex::parse(s)
    }
}

} // verus!
