//! Why an ISIN candidate is rejected, and the human-readable rendering of each reason.

use crate::text::{char_string, decimal, decimal_string};
use vstd::prelude::*;

verus! {

/// The class of characters permitted at a given position of an ISIN.
#[derive(Debug, Clone, Copy, PartialEq, Eq, Hash, Structural)]
pub enum CharacterClass {
    /// An ASCII digit, `'0'..='9'` (the check digit at position 12).
    Digit,
    /// An uppercase ASCII letter, `'A'..='Z'` (the two-character country code).
    Letter,
    /// An ASCII digit or an uppercase ASCII letter (the NSIN body).
    Alphanumeric,
}

/// The text that describes a character class.
pub open spec fn class_text(c: CharacterClass) -> Seq<char> {
    match c {
        CharacterClass::Digit => "a digit (0-9)"@,
        CharacterClass::Letter => "an uppercase letter (A-Z)"@,
        CharacterClass::Alphanumeric => "a digit (0-9) or an uppercase letter (A-Z)"@,
    }
}

impl CharacterClass {
    /// The text that describes this class, e.g. `"a digit (0-9)"`.
    pub fn to_string(&self) -> (s: String)
        ensures
            s@ == class_text(*self),
    {
        match self {
            CharacterClass::Digit => String::from_str("a digit (0-9)"),
            CharacterClass::Letter => String::from_str("an uppercase letter (A-Z)"),
            CharacterClass::Alphanumeric => String::from_str(
                "a digit (0-9) or an uppercase letter (A-Z)",
            ),
        }
    }
}

/// The set of reasons an ISIN string can fail validation; each variant is one rule.
#[non_exhaustive]
#[derive(Debug, Clone, PartialEq, Eq, Structural)]
pub enum IsinError {
    /// The input was an empty string.
    Empty,
    /// After trimming surrounding whitespace, the input did not contain exactly 12 characters.
    InvalidLength {
        /// The number of characters found after trimming.
        found: usize,
    },
    /// A character outside the allowed set was found at a given position.
    InvalidCharacter {
        /// The offending character, as it appears in the input (before case folding).
        character: char,
        /// 1-indexed position within the 12 characters.
        position: u8,
        /// The character class that was expected at this position.
        expected: CharacterClass,
    },
    /// The Luhn check digit (position 12) did not match the value computed from the first 11
    /// characters.
    InvalidCheckDigit {
        /// The check digit computed by the ISO 6166 Luhn algorithm.
        expected: u8,
        /// The check digit actually present in the input.
        found: u8,
    },
}

/// The human-readable message of an error.
pub open spec fn error_text(e: IsinError) -> Seq<char> {
    match e {
        IsinError::Empty => "ISIN input is empty"@,
        IsinError::InvalidLength { found } => "ISIN must contain exactly 12 characters, found "@
            + decimal(found as nat),
        IsinError::InvalidCharacter { character, position, expected } => "invalid character '"@
            + seq![character] + "' at position "@ + decimal(position as nat)
            + " of 12: expected "@ + class_text(expected),
        IsinError::InvalidCheckDigit { expected, found } =>
            "invalid check digit at position 12 of 12: expected "@ + decimal(expected as nat)
                + ", found "@ + decimal(found as nat),
    }
}

impl IsinError {
    /// The human-readable message, e.g. `"ISIN input is empty"`.
    pub fn to_string(&self) -> (s: String)
        ensures
            s@ == error_text(*self),
    {
        match self {
            IsinError::Empty => String::from_str("ISIN input is empty"),
            IsinError::InvalidLength { found } => {
                let mut s = String::from_str("ISIN must contain exactly 12 characters, found ");
                s.append(decimal_string(*found as u64).as_str());
                s
            },
            IsinError::InvalidCharacter { character, position, expected } => {
                let mut s = String::from_str("invalid character '");
                s.append(char_string(*character).as_str());
                s.append("' at position ");
                s.append(decimal_string(*position as u64).as_str());
                s.append(" of 12: expected ");
                s.append(expected.to_string().as_str());
                s
            },
            IsinError::InvalidCheckDigit { expected, found } => {
                let mut s = String::from_str("invalid check digit at position 12 of 12: expected ");
                s.append(decimal_string(*expected as u64).as_str());
                s.append(", found ");
                s.append(decimal_string(*found as u64).as_str());
                s
            },
        }
    }
}

} // verus!
