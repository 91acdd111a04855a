//! Why an LEI candidate is rejected, and the human-readable rendering of each reason.

use crate::text::{char_string, decimal, decimal_string, two_digit, two_digit_string};
use vstd::prelude::*;

verus! {

/// The class of characters permitted at a given position of an LEI.
#[derive(Debug, Clone, Copy, PartialEq, Eq, Hash, Structural)]
pub enum CharacterClass {
    /// An ASCII digit, `'0'..='9'` (the two check digits at positions 19-20).
    Digit,
    /// An ASCII digit or an uppercase ASCII letter (positions 1-18).
    Alphanumeric,
}

/// The text that describes a character class.
pub open spec fn class_text(c: CharacterClass) -> Seq<char> {
    match c {
        CharacterClass::Digit => "a digit (0-9)"@,
        CharacterClass::Alphanumeric => "a digit (0-9) or an uppercase letter (A-Z)"@,
    }
}

impl CharacterClass {
    /// The text that describes this class, e.g. `"a digit (0-9)"`.
    pub fn to_string(&self) -> (s: String)
        ensures
            s@ == class_text(*self),
    {
        match self {
            CharacterClass::Digit => String::from_str("a digit (0-9)"),
            CharacterClass::Alphanumeric => String::from_str(
                "a digit (0-9) or an uppercase letter (A-Z)",
            ),
        }
    }
}

/// The set of reasons an LEI string can fail validation; each variant is one rule.
#[non_exhaustive]
#[derive(Debug, Clone, PartialEq, Eq, Structural)]
pub enum LeiError {
    /// The input was an empty string.
    Empty,
    /// After trimming surrounding whitespace, the input did not contain exactly 20 characters.
    InvalidLength {
        /// The number of characters found after trimming.
        found: usize,
    },
    /// A character outside the allowed set was found at a given position.
    InvalidCharacter {
        /// The offending character, as it appears in the input (before case folding).
        character: char,
        /// 1-indexed position within the 20 characters.
        position: u8,
        /// The character class that was expected at this position.
        expected: CharacterClass,
    },
    /// The two check digits (positions 19-20) did not satisfy the ISO/IEC 7064 MOD 97-10
    /// checksum.
    InvalidCheckDigits {
        /// The check-digit value computed from the first 18 characters (`0..=99`).
        expected: u8,
        /// The check-digit value actually present in the input (`0..=99`).
        found: u8,
    },
}

/// The human-readable message of an error.
pub open spec fn error_text(e: LeiError) -> Seq<char> {
    match e {
        LeiError::Empty => "LEI input is empty"@,
        LeiError::InvalidLength { found } => "LEI must contain exactly 20 characters, found "@
            + decimal(found as nat),
        LeiError::InvalidCharacter { character, position, expected } => "invalid character '"@
            + seq![character] + "' at position "@ + decimal(position as nat)
            + " of 20: expected "@ + class_text(expected),
        LeiError::InvalidCheckDigits { expected, found } =>
            "invalid check digits at positions 19-20 of 20: expected "@ + two_digit(
                expected as nat,
            ) + ", found "@ + two_digit(found as nat),
    }
}

impl LeiError {
    /// The human-readable message, e.g. `"LEI input is empty"`.
    pub fn to_string(&self) -> (s: String)
        ensures
            s@ == error_text(*self),
    {
        match self {
            LeiError::Empty => String::from_str("LEI input is empty"),
            LeiError::InvalidLength { found } => {
                let mut s = String::from_str("LEI must contain exactly 20 characters, found ");
                s.append(decimal_string(*found as u64).as_str());
                s
            },
            LeiError::InvalidCharacter { character, position, expected } => {
                let mut s = String::from_str("invalid character '");
                s.append(char_string(*character).as_str());
                s.append("' at position ");
                s.append(decimal_string(*position as u64).as_str());
                s.append(" of 20: expected ");
                s.append(expected.to_string().as_str());
                s
            },
            LeiError::InvalidCheckDigits { expected, found } => {
                let mut s = String::from_str(
                    "invalid check digits at positions 19-20 of 20: expected ",
                );
                s.append(two_digit_string(*expected as u64).as_str());
                s.append(", found ");
                s.append(two_digit_string(*found as u64).as_str());
                s
            },
        }
    }
}

} // verus!
