//! Why a CNPJ candidate is rejected, and the human-readable rendering of each reason.

use crate::text::{char_string, decimal, decimal_string};
use vstd::prelude::*;

verus! {

/// The class of characters permitted at a given position of a CNPJ.
#[derive(Debug, Clone, Copy, PartialEq, Eq, Hash, Structural)]
pub enum CharacterClass {
    /// An ASCII digit, `'0'..='9'` (the two verification digits at positions 13-14).
    Digit,
    /// An ASCII digit or an uppercase ASCII letter (positions 1-12: root and branch/order).
    Alphanumeric,
}

/// The text that describes a character class.
pub open spec fn class_text(c: CharacterClass) -> Seq<char> {
    match c {
        CharacterClass::Digit => "a digit (0-9)"@,
        CharacterClass::Alphanumeric => "a digit (0-9) or an uppercase letter (A-Z)"@,
    }
}

impl CharacterClass {
    /// The text that describes this class, e.g. `"a digit (0-9)"`.
    pub fn to_string(&self) -> (s: String)
        ensures
            s@ == class_text(*self),
    {
        match self {
            CharacterClass::Digit => String::from_str("a digit (0-9)"),
            CharacterClass::Alphanumeric => String::from_str(
                "a digit (0-9) or an uppercase letter (A-Z)",
            ),
        }
    }
}

/// The set of reasons a CNPJ string can fail validation; each variant is one rule, listed in the
/// order the rules apply (the repeated-character rule applies before the checksum).
#[non_exhaustive]
#[derive(Debug, Clone, PartialEq, Eq, Structural)]
pub enum CnpjError {
    /// The input was an empty string.
    Empty,
    /// After stripping punctuation (`.`, `/`, `-`, space), the input did not contain exactly 14
    /// meaningful characters.
    InvalidLength {
        /// The number of meaningful (non-punctuation) characters found.
        found: usize,
    },
    /// A character outside the allowed set was found at a given position.
    InvalidCharacter {
        /// The offending character, as it appears in the input (before case folding).
        character: char,
        /// 1-indexed position within the 14 meaningful characters.
        position: u8,
        /// The character class that was expected at this position.
        expected: CharacterClass,
    },
    /// The Modulo 11 checksum did not match one of the two verification digits.
    InvalidCheckDigits {
        /// 1-indexed position of the mismatching verification digit (13 or 14).
        position: u8,
        /// The verification digit computed by the Modulo 11 algorithm.
        expected: u8,
        /// The verification digit actually present in the input.
        found: u8,
    },
    /// All 14 characters were identical (e.g. `"00000000000000"`).
    RepeatedDigits,
}

/// The human-readable message of an error.
pub open spec fn error_text(e: CnpjError) -> Seq<char> {
    match e {
        CnpjError::Empty => "CNPJ input is empty"@,
        CnpjError::InvalidLength { found } =>
            "CNPJ must contain exactly 14 characters once formatting is removed, found "@
                + decimal(found as nat),
        CnpjError::InvalidCharacter { character, position, expected } => "invalid character '"@
            + seq![character] + "' at position "@ + decimal(position as nat)
            + " of 14: expected "@ + class_text(expected),
        CnpjError::InvalidCheckDigits { position, expected, found } =>
            "invalid check digit at position "@ + decimal(position as nat)
                + " of 14: expected "@ + decimal(expected as nat) + ", found "@ + decimal(
                found as nat,
            ),
        CnpjError::RepeatedDigits => "CNPJ cannot consist of a single character repeated 14 times"@,
    }
}

impl CnpjError {
    /// The human-readable message, e.g. `"CNPJ input is empty"`.
    pub fn to_string(&self) -> (s: String)
        ensures
            s@ == error_text(*self),
    {
        match self {
            CnpjError::Empty => String::from_str("CNPJ input is empty"),
            CnpjError::InvalidLength { found } => {
                let mut s = String::from_str(
                    "CNPJ must contain exactly 14 characters once formatting is removed, found ",
                );
                s.append(decimal_string(*found as u64).as_str());
                s
            },
            CnpjError::InvalidCharacter { character, position, expected } => {
                let mut s = String::from_str("invalid character '");
                s.append(char_string(*character).as_str());
                s.append("' at position ");
                s.append(decimal_string(*position as u64).as_str());
                s.append(" of 14: expected ");
                s.append(expected.to_string().as_str());
                s
            },
            CnpjError::InvalidCheckDigits { position, expected, found } => {
                let mut s = String::from_str("invalid check digit at position ");
                s.append(decimal_string(*position as u64).as_str());
                s.append(" of 14: expected ");
                s.append(decimal_string(*expected as u64).as_str());
                s.append(", found ");
                s.append(decimal_string(*found as u64).as_str());
                s
            },
            CnpjError::RepeatedDigits => String::from_str(
                "CNPJ cannot consist of a single character repeated 14 times",
            ),
        }
    }
}

} // verus!
