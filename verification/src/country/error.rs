//! Why a country-code candidate is rejected, and the human-readable rendering of each reason.

use crate::text::{char_string, decimal, decimal_string};
use vstd::prelude::*;

verus! {

/// The set of reasons a country code string can fail validation; each variant is one rule.
#[non_exhaustive]
#[derive(Debug, Clone, Eq)]
pub enum CountryCodeError {
    /// The input was an empty string.
    Empty,
    /// After trimming surrounding whitespace, the input did not contain exactly two characters.
    InvalidLength {
        /// The number of characters found after trimming.
        found: usize,
    },
    /// A character outside `A` to `Z` was found at a given position.
    InvalidCharacter {
        /// The offending character, as it appears in the input (before case folding).
        character: char,
        /// The 1-indexed position within the two characters.
        position: u8,
    },
    /// The two letters are well formed but are not a code that ISO 3166-1 officially assigns.
    Unassigned {
        /// The offending code, as two uppercase letters.
        code: [char; 2],
    },
}

impl PartialEq for CountryCodeError {
    fn eq(&self, other: &Self) -> (r: bool) {
        match (self, other) {
            (CountryCodeError::Empty, CountryCodeError::Empty) => true,
            (
                CountryCodeError::InvalidLength { found: a },
                CountryCodeError::InvalidLength { found: b },
            ) => *a == *b,
            (
                CountryCodeError::InvalidCharacter { character: c1, position: p1 },
                CountryCodeError::InvalidCharacter { character: c2, position: p2 },
            ) => *c1 == *c2 && *p1 == *p2,
            (CountryCodeError::Unassigned { code: a }, CountryCodeError::Unassigned { code: b }) => {
                proof {
                    broadcast use vstd::array::axiom_array_ext_equal;

                    if a[0] == b[0] && a[1] == b[1] {
                        assert(*a =~= *b);
                    }
                }
                a[0] == b[0] && a[1] == b[1]
            },
            _ => false,
        }
    }
}

impl vstd::std_specs::cmp::PartialEqSpecImpl for CountryCodeError {
    open spec fn obeys_eq_spec() -> bool {
        true
    }

    open spec fn eq_spec(&self, other: &Self) -> bool {
        *self == *other
    }
}

/// The human-readable message of an error.
pub open spec fn error_text(e: CountryCodeError) -> Seq<char> {
    match e {
        CountryCodeError::Empty => "country code input is empty"@,
        CountryCodeError::InvalidLength { found } =>
            "country code must contain exactly 2 characters, found "@ + decimal(found as nat),
        CountryCodeError::InvalidCharacter { character, position } => "invalid character '"@
            + seq![character] + "' at position "@ + decimal(position as nat)
            + " of 2: expected an uppercase letter (A to Z)"@,
        CountryCodeError::Unassigned { code } => "'"@ + seq![code[0], code[1]]
            + "' is not an officially assigned ISO 3166-1 alpha-2 code"@,
    }
}

impl CountryCodeError {
    /// The human-readable message, e.g. `"country code input is empty"`.
    pub fn to_string(&self) -> (s: String)
        ensures
            s@ == error_text(*self),
    {
        match self {
            CountryCodeError::Empty => String::from_str("country code input is empty"),
            CountryCodeError::InvalidLength { found } => {
                let mut s = String::from_str(
                    "country code must contain exactly 2 characters, found ",
                );
                s.append(decimal_string(*found as u64).as_str());
                s
            },
            CountryCodeError::InvalidCharacter { character, position } => {
                let mut s = String::from_str("invalid character '");
                s.append(char_string(*character).as_str());
                s.append("' at position ");
                s.append(decimal_string(*position as u64).as_str());
                s.append(" of 2: expected an uppercase letter (A to Z)");
                s
            },
            CountryCodeError::Unassigned { code } => {
                let mut s = String::from_str("'");
                s.append(char_string(code[0]).as_str());
                s.append(char_string(code[1]).as_str());
                s.append("' is not an officially assigned ISO 3166-1 alpha-2 code");
                proof {
                    assert(seq![code[0]] + seq![code[1]] =~= seq![code[0], code[1]]);
                }
                s
            },
        }
    }
}

} // verus!
