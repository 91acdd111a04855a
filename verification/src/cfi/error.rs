//! Why a CFI candidate is rejected, and the human-readable rendering of each reason.

use crate::text::{char_string, decimal, decimal_string};
use vstd::prelude::*;

verus! {

/// The set of reasons a CFI string can fail validation; each variant is one rule. Beyond the
/// structural checks there are three taxonomic failure modes: unknown category, unknown group,
/// attribute not permitted.
#[non_exhaustive]
#[derive(Debug, Clone, PartialEq, Eq, Structural)]
pub enum CfiError {
    /// The input was an empty string.
    Empty,
    /// After trimming surrounding whitespace, the input did not contain exactly 6 characters.
    InvalidLength {
        /// The number of characters found after trimming.
        found: usize,
    },
    /// A character outside `A`-`Z` was found at a given position.
    InvalidCharacter {
        /// The offending character, as it appears in the input (before case folding).
        character: char,
        /// 1-indexed position within the 6 characters.
        position: u8,
    },
    /// The category letter (position 1) is not one defined by ISO 10962.
    UnknownCategory {
        /// The offending category code.
        code: char,
    },
    /// The group letter (position 2) is not defined for the otherwise valid category.
    UnknownGroup {
        /// The (valid) category code the group was looked up under.
        category: char,
        /// The offending group code.
        code: char,
    },
    /// An attribute letter (positions 3-6) is not permitted for the category and group at that
    /// attribute position.
    InvalidAttribute {
        /// The (valid) category code.
        category: char,
        /// The (valid) group code.
        group: char,
        /// Which attribute failed, 1-4 (CFI positions 3-6).
        index: u8,
        /// The offending attribute code.
        code: char,
    },
}

/// The human-readable message of an error.
pub open spec fn error_text(e: CfiError) -> Seq<char> {
    match e {
        CfiError::Empty => "CFI input is empty"@,
        CfiError::InvalidLength { found } => "CFI must contain exactly 6 characters, found "@
            + decimal(found as nat),
        CfiError::InvalidCharacter { character, position } => "invalid character '"@ + seq![
            character,
        ] + "' at position "@ + decimal(position as nat)
            + " of 6: expected an uppercase letter (A-Z)"@,
        CfiError::UnknownCategory { code } => "unknown CFI category '"@ + seq![code]
            + "' at position 1"@,
        CfiError::UnknownGroup { category, code } => "unknown CFI group '"@ + seq![code]
            + "' at position 2 for category '"@ + seq![category] + "'"@,
        CfiError::InvalidAttribute { category, group, index, code } =>
            "invalid CFI attribute '"@ + seq![code] + "' at position "@ + decimal(
                (index + 2) as nat,
            ) + " (attribute "@ + decimal(index as nat) + ") for category '"@ + seq![category]
                + "' group '"@ + seq![group] + "'"@,
    }
}

impl CfiError {
    /// The human-readable message, e.g. `"CFI input is empty"`. (The attribute position is
    /// computed as `index + 2` in `u8`, so `index` must leave room for it.)
    pub fn to_string(&self) -> (s: String)
        requires
            self matches CfiError::InvalidAttribute { index, .. } ==> index <= 253,
        ensures
            s@ == error_text(*self),
    {
        match self {
            CfiError::Empty => String::from_str("CFI input is empty"),
            CfiError::InvalidLength { found } => {
                let mut s = String::from_str("CFI must contain exactly 6 characters, found ");
                s.append(decimal_string(*found as u64).as_str());
                s
            },
            CfiError::InvalidCharacter { character, position } => {
                let mut s = String::from_str("invalid character '");
                s.append(char_string(*character).as_str());
                s.append("' at position ");
                s.append(decimal_string(*position as u64).as_str());
                s.append(" of 6: expected an uppercase letter (A-Z)");
                s
            },
            CfiError::UnknownCategory { code } => {
                let mut s = String::from_str("unknown CFI category '");
                s.append(char_string(*code).as_str());
                s.append("' at position 1");
                s
            },
            CfiError::UnknownGroup { category, code } => {
                let mut s = String::from_str("unknown CFI group '");
                s.append(char_string(*code).as_str());
                s.append("' at position 2 for category '");
                s.append(char_string(*category).as_str());
                s.append("'");
                s
            },
            CfiError::InvalidAttribute { category, group, index, code } => {
                let mut s = String::from_str("invalid CFI attribute '");
                s.append(char_string(*code).as_str());
                s.append("' at position ");
                s.append(decimal_string((*index + 2) as u64).as_str());
                s.append(" (attribute ");
                s.append(decimal_string(*index as u64).as_str());
                s.append(") for category '");
                s.append(char_string(*category).as_str());
                s.append("' group '");
                s.append(char_string(*group).as_str());
                s.append("'");
                s
            },
        }
    }
}

} // verus!
