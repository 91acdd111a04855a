//! Turns raw user input into a normalized 12-byte ASCII candidate: rejects empty input, trims
//! surrounding whitespace, checks the character count, rejects non-ASCII characters and folds
//! ASCII case. Interior characters are left for validation.

use super::error::{CharacterClass, IsinError};
use crate::text::{spec_trimmed_upper, trimmed_upper, Rejection};
use super::validation::{class_at, expected_class};
use vstd::prelude::*;

verus! {

/// The outcome of normalizing the characters `s` of an input.
pub open spec fn spec_normalize(s: Seq<char>) -> Result<Seq<u8>, IsinError> {
    match spec_trimmed_upper(s, 12) {
        Ok(b) => Ok(b),
        Err(Rejection::Empty) => Err(IsinError::Empty),
        Err(Rejection::Length { found }) => Err(IsinError::InvalidLength { found }),
        Err(Rejection::NonAscii { character, index }) => Err(
            IsinError::InvalidCharacter {
                character,
                position: (index + 1) as u8,
                expected: class_at(index as int),
            },
        ),
    }
}

/// Normalizes `input` into a 12-byte ASCII array.
pub fn normalize(input: &str) -> (r: Result<[u8; 12], IsinError>)
    ensures
        match r {
            Ok(b) => spec_normalize(input@) == Ok::<Seq<u8>, IsinError>(b@),
            Err(e) => spec_normalize(input@) == Err::<Seq<u8>, IsinError>(e),
        },
{
    match trimmed_upper(input, 12) {
        Ok(v) => {
            let buf: [u8; 12] = [v[0], v[1], v[2], v[3], v[4], v[5], v[6], v[7], v[8], v[9], v[10], v[11]];
            assert(buf@ =~= v@);
            Ok(buf)
        },
        Err(Rejection::Empty) => Err(IsinError::Empty),
        Err(Rejection::Length { found }) => Err(IsinError::InvalidLength { found }),
        Err(Rejection::NonAscii { character, index }) => Err(
            IsinError::InvalidCharacter {
                character,
                position: (index + 1) as u8,
                expected: expected_class(index),
            },
        ),
    }
}

} // verus!
