//! Turns raw user input into a normalized 20-byte ASCII candidate: rejects empty input, trims
//! surrounding whitespace, checks the character count, rejects non-ASCII characters and folds
//! ASCII case. Interior characters are left for validation.

use super::error::{CharacterClass, LeiError};
use crate::text::{spec_trimmed_upper, trimmed_upper, Rejection};
use super::validation::{class_at, expected_class};
use vstd::prelude::*;

verus! {

/// The outcome of normalizing the characters `s` of an input.
pub open spec fn spec_normalize(s: Seq<char>) -> Result<Seq<u8>, LeiError> {
    match spec_trimmed_upper(s, 20) {
        Ok(b) => Ok(b),
        Err(Rejection::Empty) => Err(LeiError::Empty),
        Err(Rejection::Length { found }) => Err(LeiError::InvalidLength { found }),
        Err(Rejection::NonAscii { character, index }) => Err(
            LeiError::InvalidCharacter {
                character,
                position: (index + 1) as u8,
                expected: class_at(index as int),
            },
        ),
    }
}

/// Normalizes `input` into a 20-byte ASCII array.
pub fn normalize(input: &str) -> (r: Result<[u8; 20], LeiError>)
    ensures
        match r {
            Ok(b) => spec_normalize(input@) == Ok::<Seq<u8>, LeiError>(b@),
            Err(e) => spec_normalize(input@) == Err::<Seq<u8>, LeiError>(e),
        },
{
    match trimmed_upper(input, 20) {
        Ok(v) => {
            let buf: [u8; 20] = [
                v[0], v[1], v[2], v[3], v[4], v[5], v[6], v[7], v[8], v[9], v[10], v[11], v[12],
                v[13], v[14], v[15], v[16], v[17], v[18], v[19],
            ];
            assert(buf@ =~= v@);
            Ok(buf)
        },
        Err(Rejection::Empty) => Err(LeiError::Empty),
        Err(Rejection::Length { found }) => Err(LeiError::InvalidLength { found }),
        Err(Rejection::NonAscii { character, index }) => Err(
            LeiError::InvalidCharacter {
                character,
                position: (index + 1) as u8,
                expected: expected_class(index),
            },
        ),
    }
}

} // verus!
