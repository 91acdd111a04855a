//! Turns raw user input into a normalized 6-byte ASCII candidate: rejects empty input, trims
//! surrounding whitespace, checks the character count, rejects non-ASCII characters and folds
//! ASCII case. Interior characters are left for validation.

use super::error::CfiError;
use crate::text::{spec_trimmed_upper, trimmed_upper, Rejection};
use vstd::prelude::*;

verus! {

/// The outcome of normalizing the characters `s` of an input.
pub open spec fn spec_normalize(s: Seq<char>) -> Result<Seq<u8>, CfiError> {
    match spec_trimmed_upper(s, 6) {
        Ok(b) => Ok(b),
        Err(Rejection::Empty) => Err(CfiError::Empty),
        Err(Rejection::Length { found }) => Err(CfiError::InvalidLength { found }),
        Err(Rejection::NonAscii { character, index }) => Err(
            CfiError::InvalidCharacter { character, position: (index + 1) as u8 },
        ),
    }
}

/// Normalizes `input` into a 6-byte ASCII array.
pub fn normalize(input: &str) -> (r: Result<[u8; 6], CfiError>)
    ensures
        match r {
            Ok(b) => spec_normalize(input@) == Ok::<Seq<u8>, CfiError>(b@),
            Err(e) => spec_normalize(input@) == Err::<Seq<u8>, CfiError>(e),
        },
{
    match trimmed_upper(input, 6) {
        Ok(v) => {
            let buf: [u8; 6] = [v[0], v[1], v[2], v[3], v[4], v[5]];
            assert(buf@ =~= v@);
            Ok(buf)
        },
        Err(Rejection::Empty) => Err(CfiError::Empty),
        Err(Rejection::Length { found }) => Err(CfiError::InvalidLength { found }),
        Err(Rejection::NonAscii { character, index }) => Err(
            CfiError::InvalidCharacter { character, position: (index + 1) as u8 },
        ),
    }
}

} // verus!
