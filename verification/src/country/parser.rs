//! Turns raw user input into a normalized two-byte ASCII candidate: rejects empty input, trims
//! surrounding whitespace, checks the character count, rejects non-ASCII characters and folds
//! ASCII case.

use super::error::CountryCodeError;
use crate::text::{spec_trimmed_upper, trimmed_upper, Rejection};
use vstd::prelude::*;

verus! {

/// The outcome of normalizing the characters `s` of an input.
pub open spec fn spec_normalize(s: Seq<char>) -> Result<Seq<u8>, CountryCodeError> {
    match spec_trimmed_upper(s, 2) {
        Ok(b) => Ok(b),
        Err(Rejection::Empty) => Err(CountryCodeError::Empty),
        Err(Rejection::Length { found }) => Err(CountryCodeError::InvalidLength { found }),
        Err(Rejection::NonAscii { character, index }) => Err(
            CountryCodeError::InvalidCharacter { character, position: (index + 1) as u8 },
        ),
    }
}

/// Normalizes `input` into a two-byte ASCII array.
pub fn normalize(input: &str) -> (r: Result<[u8; 2], CountryCodeError>)
    ensures
        match r {
            Ok(b) => spec_normalize(input@) == Ok::<Seq<u8>, CountryCodeError>(b@),
            Err(e) => spec_normalize(input@) == Err::<Seq<u8>, CountryCodeError>(e),
        },
{
    match trimmed_upper(input, 2) {
        Ok(v) => {
            let buf: [u8; 2] = [v[0], v[1]];
            assert(buf@ =~= v@);
            Ok(buf)
        },
        Err(Rejection::Empty) => Err(CountryCodeError::Empty),
        Err(Rejection::Length { found }) => Err(CountryCodeError::InvalidLength { found }),
        Err(Rejection::NonAscii { character, index }) => Err(
            CountryCodeError::InvalidCharacter { character, position: (index + 1) as u8 },
        ),
    }
}

} // verus!
