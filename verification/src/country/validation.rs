//! Structural and membership validation of a normalized two-byte country-code candidate: both
//! positions must be uppercase ASCII letters, and the pair must be an assigned code.

use super::error::CountryCodeError;
use super::table::{assigned_bitmap, bit_index, bit_set, is_assigned_code, spec_bit_index};
use crate::text::{first_failure, is_upper, lemma_first_failure};
use vstd::prelude::*;

verus! {

/// The first 0-based position that does not hold an uppercase letter (2 if none).
pub open spec fn first_non_letter(b: Seq<u8>) -> int {
    first_failure(2, |i: int| is_upper(b[i]))
}

/// The outcome of validating a two-byte candidate: the first non-letter position, else
/// membership in the assigned set.
pub open spec fn spec_validate(b: Seq<u8>) -> Result<(), CountryCodeError> {
    let k = first_non_letter(b);
    if k < 2 {
        Err(CountryCodeError::InvalidCharacter { character: b[k] as char, position: (k + 1) as u8 })
    } else if !is_assigned_code(b[0], b[1]) {
        Err(CountryCodeError::Unassigned { code: [b[0] as char, b[1] as char] })
    } else {
        Ok(())
    }
}

/// The two bytes of a valid (assigned) country code.
pub open spec fn is_valid_country_code(b: Seq<u8>) -> bool {
    b.len() == 2 && spec_validate(b) == Ok::<(), CountryCodeError>(())
}

/// A valid country code is two assigned uppercase letters.
pub proof fn lemma_valid_country_code(b: Seq<u8>)
    requires
        is_valid_country_code(b),
    ensures
        is_upper(b[0]),
        is_upper(b[1]),
        is_assigned_code(b[0], b[1]),
{
    crate::text::lemma_first_failure_bound(2, |i: int| is_upper(b[i]), 0);
    crate::text::lemma_first_failure_bound(2, |i: int| is_upper(b[i]), 1);
}

/// Runs every rule against a normalized candidate: character class, then membership.
pub fn validate(candidate: &[u8; 2]) -> (r: Result<(), CountryCodeError>)
    ensures
        r == spec_validate(candidate@),
{
    let mut i: usize = 0;
    while i < 2
        invariant
            i <= 2,
            forall|j: int| 0 <= j < i ==> is_upper(#[trigger] candidate@[j]),
        decreases 2 - i,
    {
        let byte = candidate[i];
        if !(65 <= byte && byte <= 90) {
            proof {
                lemma_first_failure(2, |j: int| is_upper(candidate@[j]), i as int);
            }
            return Err(
                CountryCodeError::InvalidCharacter {
                    character: byte as char,
                    position: (i + 1) as u8,
                },
            );
        }
        i = i + 1;
    }
    proof {
        lemma_first_failure(2, |j: int| is_upper(candidate@[j]), 2);
    }
    if is_assigned(candidate) {
        Ok(())
    } else {
        Err(CountryCodeError::Unassigned { code: [candidate[0] as char, candidate[1] as char] })
    }
}

/// Whether two uppercase letters name an assigned code: one bit test in the membership bitmap.
fn is_assigned(candidate: &[u8; 2]) -> (r: bool)
    requires
        is_upper(candidate@[0]),
        is_upper(candidate@[1]),
    ensures
        r == is_assigned_code(candidate@[0], candidate@[1]),
{
    let bits = assigned_bitmap();
    let index = bit_index(*candidate);
    assert(bit_set(bits@, spec_bit_index(candidate@[0], candidate@[1])) == is_assigned_code(
        candidate@[0],
        candidate@[1],
    ));
    (bits[index / 64] >> ((index % 64) as u64)) & 1 == 1
}

} // verus!
