//! Structural and checksum validation of a normalized 14-byte CNPJ candidate.
//!
//! The first 12 positions (root and branch/order) hold digits or uppercase letters, the last two
//! hold digits. Each character contributes its ASCII code minus `'0'` to the Modulo 11 checksum
//! (`'A'` = 17, ..., `'Z'` = 42), so a purely numeric CNPJ keeps the checksum it always had.

use super::error::{CharacterClass, CnpjError};
use crate::text::{first_failure, is_alphanumeric, is_digit, lemma_first_failure};
use vstd::prelude::*;

verus! {

/// Weights applied left to right to the 12 base characters for the first verification digit.
pub const WEIGHTS_DV1: [u32; 12] = [5, 4, 3, 2, 9, 8, 7, 6, 5, 4, 3, 2];

/// Weights applied left to right to the 12 base characters plus the first verification digit
/// for the second verification digit.
pub const WEIGHTS_DV2: [u32; 13] = [6, 5, 4, 3, 2, 9, 8, 7, 6, 5, 4, 3, 2];

/// The number of positions occupied by the root and the branch/order segment.
pub const BASE_LEN: usize = 12;

/// The class of characters allowed at 0-based position `i`.
pub open spec fn class_at(i: int) -> CharacterClass {
    if i < 12 {
        CharacterClass::Alphanumeric
    } else {
        CharacterClass::Digit
    }
}

/// The class of characters allowed at 0-based position `i`.
pub fn expected_class(i: usize) -> (c: CharacterClass)
    ensures
        c == class_at(i as int),
{
    if i < 12 {
        CharacterClass::Alphanumeric
    } else {
        CharacterClass::Digit
    }
}

pub open spec fn class_allows(c: CharacterClass, b: u8) -> bool {
    match c {
        CharacterClass::Digit => is_digit(b),
        CharacterClass::Alphanumeric => is_alphanumeric(b),
    }
}

/// The first 0-based position whose byte is not of the class allowed there (14 if none).
pub open spec fn first_bad_position(b: Seq<u8>) -> int {
    first_failure(14, |i: int| class_allows(class_at(i), b[i]))
}

/// All 14 characters are the same.
pub open spec fn all_repeated(b: Seq<u8>) -> bool {
    forall|i: int| 0 <= i < b.len() ==> #[trigger] b[i] == b[0]
}

/// The Modulo 11 value of a character: its ASCII code minus `'0'`.
pub open spec fn char_value(b: u8) -> u32 {
    (b - 48) as u32
}

/// The Modulo 11 values of a sequence of characters.
pub open spec fn values_of(b: Seq<u8>) -> Seq<u32> {
    Seq::new(b.len(), |i: int| char_value(b[i]))
}

/// The weighted sum `sum(values[i] * weights[i])`.
pub open spec fn weighted_sum(values: Seq<u32>, weights: Seq<u32>) -> int
    decreases values.len(),
{
    if values.len() == 0 {
        0
    } else {
        weighted_sum(values.drop_last(), weights.drop_last()) + values.last() * weights.last()
    }
}

/// The Modulo 11 digit of a weighted sum: 0 when the remainder is 0 or 1, else 11 - remainder.
pub open spec fn mod11_digit(sum: int) -> int {
    if sum % 11 < 2 {
        0
    } else {
        11 - sum % 11
    }
}

/// The first verification digit of a 12-character base.
pub open spec fn dv1_of(base: Seq<u8>) -> int {
    mod11_digit(weighted_sum(values_of(base), WEIGHTS_DV1@))
}

/// The second verification digit of a 12-character base (whose first digit is `dv1_of`).
pub open spec fn dv2_of(base: Seq<u8>) -> int {
    mod11_digit(weighted_sum(values_of(base).push(dv1_of(base) as u32), WEIGHTS_DV2@))
}

/// The outcome of the checksum step on 14 characters of the right classes: the first
/// verification digit that differs from the one Modulo 11 computes from what precedes it, else
/// success.
pub open spec fn spec_check_digits(b: Seq<u8>) -> Result<(), CnpjError> {
    if dv1_of(b.take(12)) != b[12] - 48 {
        Err(
            CnpjError::InvalidCheckDigits {
                position: 13,
                expected: dv1_of(b.take(12)) as u8,
                found: (b[12] - 48) as u8,
            },
        )
    } else if dv2_of(b.take(12)) != b[13] - 48 {
        Err(
            CnpjError::InvalidCheckDigits {
                position: 14,
                expected: dv2_of(b.take(12)) as u8,
                found: (b[13] - 48) as u8,
            },
        )
    } else {
        Ok(())
    }
}

/// The outcome of validating a 14-byte candidate: the first position holding a character of the
/// wrong class, else a single repeated character, else the first mismatching verification digit,
/// else success.
pub open spec fn spec_validate(b: Seq<u8>) -> Result<(), CnpjError> {
    let k = first_bad_position(b);
    if k < 14 {
        Err(
            CnpjError::InvalidCharacter {
                character: b[k] as char,
                position: (k + 1) as u8,
                expected: class_at(k),
            },
        )
    } else if all_repeated(b) {
        Err(CnpjError::RepeatedDigits)
    } else {
        spec_check_digits(b)
    }
}

/// The 14 bytes of a valid CNPJ.
pub open spec fn is_valid_cnpj(b: Seq<u8>) -> bool {
    b.len() == 14 && spec_validate(b) == Ok::<(), CnpjError>(())
}

/// Every position of a valid CNPJ holds a character of the class allowed there.
pub proof fn lemma_valid_cnpj_classes(b: Seq<u8>)
    requires
        is_valid_cnpj(b),
    ensures
        forall|j: int| 0 <= j < 14 ==> class_allows(class_at(j), #[trigger] b[j]),
        forall|j: int| 0 <= j < 14 ==> #[trigger] is_alphanumeric(b[j]),
        is_digit(b[12]),
        is_digit(b[13]),
{
    assert forall|j: int| 0 <= j < 14 implies class_allows(class_at(j), #[trigger] b[j]) by {
        crate::text::lemma_first_failure_bound(14, |j: int| class_allows(class_at(j), b[j]), j);
    }
    assert(class_allows(class_at(12), b[12]));
    assert(class_allows(class_at(13), b[13]));
}

/// Runs every rule against a normalized candidate, in order: character class per position, the
/// repeated-character rule, then both Modulo 11 verification digits.
pub fn validate(candidate: &[u8; 14]) -> (r: Result<(), CnpjError>)
    ensures
        r == spec_validate(candidate@),
{
    validate_character_classes(candidate)?;
    validate_not_repeated(candidate)?;
    validate_check_digits(candidate)
}

fn validate_character_classes(candidate: &[u8; 14]) -> (r: Result<(), CnpjError>)
    ensures
        first_bad_position(candidate@) < 14 ==> r == spec_validate(candidate@),
        first_bad_position(candidate@) >= 14 <==> r is Ok,
{
    let mut i: usize = 0;
    while i < 14
        invariant
            i <= 14,
            forall|j: int| 0 <= j < i ==> class_allows(class_at(j), #[trigger] candidate@[j]),
        decreases 14 - i,
    {
        let byte = candidate[i];
        let is_digit = 48 <= byte && byte <= 57;
        let is_valid = if i < BASE_LEN {
            is_digit || (65 <= byte && byte <= 90)
        } else {
            is_digit
        };
        if !is_valid {
            let expected = if i < BASE_LEN {
                CharacterClass::Alphanumeric
            } else {
                CharacterClass::Digit
            };
            proof {
                lemma_first_failure(
                    14,
                    |j: int| class_allows(class_at(j), candidate@[j]),
                    i as int,
                );
            }
            return Err(
                CnpjError::InvalidCharacter {
                    character: byte as char,
                    position: (i + 1) as u8,
                    expected,
                },
            );
        }
        i = i + 1;
    }
    proof {
        lemma_first_failure(14, |j: int| class_allows(class_at(j), candidate@[j]), 14);
    }
    Ok(())
}

fn validate_not_repeated(candidate: &[u8; 14]) -> (r: Result<(), CnpjError>)
    ensures
        r is Err <==> all_repeated(candidate@),
        r is Err ==> r == Err::<(), CnpjError>(CnpjError::RepeatedDigits),
{
    let mut i: usize = 1;
    while i < 14
        invariant
            1 <= i <= 14,
            forall|j: int| 0 <= j < i ==> #[trigger] candidate@[j] == candidate@[0],
        decreases 14 - i,
    {
        if candidate[i] != candidate[0] {
            return Ok(());
        }
        i = i + 1;
    }
    Err(CnpjError::RepeatedDigits)
}

proof fn lemma_values_bounded(b: Seq<u8>)
    requires
        forall|j: int| 0 <= j < b.len() ==> #[trigger] is_alphanumeric(b[j]),
    ensures
        forall|j: int| 0 <= j < b.len() ==> #[trigger] values_of(b)[j] <= 42,
{
    assert forall|j: int| 0 <= j < b.len() implies #[trigger] values_of(b)[j] <= 42 by {
        assert(is_alphanumeric(b[j]));
    }
}

/// The checksum step on a candidate whose characters are all of the right class.
pub fn validate_check_digits(candidate: &[u8; 14]) -> (r: Result<(), CnpjError>)
    requires
        first_bad_position(candidate@) >= 14,
    ensures
        r == spec_check_digits(candidate@),
{
    proof {
        assert forall|j: int| 0 <= j < 14 implies class_allows(
            class_at(j),
            #[trigger] candidate@[j],
        ) by {
            crate::text::lemma_first_failure_bound(
                14,
                |j: int| class_allows(class_at(j), candidate@[j]),
                j,
            );
        }
        assert(class_allows(class_at(12), candidate@[12]));
        assert(class_allows(class_at(13), candidate@[13]));
    }
    let base: [u8; 12] = [
        candidate[0],
        candidate[1],
        candidate[2],
        candidate[3],
        candidate[4],
        candidate[5],
        candidate[6],
        candidate[7],
        candidate[8],
        candidate[9],
        candidate[10],
        candidate[11],
    ];
    assert(base@ =~= candidate@.take(12));
    let (dv1, dv2) = compute_valid_check_digits(&base);
    let found_dv1 = candidate[12] - 48;
    if dv1 != found_dv1 {
        return Err(CnpjError::InvalidCheckDigits { position: 13, expected: dv1, found: found_dv1 });
    }
    let found_dv2 = candidate[13] - 48;
    if dv2 != found_dv2 {
        return Err(CnpjError::InvalidCheckDigits { position: 14, expected: dv2, found: found_dv2 });
    }
    Ok(())
}

fn values(bytes: &[u8]) -> (v: Vec<u32>)
    requires
        forall|j: int| 0 <= j < bytes@.len() ==> #[trigger] is_alphanumeric(bytes@[j]),
    ensures
        v@ == values_of(bytes@),
{
    let mut v: Vec<u32> = Vec::new();
    let mut i: usize = 0;
    while i < bytes.len()
        invariant
            i <= bytes@.len(),
            forall|j: int| 0 <= j < bytes@.len() ==> #[trigger] is_alphanumeric(bytes@[j]),
            v@ == values_of(bytes@.take(i as int)),
        decreases bytes@.len() - i,
    {
        assert(is_alphanumeric(bytes@[i as int]));
        v.push((bytes[i] - 48) as u32);
        i = i + 1;
        assert(v@ =~= values_of(bytes@.take(i as int)));
    }
    assert(bytes@.take(i as int) =~= bytes@);
    v
}

/// The two verification digits of a well-formed 12-character base.
pub fn compute_valid_check_digits(base: &[u8; 12]) -> (dvs: (u8, u8))
    requires
        forall|j: int| 0 <= j < 12 ==> #[trigger] is_alphanumeric(base@[j]),
    ensures
        dvs.0 == dv1_of(base@),
        dvs.1 == dv2_of(base@),
        dvs.0 <= 9,
        dvs.1 <= 9,
{
    let base_values = values(base.as_slice());
    proof {
        lemma_values_bounded(base@);
    }
    proof {
        lemma_weighted_bound(base_values@, WEIGHTS_DV1@);
    }
    let dv1 = compute_check_digit(base_values.as_slice(), WEIGHTS_DV1.as_slice());
    let mut dv2_input = base_values.clone();
    dv2_input.push(dv1 as u32);
    assert(dv2_input@ =~= values_of(base@).push(dv1 as u32));
    proof {
        assert forall|j: int| 0 <= j < 13 implies #[trigger] dv2_input@[j] <= 42 by {
            if j < 12 {
                assert(dv2_input@[j] == values_of(base@)[j]);
            }
        }
        lemma_weighted_bound(dv2_input@, WEIGHTS_DV2@);
    }
    let dv2 = compute_check_digit(dv2_input.as_slice(), WEIGHTS_DV2.as_slice());
    (dv1, dv2)
}

/// The Modulo 11 verification digit: weighted sum, remainder modulo 11, then 0 if the remainder
/// is 0 or 1, else `11 - remainder`.
pub fn compute_check_digit(values: &[u32], weights: &[u32]) -> (d: u8)
    requires
        values@.len() == weights@.len(),
        weighted_sum(values@, weights@) <= u32::MAX,
    ensures
        d == mod11_digit(weighted_sum(values@, weights@)),
        d <= 9,
{
    let mut sum: u32 = 0;
    let mut i: usize = 0;
    assert(values@.take(0) =~= Seq::<u32>::empty());
    while i < values.len()
        invariant
            i <= values@.len(),
            values@.len() == weights@.len(),
            weighted_sum(values@, weights@) <= u32::MAX,
            sum == weighted_sum(values@.take(i as int), weights@.take(i as int)),
        decreases values@.len() - i,
    {
        let v = values[i];
        let w = weights[i];
        assert(values@.take(i + 1).drop_last() =~= values@.take(i as int));
        assert(weights@.take(i + 1).drop_last() =~= weights@.take(i as int));
        proof {
            lemma_weighted_prefix(values@, weights@, i + 1);
        }
        assert(sum + v * w <= u32::MAX);
        sum = sum + v * w;
        i = i + 1;
    }
    assert(values@.take(i as int) =~= values@);
    assert(weights@.take(i as int) =~= weights@);
    let remainder = sum % 11;
    if remainder < 2 {
        0
    } else {
        (11 - remainder) as u8
    }
}

proof fn lemma_weighted_prefix(values: Seq<u32>, weights: Seq<u32>, i: int)
    requires
        values.len() == weights.len(),
        0 <= i <= values.len(),
    ensures
        0 <= weighted_sum(values.take(i), weights.take(i)) <= weighted_sum(values, weights),
    decreases values.len(),
{
    if i == values.len() {
        assert(values.take(i) =~= values);
        assert(weights.take(i) =~= weights);
        lemma_weighted_nonneg(values, weights);
    } else {
        assert(values.drop_last().take(i) =~= values.take(i));
        assert(weights.drop_last().take(i) =~= weights.take(i));
        lemma_weighted_prefix(values.drop_last(), weights.drop_last(), i);
        let v = values.last();
        let w = weights.last();
        assert(v * w >= 0) by (nonlinear_arith);
    }
}

proof fn lemma_weighted_nonneg(values: Seq<u32>, weights: Seq<u32>)
    ensures
        weighted_sum(values, weights) >= 0,
    decreases values.len(),
{
    if values.len() > 0 {
        lemma_weighted_nonneg(values.drop_last(), weights.drop_last());
        let v = values.last();
        let w = weights.last();
        assert(v * w >= 0) by (nonlinear_arith);
    }
}

proof fn lemma_weighted_bound(values: Seq<u32>, weights: Seq<u32>)
    requires
        values.len() == weights.len(),
        forall|j: int| 0 <= j < values.len() ==> #[trigger] values[j] <= 42,
        forall|j: int| 0 <= j < weights.len() ==> #[trigger] weights[j] <= 9,
    ensures
        weighted_sum(values, weights) <= 378 * values.len(),
    decreases values.len(),
{
    if values.len() > 0 {
        lemma_weighted_bound(values.drop_last(), weights.drop_last());
        let v = values.last();
        let w = weights.last();
        assert(v <= 42 && w <= 9);
        assert(v * w <= 378) by (nonlinear_arith)
            requires
                v <= 42,
                w <= 9,
        ;
    }
}

/// Adjusts a generated base so that it is not a single repeated character (the one pattern the
/// repeated-character rule rejects independently of the checksum): when every byte equals the
/// first, the first becomes `'1'` if it was `'0'`, else `'0'`.
pub fn avoid_all_repeated(base: &mut [u8; 12])
    ensures
        all_repeated(old(base)@) ==> final(base)@ == old(base)@.update(
            0,
            if old(base)@[0] == 48 {
                49u8
            } else {
                48u8
            },
        ),
        !all_repeated(old(base)@) ==> final(base)@ == old(base)@,
        !all_repeated(final(base)@),
{
    let mut i: usize = 1;
    let mut same = true;
    while i < 12
        invariant
            1 <= i <= 12,
            base@ == old(base)@,
            same == (forall|j: int| 0 <= j < i ==> #[trigger] base@[j] == base@[0]),
        decreases 12 - i,
    {
        if base[i] != base[0] {
            same = false;
        }
        i = i + 1;
    }
    if same {
        let replacement = if base[0] == 48 {
            49u8
        } else {
            48u8
        };
        base[0] = replacement;
        assert(base@[1] == old(base)@[0]);
    }
}

} // verus!
