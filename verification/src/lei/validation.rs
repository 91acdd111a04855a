//! Structural and checksum validation of a normalized 20-byte LEI candidate.
//!
//! ISO 17442 specifies the two check digits with ISO/IEC 7064 MOD 97-10 (as IBAN does). Each
//! character is expanded to its numeric value (a digit contributes itself, a letter its two-digit
//! value `'A'` = 10, ..., `'Z'` = 35) and the whole string is read as one base-10 integer. The
//! check digits of an 18-character base are `98 - (n mod 97)` where `n` is the base followed by
//! `"00"`; a conforming 20-character LEI then reads as an integer congruent to 1 modulo 97.
//!
//! Only the structure and the arithmetic are checked: GLEIF's convention that positions 5-6 are
//! `"00"` is not enforced. The check-digit pairs `00`, `01` and `99` never equal a computed pair,
//! so they are rejected like any other mismatch.

use super::error::{CharacterClass, LeiError};
use crate::text::{first_failure, is_alphanumeric, is_digit, lemma_first_failure};
use vstd::arithmetic::div_mod::{lemma_add_mod_noop, lemma_mul_mod_noop_left, lemma_sub_mod_noop};
use vstd::arithmetic::mul::lemma_mul_is_associative;
use vstd::arithmetic::power::{lemma_pow0, lemma_pow1, lemma_pow_adds, pow};
use vstd::prelude::*;

verus! {

/// The number of positions before the two check digits (LOU prefix plus entity part).
pub const BASE_LEN: usize = 18;

/// The ten digits followed by the 26 letters.
pub const ALPHANUMERIC: [u8; 36] = [
    48u8, 49u8, 50u8, 51u8, 52u8, 53u8, 54u8, 55u8, 56u8, 57u8, 65u8, 66u8, 67u8, 68u8, 69u8, 70u8,
    71u8, 72u8, 73u8, 74u8, 75u8, 76u8, 77u8, 78u8, 79u8, 80u8, 81u8, 82u8, 83u8, 84u8, 85u8, 86u8,
    87u8, 88u8, 89u8, 90u8,
];

/// The class of characters allowed at 0-based position `i`.
pub open spec fn class_at(i: int) -> CharacterClass {
    if i < 18 {
        CharacterClass::Alphanumeric
    } else {
        CharacterClass::Digit
    }
}

/// The class of characters allowed at 0-based position `i`.
pub fn expected_class(i: usize) -> (c: CharacterClass)
    ensures
        c == class_at(i as int),
{
    if i < 18 {
        CharacterClass::Alphanumeric
    } else {
        CharacterClass::Digit
    }
}

pub open spec fn class_allows(c: CharacterClass, b: u8) -> bool {
    match c {
        CharacterClass::Digit => is_digit(b),
        CharacterClass::Alphanumeric => is_alphanumeric(b),
    }
}

/// The first 0-based position whose byte is not of the class allowed there (20 if none).
pub open spec fn first_bad_position(b: Seq<u8>) -> int {
    first_failure(20, |i: int| class_allows(class_at(i), b[i]))
}

/// The numeric value of an alphanumeric character: a digit's value, or 10..=35 for a letter.
pub open spec fn char_value(c: u8) -> int {
    if is_digit(c) {
        c - 48
    } else {
        c - 55
    }
}

/// The power of ten a character shifts the number by: one decimal place for a digit, two for a
/// letter.
pub open spec fn char_scale(c: u8) -> int {
    if is_digit(c) {
        10
    } else {
        100
    }
}

/// The integer spelled by the expansion of `s`, written after the digits of `acc`.
pub open spec fn number_with(acc: int, s: Seq<u8>) -> int
    decreases s.len(),
{
    if s.len() == 0 {
        acc
    } else {
        number_with(acc, s.drop_last()) * char_scale(s.last()) + char_value(s.last())
    }
}

/// The integer spelled by the expansion of `s`.
pub open spec fn lei_number(s: Seq<u8>) -> int {
    number_with(0, s)
}

/// What folding `s` into the remainder `rem` gives: `rem` itself for no characters, else the
/// integer spelled by `rem` followed by the expansion of `s`, modulo 97.
pub open spec fn spec_fold(rem: int, s: Seq<u8>) -> int {
    if s.len() == 0 {
        rem
    } else {
        number_with(rem, s) % 97
    }
}

/// The MOD 97-10 check digits of an 18-character base: `98 - (n mod 97)` for `n` the base
/// followed by `"00"`.
pub open spec fn check_digits_of(base: Seq<u8>) -> int {
    98 - (lei_number(base) * 100) % 97
}

/// The two-digit number written at positions 19-20.
pub open spec fn found_check_digits(b: Seq<u8>) -> int {
    (b[18] - 48) * 10 + (b[19] - 48)
}

/// The outcome of validating a 20-byte candidate: the first position holding a character of the
/// wrong class, else a check-digit mismatch, else success.
pub open spec fn spec_validate(b: Seq<u8>) -> Result<(), LeiError> {
    let k = first_bad_position(b);
    if k < 20 {
        Err(
            LeiError::InvalidCharacter {
                character: b[k] as char,
                position: (k + 1) as u8,
                expected: class_at(k),
            },
        )
    } else if check_digits_of(b.take(18)) != found_check_digits(b) {
        Err(
            LeiError::InvalidCheckDigits {
                expected: check_digits_of(b.take(18)) as u8,
                found: found_check_digits(b) as u8,
            },
        )
    } else {
        Ok(())
    }
}

/// The 20 bytes of a valid LEI.
pub open spec fn is_valid_lei(b: Seq<u8>) -> bool {
    b.len() == 20 && spec_validate(b) == Ok::<(), LeiError>(())
}

/// Every position of a valid LEI holds a character of the class allowed there.
pub proof fn lemma_valid_lei_classes(b: Seq<u8>)
    requires
        is_valid_lei(b),
    ensures
        forall|j: int| 0 <= j < 20 ==> class_allows(class_at(j), #[trigger] b[j]),
        forall|j: int| 0 <= j < 20 ==> #[trigger] is_alphanumeric(b[j]),
        is_digit(b[18]),
        is_digit(b[19]),
{
    assert forall|j: int| 0 <= j < 20 implies class_allows(class_at(j), #[trigger] b[j]) by {
        crate::text::lemma_first_failure_bound(20, |j: int| class_allows(class_at(j), b[j]), j);
    }
    assert(class_allows(class_at(18), b[18]));
    assert(class_allows(class_at(19), b[19]));
}

proof fn lemma_fold_step(x: int, m: int, v: int)
    ensures
        ((x % 97) * m + v) % 97 == (x * m + v) % 97,
{
    lemma_mul_mod_noop_left(x, m, 97);
    lemma_add_mod_noop((x % 97) * m, v, 97);
    lemma_add_mod_noop(x * m, v, 97);
}

/// Runs every rule against a normalized candidate, in order: character class per position, then
/// the MOD 97-10 check digits.
pub fn validate(candidate: &[u8; 20]) -> (r: Result<(), LeiError>)
    ensures
        r == spec_validate(candidate@),
{
    validate_character_classes(candidate)?;
    validate_check_digits(candidate)
}

fn validate_character_classes(candidate: &[u8; 20]) -> (r: Result<(), LeiError>)
    ensures
        first_bad_position(candidate@) < 20 ==> r == spec_validate(candidate@),
        first_bad_position(candidate@) >= 20 <==> r is Ok,
{
    let mut i: usize = 0;
    while i < 20
        invariant
            i <= 20,
            forall|j: int| 0 <= j < i ==> class_allows(class_at(j), #[trigger] candidate@[j]),
        decreases 20 - i,
    {
        let byte = candidate[i];
        let is_digit = 48 <= byte && byte <= 57;
        let (is_valid, expected) = if i < BASE_LEN {
            (is_digit || (65 <= byte && byte <= 90), CharacterClass::Alphanumeric)
        } else {
            (is_digit, CharacterClass::Digit)
        };
        if !is_valid {
            proof {
                lemma_first_failure(
                    20,
                    |j: int| class_allows(class_at(j), candidate@[j]),
                    i as int,
                );
            }
            return Err(
                LeiError::InvalidCharacter {
                    character: byte as char,
                    position: (i + 1) as u8,
                    expected,
                },
            );
        }
        i = i + 1;
    }
    proof {
        lemma_first_failure(20, |j: int| class_allows(class_at(j), candidate@[j]), 20);
    }
    Ok(())
}

fn validate_check_digits(candidate: &[u8; 20]) -> (r: Result<(), LeiError>)
    requires
        first_bad_position(candidate@) >= 20,
    ensures
        r == spec_validate(candidate@),
{
    proof {
        assert forall|j: int| 0 <= j < 20 implies class_allows(
            class_at(j),
            #[trigger] candidate@[j],
        ) by {
            crate::text::lemma_first_failure_bound(
                20,
                |j: int| class_allows(class_at(j), candidate@[j]),
                j,
            );
        }
        assert(class_allows(class_at(18), candidate@[18]));
        assert(class_allows(class_at(19), candidate@[19]));
    }
    let base: [u8; 18] = [
        candidate[0],
        candidate[1],
        candidate[2],
        candidate[3],
        candidate[4],
        candidate[5],
        candidate[6],
        candidate[7],
        candidate[8],
        candidate[9],
        candidate[10],
        candidate[11],
        candidate[12],
        candidate[13],
        candidate[14],
        candidate[15],
        candidate[16],
        candidate[17],
    ];
    assert(base@ =~= candidate@.take(18));
    let expected = compute_check_digits(&base);
    let found = (candidate[BASE_LEN] - 48) * 10 + (candidate[BASE_LEN + 1] - 48);
    if expected != found {
        return Err(LeiError::InvalidCheckDigits { expected, found });
    }
    Ok(())
}

/// The MOD 97-10 check digits of a well-formed 18-character base, as one value in `2..=98`:
/// fold the base modulo 97, append the placeholder `"00"`, and return `98 - remainder`.
pub fn compute_check_digits(base: &[u8; 18]) -> (d: u8)
    requires
        forall|i: int| 0 <= i < 18 ==> #[trigger] is_alphanumeric(base@[i]),
    ensures
        d == check_digits_of(base@),
        2 <= d <= 98,
{
    let mut rem = fold_mod_97(0, base.as_slice());
    proof {
        lemma_fold_step(lei_number(base@), 100, 0);
    }
    rem = (rem * 100) % 97;
    (98 - rem) as u8
}

/// Folds alphanumeric bytes into a running MOD 97 remainder: a digit advances the value one
/// decimal place (`rem * 10 + d`), a letter two (`rem * 100 + value`), reducing modulo 97 at
/// every step.
pub fn fold_mod_97(rem: u32, bytes: &[u8]) -> (r: u32)
    requires
        bytes@.len() > 0 ==> rem * char_scale(bytes@[0]) + char_value(bytes@[0]) <= u32::MAX,
        forall|i: int| 0 <= i < bytes@.len() ==> #[trigger] is_alphanumeric(bytes@[i]),
    ensures
        r == spec_fold(rem as int, bytes@),
        bytes@.len() > 0 ==> r < 97,
{
    let mut r = rem;
    let mut i: usize = 0;
    assert(bytes@.take(0) =~= Seq::<u8>::empty());
    while i < bytes.len()
        invariant
            i <= bytes@.len(),
            bytes@.len() > 0 ==> rem * char_scale(bytes@[0]) + char_value(bytes@[0]) <= u32::MAX,
            forall|i: int| 0 <= i < bytes@.len() ==> #[trigger] is_alphanumeric(bytes@[i]),
            i == 0 ==> r == rem,
            i > 0 ==> r == number_with(rem as int, bytes@.take(i as int)) % 97 && r < 97,
        decreases bytes@.len() - i,
    {
        let c = bytes[i];
        assert(is_alphanumeric(bytes@[i as int]));
        let ghost prefix = bytes@.take(i as int);
        assert(bytes@.take(i + 1).drop_last() =~= prefix);
        assert(bytes@.take(i + 1).last() == c);
        proof {
            lemma_fold_step(number_with(rem as int, prefix), char_scale(c), char_value(c));
            if i == 0 {
                assert(prefix =~= Seq::<u8>::empty());
            }
        }
        if 48 <= c && c <= 57 {
            r = (r * 10 + (c - 48) as u32) % 97;
        } else {
            r = (r * 100 + (c - 55) as u32) % 97;
        }
        i = i + 1;
    }
    assert(bytes@.take(i as int) =~= bytes@);
    r
}

/// The MOD 97-10 residue of all 20 characters; a conforming LEI yields 1.
pub fn residue(candidate: &[u8; 20]) -> (r: u32)
    requires
        forall|i: int| 0 <= i < 20 ==> #[trigger] is_alphanumeric(candidate@[i]),
    ensures
        r == lei_number(candidate@) % 97,
{
    fold_mod_97(0, candidate.as_slice())
}

/// Builds a structurally valid LEI from alphabet indices (18 alphanumerics) and appends the
/// matching two check digits.
pub fn build_valid_lei_bytes(base_indices: &[usize; 18]) -> (bytes: [u8; 20])
    requires
        forall|i: int| 0 <= i < 18 ==> #[trigger] base_indices@[i] < 36,
    ensures
        is_valid_lei(bytes@),
        forall|i: int|
            0 <= i < 18 ==> bytes@[i] == ALPHANUMERIC[#[trigger] base_indices@[i] as int],
{
    let mut base: [u8; 18] = [0u8; 18];
    let mut i: usize = 0;
    while i < 18
        invariant
            i <= 18,
            forall|j: int| 0 <= j < 18 ==> #[trigger] base_indices@[j] < 36,
            forall|j: int|
                0 <= j < i ==> base@[j] == ALPHANUMERIC[#[trigger] base_indices@[j] as int],
            forall|j: int| 0 <= j < i ==> #[trigger] is_alphanumeric(base@[j]),
        decreases 18 - i,
    {
        base[i] = ALPHANUMERIC[base_indices[i]];
        i = i + 1;
    }
    let check = compute_check_digits(&base);
    let bytes: [u8; 20] = [
        base[0],
        base[1],
        base[2],
        base[3],
        base[4],
        base[5],
        base[6],
        base[7],
        base[8],
        base[9],
        base[10],
        base[11],
        base[12],
        base[13],
        base[14],
        base[15],
        base[16],
        base[17],
        48 + check / 10,
        48 + check % 10,
    ];
    assert(bytes@.take(18) =~= base@);
    proof {
        lemma_first_failure(20, |j: int| class_allows(class_at(j), bytes@[j]), 20);
    }
    bytes
}

/// Every valid LEI reads as an integer congruent to 1 modulo 97 (the ISO/IEC 7064 MOD 97-10
/// acceptance condition).
pub proof fn lemma_valid_lei_residue_is_one(b: Seq<u8>)
    requires
        is_valid_lei(b),
    ensures
        lei_number(b) % 97 == 1,
{
    lemma_valid_lei_classes(b);
    let base = b.take(18);
    let n = lei_number(base);
    let d1 = b[18];
    let d2 = b[19];
    assert(b.drop_last() =~= b.take(19));
    assert(b.take(19).drop_last() =~= base);
    assert(lei_number(b.take(19)) == n * 10 + (d1 - 48));
    assert(lei_number(b) == (n * 10 + (d1 - 48)) * 10 + (d2 - 48));
    let r = (n * 100) % 97;
    assert(found_check_digits(b) == 98 - r);
    assert((n * 100 + 98 - r) % 97 == 1) by (nonlinear_arith)
        requires
            r == (n * 100) % 97,
    ;
}

/// The check digits of a valid LEI lie in `02..=98`: `00`, `01` and `99` never occur.
pub proof fn lemma_valid_lei_check_digit_range(b: Seq<u8>)
    requires
        is_valid_lei(b),
    ensures
        2 <= found_check_digits(b) <= 98,
{
}

/// For a candidate whose characters are all of the right class, validation accepts exactly when
/// the whole string reads as an integer congruent to 1 modulo 97 and the check digits are in
/// `02..=98` (a residue of 1 alone would also admit some bases followed by `00`, `01` or `99`).
pub proof fn lemma_valid_lei_iff_residue_one(b: Seq<u8>)
    requires
        b.len() == 20,
        first_bad_position(b) == 20,
    ensures
        is_valid_lei(b) <==> (lei_number(b) % 97 == 1 && 2 <= found_check_digits(b) <= 98),
{
    if is_valid_lei(b) {
        lemma_valid_lei_residue_is_one(b);
        lemma_valid_lei_check_digit_range(b);
    }
    if lei_number(b) % 97 == 1 && 2 <= found_check_digits(b) <= 98 {
        let base = b.take(18);
        let n = lei_number(base);
        let d1 = b[18];
        let d2 = b[19];
        crate::text::lemma_first_failure_bound(20, |j: int| class_allows(class_at(j), b[j]), 18);
        crate::text::lemma_first_failure_bound(20, |j: int| class_allows(class_at(j), b[j]), 19);
        assert(is_digit(d1) && is_digit(d2));
        assert(b.drop_last() =~= b.take(19));
        assert(b.take(19).drop_last() =~= base);
        assert(lei_number(b.take(19)) == n * 10 + (d1 - 48));
        assert(lei_number(b) == (n * 10 + (d1 - 48)) * 10 + (d2 - 48));
        let f = found_check_digits(b);
        let r = (n * 100) % 97;
        assert(f == 98 - r) by (nonlinear_arith)
            requires
                r == (n * 100) % 97,
                (n * 100 + f) % 97 == 1,
                2 <= f <= 98,
        ;
    }
}

/// `s` with the characters at `j` and `j + 1` swapped.
pub open spec fn swap_adjacent(s: Seq<u8>, j: int) -> Seq<u8> {
    s.update(j, s[j + 1]).update(j + 1, s[j])
}

/// The factor by which the expansion of `t` shifts what is written before it.
pub open spec fn scale_of(t: Seq<u8>) -> int
    decreases t.len(),
{
    if t.len() == 0 {
        1
    } else {
        scale_of(t.drop_last()) * char_scale(t.last())
    }
}

proof fn lemma_number_concat(acc: int, s: Seq<u8>, t: Seq<u8>)
    ensures
        number_with(acc, s + t) == number_with(number_with(acc, s), t),
    decreases t.len(),
{
    if t.len() == 0 {
        assert(s + t =~= s);
    } else {
        assert((s + t).drop_last() =~= s + t.drop_last());
        assert((s + t).last() == t.last());
        lemma_number_concat(acc, s, t.drop_last());
    }
}

proof fn lemma_number_linear(acc: int, t: Seq<u8>)
    ensures
        number_with(acc, t) == acc * scale_of(t) + number_with(0, t),
    decreases t.len(),
{
    if t.len() > 0 {
        lemma_number_linear(acc, t.drop_last());
        let c = char_scale(t.last());
        assert((acc * scale_of(t.drop_last()) + number_with(0, t.drop_last())) * c == acc * (
        scale_of(t.drop_last()) * c) + number_with(0, t.drop_last()) * c) by (nonlinear_arith);
    }
}

proof fn lemma_times_ten_not_multiple(e: int)
    requires
        e % 97 != 0,
    ensures
        (e * 10) % 97 != 0,
{
    let r = e % 97;
    assert(1 <= r <= 96);
    assert((r * 10) % 97 != 0);
    lemma_mul_mod_noop_left(e, 10, 97);
}

proof fn lemma_scale_not_multiple(d: int, t: Seq<u8>)
    requires
        d % 97 != 0,
    ensures
        (d * scale_of(t)) % 97 != 0,
    decreases t.len(),
{
    if t.len() > 0 {
        lemma_scale_not_multiple(d, t.drop_last());
        let e = d * scale_of(t.drop_last());
        lemma_mul_is_associative(d, scale_of(t.drop_last()), char_scale(t.last()));
        lemma_times_ten_not_multiple(e);
        if !is_digit(t.last()) {
            lemma_times_ten_not_multiple(e * 10);
            lemma_mul_is_associative(e, 10, 10);
        }
    }
}

/// ISO/IEC 7064 MOD 97-10 detects every swap of two adjacent, different characters of a valid
/// LEI when both are digits or both are letters. (A digit next to a letter can escape: `1B` and
/// `B1` both expand to `111`.)
pub proof fn lemma_adjacent_transposition_rejected(b: Seq<u8>, j: int)
    requires
        is_valid_lei(b),
        0 <= j < 19,
        b[j] != b[j + 1],
        is_digit(b[j]) == is_digit(b[j + 1]),
    ensures
        !is_valid_lei(swap_adjacent(b, j)),
{
    let b2 = swap_adjacent(b, j);
    if is_valid_lei(b2) {
        lemma_valid_lei_classes(b);
        let x = b[j];
        let y = b[j + 1];
        assert(is_alphanumeric(x) && is_alphanumeric(y));
        let p = b.take(j);
        let q = b.skip(j + 2);
        assert(b =~= p + seq![x, y] + q);
        assert(b2 =~= p + seq![y, x] + q);
        let a = lei_number(p);
        lemma_number_concat(0, p + seq![x, y], q);
        lemma_number_concat(0, p, seq![x, y]);
        lemma_number_concat(0, p + seq![y, x], q);
        lemma_number_concat(0, p, seq![y, x]);
        assert(seq![x, y].drop_last() =~= seq![x]);
        assert(seq![y, x].drop_last() =~= seq![y]);
        assert(seq![x].drop_last() =~= Seq::<u8>::empty());
        assert(seq![y].drop_last() =~= Seq::<u8>::empty());
        let sc = char_scale(x);
        assert(char_scale(y) == sc);
        let n1 = number_with(a, seq![x, y]);
        let n2 = number_with(a, seq![y, x]);
        assert(seq![x, y].last() == y && seq![y, x].last() == x);
        assert(seq![x].last() == x && seq![y].last() == y);
        assert(number_with(a, Seq::<u8>::empty()) == a);
        assert(number_with(a, seq![x]) == a * sc + char_value(x));
        assert(number_with(a, seq![y]) == a * sc + char_value(y));
        assert(n1 == (a * sc + char_value(x)) * sc + char_value(y));
        assert(n2 == (a * sc + char_value(y)) * sc + char_value(x));
        let d = char_value(x) - char_value(y);
        assert(n1 - n2 == d * (sc - 1)) by (nonlinear_arith)
            requires
                n1 == (a * sc + char_value(x)) * sc + char_value(y),
                n2 == (a * sc + char_value(y)) * sc + char_value(x),
                d == char_value(x) - char_value(y),
        ;
        assert(d != 0);
        assert(-25 <= d <= 25);
        assert(sc == 10 || sc == 100);
        assert((d * 9) % 97 != 0);
        assert((d * 99) % 97 != 0);
        assert((n1 - n2) % 97 != 0);
        lemma_number_linear(n1, q);
        lemma_number_linear(n2, q);
        lemma_scale_not_multiple(n1 - n2, q);
        let s = scale_of(q);
        assert(lei_number(b) - lei_number(b2) == (n1 - n2) * s) by (nonlinear_arith)
            requires
                lei_number(b) == n1 * s + number_with(0, q),
                lei_number(b2) == n2 * s + number_with(0, q),
        ;
        lemma_valid_lei_residue_is_one(b);
        lemma_valid_lei_residue_is_one(b2);
        lemma_sub_mod_noop(lei_number(b), lei_number(b2), 97);
    }
}

/// The decimal digits that the characters of `s` expand to: a digit stands for itself, a letter
/// for the two digits of its value 10..=35.
pub open spec fn expanded_digits(s: Seq<u8>) -> Seq<int>
    decreases s.len(),
{
    if s.len() == 0 {
        Seq::empty()
    } else {
        let c = s.last();
        let tail = if is_digit(c) {
            seq![c - 48]
        } else {
            seq![(c - 55) / 10, (c - 55) % 10]
        };
        expanded_digits(s.drop_last()) + tail
    }
}

/// The integer that a string of decimal digits spells.
pub open spec fn decimal(d: Seq<int>) -> int
    decreases d.len(),
{
    if d.len() == 0 {
        0
    } else {
        decimal(d.drop_last()) * 10 + d.last()
    }
}

proof fn lemma_decimal_concat(a: Seq<int>, b: Seq<int>)
    ensures
        decimal(a + b) == decimal(a) * pow(10, b.len()) + decimal(b),
    decreases b.len(),
{
    if b.len() == 0 {
        assert(a + b =~= a);
        lemma_pow0(10);
    } else {
        let b1 = b.drop_last();
        assert((a + b).drop_last() =~= a + b1);
        assert((a + b).last() == b.last());
        lemma_decimal_concat(a, b1);
        let p = pow(10, b1.len());
        lemma_pow1(10);
        lemma_pow_adds(10, b1.len(), 1);
        assert(pow(10, b.len()) == p * 10);
        let x = decimal(a);
        assert((x * p + decimal(b1)) * 10 + b.last() == x * (p * 10) + (decimal(b1) * 10 + b.last()))
            by (nonlinear_arith);
    }
}

proof fn lemma_expansion(s: Seq<u8>)
    ensures
        number_with(0, s) == decimal(expanded_digits(s)),
        scale_of(s) == pow(10, expanded_digits(s).len()),
        (forall|i: int| 0 <= i < s.len() ==> #[trigger] is_alphanumeric(s[i])) ==> (forall|k: int|
            0 <= k < expanded_digits(s).len() ==> 0 <= #[trigger] expanded_digits(s)[k] <= 9),
    decreases s.len(),
{
    if s.len() == 0 {
        lemma_pow0(10);
    } else {
        let s1 = s.drop_last();
        let c = s.last();
        lemma_expansion(s1);
        let e1 = expanded_digits(s1);
        let t = if is_digit(c) {
            seq![c - 48]
        } else {
            seq![(c - 55) / 10, (c - 55) % 10]
        };
        assert(expanded_digits(s) == e1 + t);
        lemma_decimal_concat(e1, t);
        lemma_pow_adds(10, e1.len(), t.len());
        lemma_pow1(10);
        lemma_pow_adds(10, 1, 1);
        assert(pow(10, 2) == 100);
        assert(decimal(Seq::<int>::empty()) == 0);
        if is_digit(c) {
            assert(t.drop_last() =~= Seq::<int>::empty());
        } else {
            let hi = seq![(c - 55) / 10];
            assert(t.drop_last() =~= hi);
            assert(hi.drop_last() =~= Seq::<int>::empty());
            assert(decimal(hi) == (c - 55) / 10);
        }
        assert(decimal(t) == char_value(c));
        assert(pow(10, t.len()) == char_scale(c));
        if forall|i: int| 0 <= i < s.len() ==> #[trigger] is_alphanumeric(s[i]) {
            assert forall|i: int| 0 <= i < s1.len() implies #[trigger] is_alphanumeric(s1[i]) by {
                assert(is_alphanumeric(s[i]));
            }
            assert(is_alphanumeric(s[s.len() - 1]));
            assert forall|k: int| 0 <= k < expanded_digits(s).len() implies 0
                <= #[trigger] expanded_digits(s)[k] <= 9 by {
                if k < e1.len() {
                    assert(expanded_digits(s)[k] == e1[k]);
                } else {
                    assert(expanded_digits(s)[k] == t[k - e1.len()]);
                }
            }
        }
    }
}

/// Folding alphanumeric characters into `rem` is reading `rem` followed by their decimal
/// expansion as one integer, modulo 97; that expansion is a string of decimal digits.
pub proof fn lemma_fold_decimal(rem: int, s: Seq<u8>)
    requires
        s.len() > 0,
    ensures
        spec_fold(rem, s) == (rem * pow(10, expanded_digits(s).len()) + decimal(expanded_digits(s)))
            % 97,
        (forall|i: int| 0 <= i < s.len() ==> #[trigger] is_alphanumeric(s[i])) ==> (forall|k: int|
            0 <= k < expanded_digits(s).len() ==> 0 <= #[trigger] expanded_digits(s)[k] <= 9),
{
    lemma_number_linear(rem, s);
    lemma_expansion(s);
}

/// Folding two pieces one after the other is folding them joined.
pub proof fn lemma_fold_concat(rem: int, a: Seq<u8>, b: Seq<u8>)
    ensures
        spec_fold(spec_fold(rem, a), b) == spec_fold(rem, a + b),
{
    if a.len() == 0 {
        assert(a + b =~= b);
    } else if b.len() == 0 {
        assert(a + b =~= a);
    } else {
        let x = number_with(rem, a);
        lemma_number_concat(rem, a, b);
        lemma_number_linear(x, b);
        lemma_number_linear(x % 97, b);
        lemma_fold_step(x, scale_of(b), number_with(0, b));
    }
}
} // verus!
