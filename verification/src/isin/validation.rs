//! Structural and checksum validation of a normalized 12-byte ISIN candidate.
//!
//! ISIN uses the modulus-10 "double-add-double" (Luhn) algorithm of ISO 6166 Annex C. Each of the
//! first 11 characters is expanded into decimal digits (a digit contributes itself, a letter its
//! two-digit value `'A'` = 10, ..., `'Z'` = 35), and the Luhn rule doubles every other digit
//! counting from the right, starting with the rightmost expanded digit (the check digit, once
//! appended, takes the units position).

use super::error::{CharacterClass, IsinError};
use crate::text::{first_failure, is_alphanumeric, is_digit, is_upper, lemma_first_failure};
use vstd::prelude::*;

verus! {

/// The number of positions before the check digit (country code plus NSIN).
pub const BASE_LEN: usize = 11;

/// The 26 letters, in order.
pub const LETTERS: [u8; 26] = [
    65u8, 66u8, 67u8, 68u8, 69u8, 70u8, 71u8, 72u8, 73u8, 74u8, 75u8, 76u8, 77u8, 78u8, 79u8, 80u8,
    81u8, 82u8, 83u8, 84u8, 85u8, 86u8, 87u8, 88u8, 89u8, 90u8,
];

/// The ten digits followed by the 26 letters.
pub const ALPHANUMERIC: [u8; 36] = [
    48u8, 49u8, 50u8, 51u8, 52u8, 53u8, 54u8, 55u8, 56u8, 57u8, 65u8, 66u8, 67u8, 68u8, 69u8, 70u8,
    71u8, 72u8, 73u8, 74u8, 75u8, 76u8, 77u8, 78u8, 79u8, 80u8, 81u8, 82u8, 83u8, 84u8, 85u8, 86u8,
    87u8, 88u8, 89u8, 90u8,
];

/// The class of characters allowed at 0-based position `i`.
pub open spec fn class_at(i: int) -> CharacterClass {
    if i < 2 {
        CharacterClass::Letter
    } else if i < 11 {
        CharacterClass::Alphanumeric
    } else {
        CharacterClass::Digit
    }
}

/// The class of characters allowed at 0-based position `i`.
pub fn expected_class(i: usize) -> (c: CharacterClass)
    ensures
        c == class_at(i as int),
{
    if i < 2 {
        CharacterClass::Letter
    } else if i < 11 {
        CharacterClass::Alphanumeric
    } else {
        CharacterClass::Digit
    }
}

pub open spec fn class_allows(c: CharacterClass, b: u8) -> bool {
    match c {
        CharacterClass::Digit => is_digit(b),
        CharacterClass::Letter => is_upper(b),
        CharacterClass::Alphanumeric => is_alphanumeric(b),
    }
}

/// The first 0-based position whose byte is not of the class allowed there (12 if none).
pub open spec fn first_bad_position(b: Seq<u8>) -> int {
    first_failure(12, |i: int| class_allows(class_at(i), b[i]))
}

/// The decimal digits an alphanumeric character expands to.
pub open spec fn char_digits(c: u8) -> Seq<int> {
    if is_digit(c) {
        seq![c - 48]
    } else {
        seq![(c - 55) / 10, (c - 55) % 10]
    }
}

/// The decimal expansion of a sequence of alphanumeric characters.
pub open spec fn expand(s: Seq<u8>) -> Seq<int>
    decreases s.len(),
{
    if s.len() == 0 {
        seq![]
    } else {
        expand(s.drop_last()) + char_digits(s.last())
    }
}

/// The Luhn contribution of one digit: doubled (minus 9 when above 9) in a doubled position.
pub open spec fn luhn_digit(d: int, double: bool) -> int {
    if double {
        if 2 * d > 9 {
            2 * d - 9
        } else {
            2 * d
        }
    } else {
        d
    }
}

/// The Luhn sum of `ds`, whose rightmost digit is doubled exactly when `double`.
pub open spec fn luhn_sum(ds: Seq<int>, double: bool) -> int
    decreases ds.len(),
{
    if ds.len() == 0 {
        0
    } else {
        luhn_digit(ds.last(), double) + luhn_sum(ds.drop_last(), !double)
    }
}

/// The ISO 6166 check digit of an 11-character base.
pub open spec fn check_digit_of(base: Seq<u8>) -> int {
    (10 - luhn_sum(expand(base), true) % 10) % 10
}

/// The outcome of validating a 12-byte candidate: the first position holding a character of the
/// wrong class, else a check-digit mismatch, else success.
pub open spec fn spec_validate(b: Seq<u8>) -> Result<(), IsinError> {
    let k = first_bad_position(b);
    if k < 12 {
        Err(
            IsinError::InvalidCharacter {
                character: b[k] as char,
                position: (k + 1) as u8,
                expected: class_at(k),
            },
        )
    } else if check_digit_of(b.take(11)) != b[11] - 48 {
        Err(
            IsinError::InvalidCheckDigit {
                expected: check_digit_of(b.take(11)) as u8,
                found: (b[11] - 48) as u8,
            },
        )
    } else {
        Ok(())
    }
}

/// The 12 bytes of a valid ISIN.
pub open spec fn is_valid_isin(b: Seq<u8>) -> bool {
    b.len() == 12 && spec_validate(b) == Ok::<(), IsinError>(())
}

pub proof fn lemma_expand_prepend(c: u8, t: Seq<u8>)
    ensures
        expand(seq![c] + t) == char_digits(c) + expand(t),
    decreases t.len(),
{
    if t.len() == 0 {
        assert(seq![c] + t =~= seq![c]);
        assert(seq![c].drop_last() =~= Seq::<u8>::empty());
        assert(expand(Seq::<u8>::empty()) =~= Seq::<int>::empty());
        assert(expand(seq![c]) =~= char_digits(c));
        assert(char_digits(c) + expand(t) =~= char_digits(c));
    } else {
        let u = seq![c] + t;
        assert(u.drop_last() =~= seq![c] + t.drop_last());
        assert(u.last() == t.last());
        lemma_expand_prepend(c, t.drop_last());
        assert(expand(u) == expand(u.drop_last()) + char_digits(u.last()));
        assert(expand(t) == expand(t.drop_last()) + char_digits(t.last()));
        assert(expand(u) =~= char_digits(c) + expand(t));
    }
}

pub proof fn lemma_expand_append(s: Seq<u8>, c: u8)
    ensures
        expand(s.push(c)) == expand(s) + char_digits(c),
{
    assert(s.push(c).drop_last() =~= s);
}

pub proof fn lemma_luhn_sum_concat(a: Seq<int>, b: Seq<int>, d: bool)
    ensures
        luhn_sum(a + b, d) == luhn_sum(b, d) + luhn_sum(
            a,
            if b.len() % 2 == 0 {
                d
            } else {
                !d
            },
        ),
    decreases b.len(),
{
    if b.len() == 0 {
        assert(a + b =~= a);
    } else {
        assert((a + b).drop_last() =~= a + b.drop_last());
        lemma_luhn_sum_concat(a, b.drop_last(), !d);
    }
}

/// Runs every rule against a normalized candidate, in order: character class per position, then
/// the Luhn check digit.
pub fn validate(candidate: &[u8; 12]) -> (r: Result<(), IsinError>)
    ensures
        r == spec_validate(candidate@),
{
    validate_character_classes(candidate)?;
    validate_check_digit(candidate)
}

fn is_allowed(class: CharacterClass, b: u8) -> (r: bool)
    ensures
        r == class_allows(class, b),
{
    match class {
        CharacterClass::Digit => 48u8 <= b && b <= 57u8,
        CharacterClass::Letter => 65u8 <= b && b <= 90u8,
        CharacterClass::Alphanumeric => (48u8 <= b && b <= 57u8) || (65u8 <= b && b <= 90u8),
    }
}

fn validate_character_classes(candidate: &[u8; 12]) -> (r: Result<(), IsinError>)
    ensures
        first_bad_position(candidate@) < 12 ==> r == spec_validate(candidate@),
        first_bad_position(candidate@) >= 12 <==> r is Ok,
{
    let mut i: usize = 0;
    while i < 12
        invariant
            i <= 12,
            forall|j: int| 0 <= j < i ==> class_allows(class_at(j), #[trigger] candidate@[j]),
        decreases 12 - i,
    {
        let byte = candidate[i];
        let expected = if i < 2 {
            CharacterClass::Letter
        } else if i < BASE_LEN {
            CharacterClass::Alphanumeric
        } else {
            CharacterClass::Digit
        };
        if !is_allowed(expected, byte) {
            proof {
                lemma_first_failure(
                    12,
                    |j: int| class_allows(class_at(j), candidate@[j]),
                    i as int,
                );
            }
            return Err(
                IsinError::InvalidCharacter {
                    character: byte as char,
                    position: (i + 1) as u8,
                    expected,
                },
            );
        }
        i = i + 1;
    }
    proof {
        lemma_first_failure(12, |j: int| class_allows(class_at(j), candidate@[j]), 12);
    }
    Ok(())
}

fn validate_check_digit(candidate: &[u8; 12]) -> (r: Result<(), IsinError>)
    requires
        first_bad_position(candidate@) >= 12,
    ensures
        r == spec_validate(candidate@),
{
    proof {
        assert forall|j: int| 0 <= j < 12 implies class_allows(
            class_at(j),
            #[trigger] candidate@[j],
        ) by {
            crate::text::lemma_first_failure_bound(
                12,
                |j: int| class_allows(class_at(j), candidate@[j]),
                j,
            );
        }
    }
    let base = vstd::slice::slice_subrange(candidate.as_slice(), 0, BASE_LEN);
    assert(base@ =~= candidate@.take(11));
    let expected = compute_check_digit(base);
    let found = candidate[BASE_LEN] - 48u8;
    if expected != found {
        return Err(IsinError::InvalidCheckDigit { expected, found });
    }
    Ok(())
}

fn luhn_step(value: u32, double: bool) -> (r: u32)
    requires
        value <= 9,
    ensures
        r == luhn_digit(value as int, double),
        r <= 9,
{
    if double {
        let doubled = value * 2;
        if doubled > 9 {
            doubled - 9
        } else {
            doubled
        }
    } else {
        value
    }
}

/// The ISO 6166 Luhn check digit of the first 11 characters of an ISIN, computed in one
/// right-to-left pass (a letter's units digit is processed before its tens digit).
pub fn compute_check_digit(base: &[u8]) -> (d: u8)
    requires
        base@.len() == 11,
        forall|i: int| 0 <= i < 11 ==> #[trigger] is_alphanumeric(base@[i]),
    ensures
        d == check_digit_of(base@),
        d <= 9,
{
    let mut sum: u32 = 0;
    let mut double = true;
    let mut i: usize = BASE_LEN;
    assert(base@.subrange(11, 11) =~= Seq::<u8>::empty());
    while i > 0
        invariant
            i <= 11,
            base@.len() == 11,
            forall|j: int| 0 <= j < 11 ==> #[trigger] is_alphanumeric(base@[j]),
            sum == luhn_sum(expand(base@.subrange(i as int, 11)), true),
            double == (expand(base@.subrange(i as int, 11)).len() % 2 == 0),
            sum <= 18 * (11 - i),
        decreases i,
    {
        let c = base[i - 1];
        assert(is_alphanumeric(base@[i - 1]));
        let ghost tail = base@.subrange(i as int, 11);
        let ghost old_double = double;
        assert(base@.subrange(i - 1, 11) =~= seq![c] + tail);
        proof {
            lemma_expand_prepend(c, tail);
            lemma_luhn_sum_concat(char_digits(c), expand(tail), true);
        }
        if 48u8 <= c && c <= 57u8 {
            sum = sum + luhn_step((c - 48u8) as u32, double);
            double = !double;
            let ghost one = seq![(c - 48) as int];
            assert(one.drop_last() =~= Seq::<int>::empty());
            assert(one.last() == (c - 48) as int);
            assert(luhn_sum(Seq::<int>::empty(), !old_double) == 0);
            assert(luhn_sum(one, old_double) == luhn_digit((c - 48) as int, old_double));
            assert(char_digits(c) =~= one);
        } else {
            let value = (c - 65u8 + 10) as u32;
            sum = sum + luhn_step(value % 10, double);
            double = !double;
            sum = sum + luhn_step(value / 10, double);
            double = !double;
            let ghost pair = seq![(value / 10) as int, (value % 10) as int];
            assert(pair.drop_last() =~= seq![(value / 10) as int]);
            assert(pair.drop_last().drop_last() =~= Seq::<int>::empty());
            assert(pair.last() == (value % 10) as int);
            assert(pair.drop_last().last() == (value / 10) as int);
            assert(luhn_sum(Seq::<int>::empty(), old_double) == 0);
            assert(luhn_sum(pair.drop_last(), !old_double) == luhn_digit(
                (value / 10) as int,
                !old_double,
            ));
            assert(luhn_sum(pair, old_double) == luhn_digit((value % 10) as int, old_double)
                + luhn_digit((value / 10) as int, !old_double));
            assert(char_digits(c) =~= pair);
        }
        i = i - 1;
    }
    assert(base@.subrange(0, 11) =~= base@);
    ((10 - (sum % 10)) % 10) as u8
}

/// Builds a structurally valid ISIN from alphabet indices (two letters for the country code, nine
/// alphanumerics for the NSIN) and appends the matching check digit.
pub fn build_valid_isin_bytes(country: [usize; 2], nsin: &[usize]) -> (bytes: [u8; 12])
    requires
        country[0] < 26,
        country[1] < 26,
        nsin@.len() == 9,
        forall|i: int| 0 <= i < 9 ==> #[trigger] nsin@[i] < 36,
    ensures
        is_valid_isin(bytes@),
        bytes@[0] == LETTERS[country[0] as int],
        bytes@[1] == LETTERS[country[1] as int],
        forall|i: int| 0 <= i < 9 ==> bytes@[i + 2] == ALPHANUMERIC[#[trigger] nsin@[i] as int],
{
    let mut base: Vec<u8> = Vec::new();
    base.push(LETTERS[country[0]]);
    base.push(LETTERS[country[1]]);
    let mut i: usize = 0;
    while i < 9
        invariant
            i <= 9,
            nsin@.len() == 9,
            forall|j: int| 0 <= j < 9 ==> #[trigger] nsin@[j] < 36,
            base@.len() == 2 + i,
            base@[0] == LETTERS[country[0] as int],
            base@[1] == LETTERS[country[1] as int],
            is_upper(base@[0]),
            is_upper(base@[1]),
            forall|j: int| 0 <= j < i ==> base@[j + 2] == ALPHANUMERIC[#[trigger] nsin@[j] as int],
            forall|j: int| 2 <= j < 2 + i ==> #[trigger] is_alphanumeric(base@[j]),
        decreases 9 - i,
    {
        base.push(ALPHANUMERIC[nsin[i]]);
        i = i + 1;
    }
    let check = compute_check_digit(base.as_slice());
    let bytes: [u8; 12] = [
        base[0],
        base[1],
        base[2],
        base[3],
        base[4],
        base[5],
        base[6],
        base[7],
        base[8],
        base[9],
        base[10],
        check + 48u8,
    ];
    assert(bytes@.take(11) =~= base@);
    proof {
        lemma_first_failure(12, |j: int| class_allows(class_at(j), bytes@[j]), 12);
    }
    bytes
}

/// Every position of a valid ISIN holds a character of the class allowed there.
pub proof fn lemma_valid_isin_classes(b: Seq<u8>)
    requires
        is_valid_isin(b),
    ensures
        forall|j: int| 0 <= j < 12 ==> class_allows(class_at(j), #[trigger] b[j]),
        forall|j: int| 0 <= j < 12 ==> #[trigger] is_alphanumeric(b[j]),
        is_digit(b[11]),
{
    assert forall|j: int| 0 <= j < 12 implies class_allows(class_at(j), #[trigger] b[j]) by {
        crate::text::lemma_first_failure_bound(12, |j: int| class_allows(class_at(j), b[j]), j);
    }
    assert(class_allows(class_at(11), b[11]));
}

/// The Luhn sum over the expansion of the full 12 characters (check digit undoubled, in the units
/// position).
pub open spec fn luhn_total(b: Seq<u8>) -> int {
    luhn_sum(expand(b), false)
}

/// ISO 6166 validity: a 12-character candidate whose positions hold characters of the right class
/// is valid exactly when the Luhn sum over its whole expansion is divisible by 10.
pub proof fn lemma_valid_iff_luhn_total_divisible(b: Seq<u8>)
    requires
        b.len() == 12,
        first_bad_position(b) >= 12,
    ensures
        is_valid_isin(b) <==> luhn_total(b) % 10 == 0,
{
    assert forall|j: int| 0 <= j < 12 implies class_allows(class_at(j), #[trigger] b[j]) by {
        crate::text::lemma_first_failure_bound(12, |j: int| class_allows(class_at(j), b[j]), j);
    }
    let base = b.take(11);
    let d = b[11] - 48;
    assert(b =~= base.push(b[11]));
    lemma_expand_append(base, b[11]);
    assert(char_digits(b[11]) =~= seq![d]);
    lemma_luhn_sum_concat(expand(base), seq![d], false);
    assert(seq![d].drop_last() =~= Seq::<int>::empty());
    assert(seq![d].last() == d);
    assert(luhn_sum(Seq::<int>::empty(), true) == 0);
    assert(luhn_sum(seq![d], false) == d);
    let s = luhn_sum(expand(base), true);
    assert(luhn_total(b) == d + s);
    assert((10 - s % 10) % 10 == d <==> (d + s) % 10 == 0) by (nonlinear_arith)
        requires
            0 <= d <= 9,
    ;
}

/// The Luhn sum written position by position: the digit at index `i` of the `n` digits is
/// doubled when `n - i` is odd (the rightmost digit is doubled when `double` holds), summed over
/// the first `k` indices.
pub open spec fn indexed_luhn_sum(ds: Seq<int>, k: int, double: bool) -> int
    decreases k,
{
    if k <= 0 {
        0
    } else {
        indexed_luhn_sum(ds, k - 1, double) + luhn_digit(
            ds[k - 1],
            ((ds.len() - (k - 1)) % 2 == 1) == double,
        )
    }
}

proof fn lemma_indexed_drop_last(ds: Seq<int>, k: int, double: bool)
    requires
        ds.len() > 0,
        0 <= k <= ds.len() - 1,
    ensures
        indexed_luhn_sum(ds, k, double) == indexed_luhn_sum(ds.drop_last(), k, !double),
    decreases k,
{
    if k > 0 {
        lemma_indexed_drop_last(ds, k - 1, double);
        assert(ds.drop_last()[k - 1] == ds[k - 1]);
    }
}

/// The Luhn sum taken from the right equals the sum written position by position.
pub proof fn lemma_luhn_sum_indexed(ds: Seq<int>, double: bool)
    ensures
        luhn_sum(ds, double) == indexed_luhn_sum(ds, ds.len() as int, double),
    decreases ds.len(),
{
    if ds.len() > 0 {
        lemma_luhn_sum_indexed(ds.drop_last(), !double);
        lemma_indexed_drop_last(ds, ds.len() - 1, double);
    }
}

/// The check digit of a base is `(10 - s % 10) % 10` for `s` the Luhn sum of its expanded digits
/// written position by position, with the rightmost expanded digit doubled.
pub proof fn lemma_check_digit_indexed(base: Seq<u8>)
    ensures
        check_digit_of(base) == (10 - indexed_luhn_sum(
            expand(base),
            expand(base).len() as int,
            true,
        ) % 10) % 10,
{
    lemma_luhn_sum_indexed(expand(base), true);
}
} // verus!
