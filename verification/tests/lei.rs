use std::collections::{BTreeSet, HashSet};

use ftracker_identifiers::lei::error::CharacterClass;
use ftracker_identifiers::lei::parser::normalize;
use ftracker_identifiers::lei::validation::{
    build_valid_lei_bytes, compute_check_digits, fold_mod_97, residue, validate,
};
use ftracker_identifiers::{Lei, LeiError};

const BBC: &str = "5493000IBP32UQZ0KL24";
const JLR: &str = "213800WSGIIZCXF1P572";

fn candidate(s: &str) -> [u8; 20] {
    let bytes = s.as_bytes();
    let mut out = [0u8; 20];
    out.copy_from_slice(bytes);
    out
}

/// A second, deliberately naive MOD 97-10 implementation used to cross-check
/// `compute_check_digits`: it materializes the full expanded decimal string and reduces it digit by
/// digit.
fn reference_check_digits(base: &str) -> u8 {
    let mut expanded = String::new();
    for &c in base.as_bytes() {
        if c.is_ascii_digit() {
            expanded.push(c as char);
        } else {
            let v = c - b'A' + 10;
            expanded.push((b'0' + v / 10) as char);
            expanded.push((b'0' + v % 10) as char);
        }
    }
    expanded.push('0');
    expanded.push('0');

    let mut rem = 0u32;
    for ch in expanded.chars() {
        rem = (rem * 10 + ch.to_digit(10).unwrap()) % 97;
    }
    (98 - rem) as u8
}

// ---- rendering ----

// ---- normalization ----

// ---- construction ----

#[test]
fn parse_accepts_alphanumeric_entity_part() {
    assert!(Lei::parse(JLR).is_ok());
}

#[test]
fn accepts_a_spread_of_real_world_leis() {
    for s in ["506700GE1G29325QX363", "54930084UKLVMY22DS16"] {
        assert!(Lei::parse(s).is_ok(), "{s} should parse");
    }
}

// ---- accessors ----

#[test]
fn alphanumeric_entity_part_is_preserved() {
    let lei = Lei::parse(JLR).unwrap();
    assert_eq!(lei.lou_prefix(), "2138");
    assert_eq!(lei.entity_id(), "00WSGIIZCXF1P5");
    assert_eq!(lei.check_digits(), 72);
}

#[test]
fn computed_check_digits_match_stored_check_digits() {
    for s in [BBC, JLR, "506700GE1G29325QX363", "54930084UKLVMY22DS16"] {
        let lei = Lei::parse(s).unwrap();
        assert_eq!(lei.computed_check_digits(), lei.check_digits(), "{s}");
    }
}

// ---- error paths ----

#[test]
fn reports_non_alphanumeric_in_base() {
    let err = Lei::parse("5493000IBP32UQZ0K!24").unwrap_err();
    assert_eq!(
        err,
        LeiError::InvalidCharacter {
            character: '!',
            position: 18,
            expected: CharacterClass::Alphanumeric,
        }
    );
}

#[test]
fn reports_invalid_check_digits() {
    assert_eq!(
        Lei::parse("5493000IBP32UQZ0KL25"),
        Err(LeiError::InvalidCheckDigits { expected: 24, found: 25 })
    );
}

// ---- trait impls ----

// ---- validation of normalized candidates ----

#[test]
fn accepts_known_real_world_leis() {
    for s in [
        "5493000IBP32UQZ0KL24",
        "213800WSGIIZCXF1P572",
        "506700GE1G29325QX363",
        "54930084UKLVMY22DS16",
    ] {
        assert!(validate(&candidate(s)).is_ok(), "{s} should be valid");
        assert_eq!(residue(&candidate(s)), 1, "{s} residue must be 1");
    }
}

#[test]
fn computes_documented_check_digits() {
    assert_eq!(compute_check_digits(b"5493000IBP32UQZ0KL"), 24);
    assert_eq!(compute_check_digits(b"213800WSGIIZCXF1P5"), 72);
    assert_eq!(compute_check_digits(b"506700GE1G29325QX3"), 63);
    assert_eq!(compute_check_digits(b"54930084UKLVMY22DS"), 16);
}

#[test]
fn folding_matches_the_reference_implementation() {
    for base in [
        "5493000IBP32UQZ0KL",
        "213800WSGIIZCXF1P5",
        "506700GE1G29325QX3",
        "54930084UKLVMY22DS",
        "000000000000000000",
        "ZZZZZZZZZZZZZZZZZZ",
    ] {
        assert_eq!(
            compute_check_digits(base.as_bytes().try_into().unwrap()),
            reference_check_digits(base),
            "{base}"
        );
    }
}

#[test]
fn rejects_lowercase_in_base() {
    let err = validate(&candidate("5493000ibp32UQZ0KL24")).unwrap_err();
    assert_eq!(
        err,
        LeiError::InvalidCharacter {
            character: 'i',
            position: 8,
            expected: CharacterClass::Alphanumeric,
        }
    );
}

#[test]
fn rejects_wrong_check_digits() {
    let err = validate(&candidate("5493000IBP32UQZ0KL25")).unwrap_err();
    assert_eq!(err, LeiError::InvalidCheckDigits { expected: 24, found: 25 });
}

#[test]
fn rejects_residue_one_with_reserved_check_digits() {
    for (s, expected, found) in [
        ("PRKYQO9OOQ90FWGOFC00", 97u8, 0u8),
        ("TS43UAPFUU97VO4FE001", 98, 1),
        ("2MZDL7DS67LXXZ93H099", 2, 99),
    ] {
        assert_eq!(residue(&candidate(s)), 1, "{s} residue must be 1");
        assert_eq!(
            validate(&candidate(s)),
            Err(LeiError::InvalidCheckDigits { expected, found }),
            "{s} must be rejected despite residue 1"
        );
    }
}

// ---- generated values ----

#[test]
fn always_produces_valid_leis() {
    for seed in 0u32..256 {
        let data = seed.to_le_bytes().repeat(8);
        let mut base = [0usize; 18];
        for (i, slot) in base.iter_mut().enumerate() {
            *slot = data[i] as usize % 36;
        }
        let lei = Lei::from_bytes(build_valid_lei_bytes(&base))
            .expect("generated bytes should always validate");
        assert!(Lei::parse(lei.as_str()).is_ok());
        assert_eq!(residue(lei.as_bytes()), 1);
    }
}

// ---- further behaviour ----

#[test]
fn fold_mod_97_reduces_the_expanded_number() {
    assert_eq!(fold_mod_97(0, b"0"), 0);
    assert_eq!(fold_mod_97(0, b"97"), 0);
    assert_eq!(fold_mod_97(0, b"98"), 1);
    // 'A' expands to "10".
    assert_eq!(fold_mod_97(0, b"A"), 10);
    // 1 followed by "00" is 100, and 100 % 97 == 3.
    assert_eq!(fold_mod_97(1, b"00"), 3);
    // No characters leave the remainder as it was, even above 97.
    assert_eq!(fold_mod_97(500, b""), 500);
    assert_eq!(fold_mod_97(500, b"1"), 5001 % 97);
    // "1B" expands to the three digits "111": 5 followed by them is 5111.
    assert_eq!(fold_mod_97(5, b"1B"), 5111 % 97);
    // Folding in two pieces is folding the whole.
    let whole = fold_mod_97(0, b"5493000IBP32UQZ0KL24");
    let first = fold_mod_97(0, b"5493000IBP");
    assert_eq!(fold_mod_97(first, b"32UQZ0KL24"), whole);
}

#[test]
fn lei_non_ascii_reports_the_input_character() {
    assert_eq!(
        Lei::parse("5493000IBP32UQZ0KLÄ4"),
        Err(LeiError::InvalidCharacter {
            character: 'Ä',
            position: 19,
            expected: CharacterClass::Digit,
        })
    );
}

#[test]
fn lei_error_messages() {
    assert_eq!(LeiError::Empty.to_string(), "LEI input is empty");
    assert_eq!(
        LeiError::InvalidLength { found: 19 }.to_string(),
        "LEI must contain exactly 20 characters, found 19"
    );
    assert_eq!(
        LeiError::InvalidCharacter { character: '!', position: 18, expected: CharacterClass::Alphanumeric }
            .to_string(),
        "invalid character '!' at position 18 of 20: expected a digit (0-9) or an uppercase letter (A-Z)"
    );
    assert_eq!(CharacterClass::Digit.to_string(), "a digit (0-9)");
    assert_eq!(
        LeiError::InvalidCheckDigits { expected: 2, found: 5 }.to_string(),
        "invalid check digits at positions 19-20 of 20: expected 02, found 05"
    );
}

#[test]
fn swapping_same_kind_neighbours_is_detected() {
    let bbc = Lei::parse(BBC).unwrap();
    let bytes = *bbc.as_bytes();
    for j in 0..19 {
        let (x, y) = (bytes[j], bytes[j + 1]);
        if x != y && x.is_ascii_digit() == y.is_ascii_digit() {
            let mut swapped = bytes;
            swapped.swap(j, j + 1);
            assert!(Lei::from_bytes(swapped).is_err(), "swap at {j} must be rejected");
        }
    }
}

#[test]
fn swapping_a_digit_and_a_letter_can_go_unnoticed() {
    // '1' then 'B' (11) and 'B' then '1' both expand to "111".
    let mut base = [0usize; 18];
    base[4] = 1;
    base[5] = 11;
    let lei = Lei::from_bytes(build_valid_lei_bytes(&base)).unwrap();
    let mut swapped = *lei.as_bytes();
    swapped.swap(4, 5);
    assert_eq!(&swapped[4..6], b"B1");
    assert!(Lei::from_bytes(swapped).is_ok());
}
