use ftracker_identifiers::cnpj::error::CharacterClass;
use ftracker_identifiers::cnpj::parser::{meaningful_chars, normalize};
use ftracker_identifiers::cnpj::validation::{
    avoid_all_repeated, compute_check_digit, compute_valid_check_digits, validate,
    validate_check_digits, WEIGHTS_DV1,
};
use ftracker_identifiers::{Cnpj, CnpjError, FormattedCnpj};

fn candidate(s: &str) -> [u8; 14] {
    let bytes = s.as_bytes();
    let mut out = [0u8; 14];
    out.copy_from_slice(bytes);
    out
}

const ALPHABET: &[u8; 36] = b"0123456789ABCDEFGHIJKLMNOPQRSTUVWXYZ";

fn build(base: [u8; 12]) -> Cnpj {
    let mut base = base;
    avoid_all_repeated(&mut base);
    let (dv1, dv2) = compute_valid_check_digits(&base);
    let mut bytes = [0u8; 14];
    bytes[..12].copy_from_slice(&base);
    bytes[12] = dv1 + b'0';
    bytes[13] = dv2 + b'0';
    Cnpj::from_bytes(bytes).expect("built CNPJ should validate")
}

// ---- rendering ----

#[test]
fn formats_numeric_cnpj() {
    let cnpj = Cnpj::parse("00000000000191").unwrap();
    assert_eq!(cnpj.formatted().as_str(), "00.000.000/0001-91");
    assert_eq!(cnpj.to_string(), "00.000.000/0001-91");
}

#[test]
fn formats_alphanumeric_cnpj() {
    let cnpj = Cnpj::parse("12ABC34501DE35").unwrap();
    assert_eq!(cnpj.formatted().as_str(), "12.ABC.345/01DE-35");
}

#[test]
fn formatted_value_derefs_and_renders() {
    let formatted: FormattedCnpj = Cnpj::parse("00000000000191").unwrap().formatted();
    let as_ref: &str = formatted.as_ref();
    assert_eq!(as_ref, "00.000.000/0001-91");
    assert_eq!(&*formatted, "00.000.000/0001-91");
    assert_eq!(formatted.len(), 18);
    assert_eq!(formatted.to_string(), "00.000.000/0001-91");
    assert_eq!(formatted.debug_string(), "FormattedCnpj(\"00.000.000/0001-91\")");
    assert_eq!(formatted, Cnpj::parse("00.000.000/0001-91").unwrap().formatted());
}

// ---- normalization ----

#[test]
fn strips_conventional_punctuation() {
    assert_eq!(normalize("12.345.678/0001-95"), normalize("12345678000195"));
}

#[test]
fn formatting_characters_are_dropped_anywhere() {
    assert_eq!(meaningful_chars(" 1.2/3-4 "), vec!['1', '2', '3', '4']);
    assert_eq!(normalize("   "), Err(CnpjError::InvalidLength { found: 0 }));
    assert_eq!(normalize("  00 000 000 0001 91 ").unwrap(), *b"00000000000191");
}

// ---- validation of normalized candidates ----

#[test]
fn accepts_valid_legacy_numeric_cnpj() {
    assert!(validate(&candidate("00000000000191")).is_ok());
}

#[test]
fn accepts_valid_alphanumeric_cnpj() {
    assert!(validate(&candidate("12ABC34501DE35")).is_ok());
}

#[test]
fn rejects_symbol_in_base() {
    let err = validate(&candidate("12!BC34501DE35")).unwrap_err();
    assert_eq!(
        err,
        CnpjError::InvalidCharacter {
            character: '!',
            position: 3,
            expected: CharacterClass::Alphanumeric,
        }
    );
}

#[test]
fn rejects_all_repeated_digit() {
    assert_eq!(validate(&candidate("11111111111111")).unwrap_err(), CnpjError::RepeatedDigits);
}

#[test]
fn rejects_bad_checksum() {
    let err = validate(&candidate("00000000000192")).unwrap_err();
    assert_eq!(err, CnpjError::InvalidCheckDigits { position: 14, expected: 1, found: 2 });
}

#[test]
fn first_check_digit_is_checked_first() {
    let err = validate(&candidate("00000000000181")).unwrap_err();
    assert_eq!(err, CnpjError::InvalidCheckDigits { position: 13, expected: 9, found: 8 });
}

#[test]
fn check_digit_arithmetic() {
    assert_eq!(compute_valid_check_digits(b"000000000001"), (9, 1));
    assert_eq!(compute_valid_check_digits(b"12ABC34501DE"), (3, 5));
    // Weighted sum of twelve ones is 58 and 58 % 11 == 3, so the digit is 11 - 3.
    assert_eq!(compute_check_digit(&[1; 12], &WEIGHTS_DV1), 8);
    // Remainders 0 and 1 give 0.
    assert_eq!(compute_check_digit(&[0; 12], &WEIGHTS_DV1), 0);
}

// ---- construction and accessors ----

#[test]
fn parse_accepts_punctuated_and_compact_forms() {
    let a = Cnpj::parse("00.000.000/0001-91").unwrap();
    let b = Cnpj::parse("00000000000191").unwrap();
    assert_eq!(a, b);
    assert_eq!(Cnpj::new("00000000000191"), Cnpj::parse("00000000000191"));
    assert_eq!(Cnpj::parse("12.abc.345/01de-35").unwrap().as_str(), "12ABC34501DE35");
    assert_eq!(Cnpj::from_bytes(*b.as_bytes()), Ok(b));
}

#[test]
fn exposes_segments_and_digits() {
    let cnpj = Cnpj::parse("00000000000191").unwrap();
    assert_eq!(cnpj.root(), "00000000");
    assert_eq!(cnpj.branch_code(), "0001");
    assert!(cnpj.is_root());
    assert_eq!(cnpj.branch_number(), Some(1));
    assert_eq!(cnpj.check_digits(), (9, 1));

    let branch = Cnpj::parse("11.222.333/0002-62").unwrap();
    assert_eq!(branch.branch_code(), "0002");
    assert!(!branch.is_root());
    assert_eq!(branch.branch_number(), Some(2));

    let alphanumeric = Cnpj::parse("12ABC34501DE35").unwrap();
    assert_eq!(alphanumeric.branch_code(), "01DE");
    assert_eq!(alphanumeric.branch_number(), None);
}

#[test]
fn error_paths() {
    assert_eq!(Cnpj::parse(""), Err(CnpjError::Empty));
    assert_eq!(Cnpj::parse("1234"), Err(CnpjError::InvalidLength { found: 4 }));
    assert_eq!(Cnpj::parse("11.111.111/1111-11"), Err(CnpjError::RepeatedDigits));
    assert_eq!(
        Cnpj::parse("00.000.000/0001-92"),
        Err(CnpjError::InvalidCheckDigits { position: 14, expected: 1, found: 2 })
    );
    assert_eq!(
        Cnpj::parse("00.000.000/000é-91"),
        Err(CnpjError::InvalidCharacter {
            character: 'é',
            position: 12,
            expected: CharacterClass::Alphanumeric,
        })
    );
}

#[test]
fn traits_agree_with_parse() {
    let cnpj = Cnpj::parse("00000000000191").unwrap();
    let via_from_str: Cnpj = "00.000.000/0001-91".parse().unwrap();
    assert_eq!(via_from_str, cnpj);
    assert_eq!(Cnpj::try_from("00000000000191").unwrap(), cnpj);
    assert_eq!(Cnpj::try_from(*b"00000000000191").unwrap(), cnpj);
    let good: &[u8] = b"00000000000191";
    assert_eq!(Cnpj::try_from(good).unwrap(), cnpj);
    let bad: &[u8] = b"0000";
    assert_eq!(Cnpj::try_from(bad), Err(CnpjError::InvalidLength { found: 4 }));
    assert_eq!(cnpj, "00000000000191");
    assert_eq!(cnpj, *"00000000000191");
    assert_eq!("00000000000191", cnpj);
    assert_ne!(cnpj, "00.000.000/0001-91");
    let as_str: &str = cnpj.as_ref();
    let as_bytes: &[u8] = cnpj.as_ref();
    assert_eq!(as_str, "00000000000191");
    assert_eq!(as_bytes, b"00000000000191");
}

#[test]
fn ordering_is_lexicographic_over_bytes() {
    let mut values = [
        Cnpj::parse("12ABC34501DE35").unwrap(),
        Cnpj::parse("00000000000191").unwrap(),
    ];
    values.sort();
    assert_eq!(values[0].as_str(), "00000000000191");
    assert_eq!(values[1].as_str(), "12ABC34501DE35");
}

// ---- generated values ----

#[test]
fn always_produces_valid_cnpjs() {
    for seed in 0u32..256 {
        let data = seed.to_le_bytes().repeat(8);
        let mut base = [0u8; 12];
        for (i, slot) in base.iter_mut().enumerate() {
            *slot = ALPHABET[data[i] as usize % ALPHABET.len()];
        }
        let cnpj = build(base);
        assert!(Cnpj::parse(cnpj.as_str()).is_ok());
        assert_eq!(Cnpj::parse(cnpj.formatted().as_str()), Ok(cnpj));
    }
}

#[test]
fn avoid_all_repeated_changes_only_repeated_bases() {
    let mut zeros = *b"000000000000";
    avoid_all_repeated(&mut zeros);
    assert_eq!(&zeros, b"100000000000");
    let mut ones = *b"111111111111";
    avoid_all_repeated(&mut ones);
    assert_ne!(&ones, b"111111111111");
    let mut mixed = *b"12ABC34501DE";
    avoid_all_repeated(&mut mixed);
    assert_eq!(&mixed, b"12ABC34501DE");
}

#[test]
fn cnpj_error_messages() {
    assert_eq!(CnpjError::Empty.to_string(), "CNPJ input is empty");
    assert_eq!(
        CnpjError::InvalidLength { found: 4 }.to_string(),
        "CNPJ must contain exactly 14 characters once formatting is removed, found 4"
    );
    assert_eq!(
        CnpjError::InvalidCharacter { character: '!', position: 3, expected: CharacterClass::Alphanumeric }
            .to_string(),
        "invalid character '!' at position 3 of 14: expected a digit (0-9) or an uppercase letter (A-Z)"
    );
    assert_eq!(
        CnpjError::InvalidCheckDigits { position: 14, expected: 1, found: 2 }.to_string(),
        "invalid check digit at position 14 of 14: expected 1, found 2"
    );
    assert_eq!(
        CnpjError::RepeatedDigits.to_string(),
        "CNPJ cannot consist of a single character repeated 14 times"
    );
    assert_eq!(CharacterClass::Digit.to_string(), "a digit (0-9)");
}

#[test]
fn cnpj_non_ascii_reports_the_class_of_its_position() {
    assert_eq!(
        normalize("00.000.000/0001-9é"),
        Err(CnpjError::InvalidCharacter { character: 'é', position: 14, expected: CharacterClass::Digit })
    );
    assert_eq!(
        Cnpj::parse("é0.000.000/0001-91"),
        Err(CnpjError::InvalidCharacter {
            character: 'é',
            position: 1,
            expected: CharacterClass::Alphanumeric,
        })
    );
}

#[test]
fn checksum_step_reports_repeated_candidates_too() {
    assert_eq!(
        validate_check_digits(b"11111111111111"),
        Err(CnpjError::InvalidCheckDigits { position: 13, expected: 8, found: 1 })
    );
    assert_eq!(validate_check_digits(b"00000000000191"), Ok(()));
    // The whole validation reports the repeated characters first.
    assert_eq!(validate(b"11111111111111"), Err(CnpjError::RepeatedDigits));
}

#[test]
fn modulo_11_takes_any_weights_whose_sum_fits() {
    // 1000 * 7 + 3 * 100 = 7300, and 7300 % 11 == 7, so the digit is 4.
    assert_eq!(compute_check_digit(&[1000, 3], &[7, 100]), 4);
    assert_eq!(compute_check_digit(&[], &[]), 0);
}
