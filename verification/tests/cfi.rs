use ftracker_identifiers::cfi::parser::normalize;
use ftracker_identifiers::cfi::table::{GROUP_COUNT, TAXONOMY};
use ftracker_identifiers::cfi::validation::{build_valid_cfi_bytes, nth_letter, validate};
use ftracker_identifiers::{Cfi, CfiError};

const EQUITY: &str = "ESVUFR";

fn candidate(s: &str) -> [u8; 6] {
    let bytes = s.as_bytes();
    let mut out = [0u8; 6];
    out.copy_from_slice(bytes);
    out
}

// ---- rendering ----

// ---- normalization ----

// ---- construction ----

// ---- accessors ----

#[test]
fn exposes_segments() {
    let cfi = Cfi::parse(EQUITY).unwrap();
    assert_eq!(cfi.category(), 'E');
    assert_eq!(cfi.group(), 'S');
    assert_eq!(cfi.attributes(), ['V', 'U', 'F', 'R']);
}

// ---- taxonomy rejections ----

#[test]
fn unknown_category() {
    assert_eq!(Cfi::parse("QSVUFR"), Err(CfiError::UnknownCategory { code: 'Q' }));
}

#[test]
fn unknown_group() {
    assert_eq!(
        Cfi::parse("EZVUFR"),
        Err(CfiError::UnknownGroup { category: 'E', code: 'Z' })
    );
}

#[test]
fn invalid_attribute() {
    assert_eq!(
        Cfi::parse("ESZUFR"),
        Err(CfiError::InvalidAttribute { category: 'E', group: 'S', index: 1, code: 'Z' })
    );
}

// ---- traits ----

// ---- validation of normalized candidates ----

#[test]
fn accepts_known_valid_cfis() {
    for s in ["ESVUFR", "ESVTOB", "DBFTFB", "MCATXB", "OCASNS"] {
        assert!(validate(&candidate(s)).is_ok(), "{s} should be valid");
    }
}

#[test]
fn rejects_unknown_category() {
    let err = validate(&candidate("QSVUFR")).unwrap_err();
    assert_eq!(err, CfiError::UnknownCategory { code: 'Q' });
}

#[test]
fn rejects_unknown_group() {
    let err = validate(&candidate("EZVUFR")).unwrap_err();
    assert_eq!(err, CfiError::UnknownGroup { category: 'E', code: 'Z' });
}

#[test]
fn rejects_invalid_attribute() {
    let err = validate(&candidate("ESXUFR")).unwrap_err();
    assert_eq!(
        err,
        CfiError::InvalidAttribute { category: 'E', group: 'S', index: 1, code: 'X' }
    );
}

// ---- generated values ----

#[test]
fn always_produces_valid_cfis() {
    for seed in 0u32..256 {
        let data = seed.to_le_bytes().repeat(8);
        let row = data[0] as usize % GROUP_COUNT;
        let selectors = [data[1] as usize, data[2] as usize, data[3] as usize, data[4] as usize];
        let cfi = Cfi::from_bytes(build_valid_cfi_bytes(row, selectors))
            .expect("generated bytes should always validate");
        assert!(Cfi::parse(cfi.as_str()).is_ok());
    }
}

#[test]
fn every_taxonomy_group_builds_a_valid_cfi() {
    for row in 0..GROUP_COUNT {
        let bytes = build_valid_cfi_bytes(row, [0, 1, 2, 3]);
        assert_eq!(bytes[0] as u32, TAXONOMY[row][0]);
        assert_eq!(bytes[1] as u32, TAXONOMY[row][1]);
        let cfi = Cfi::from_bytes(bytes).unwrap();
        assert_eq!(Cfi::parse(cfi.as_str()), Ok(cfi));
    }
}

#[test]
fn nth_letter_walks_permitted_letters_in_order() {
    // Mask permitting A, C and Z.
    let mask = 1 | (1 << 2) | (1 << 25);
    assert_eq!(nth_letter(mask, 0), b'A');
    assert_eq!(nth_letter(mask, 1), b'C');
    assert_eq!(nth_letter(mask, 2), b'Z');
    assert_eq!(nth_letter(mask, 3), b'A');
    assert_eq!(nth_letter(mask, 7), b'C');
}

#[test]
fn invalid_attribute_reports_later_positions() {
    assert_eq!(
        Cfi::parse("ESVZFR"),
        Err(CfiError::InvalidAttribute { category: 'E', group: 'S', index: 2, code: 'Z' })
    );
    assert_eq!(
        Cfi::parse("ESVUFA"),
        Err(CfiError::InvalidAttribute { category: 'E', group: 'S', index: 4, code: 'A' })
    );
}

#[test]
fn lowercase_input_reports_folded_taxonomy_codes() {
    assert_eq!(Cfi::parse("qsvufr"), Err(CfiError::UnknownCategory { code: 'Q' }));
}

#[test]
fn character_error_reports_the_first_offending_position() {
    assert_eq!(
        Cfi::parse("E1VU2R"),
        Err(CfiError::InvalidCharacter { character: '1', position: 2 })
    );
}

#[test]
fn cfi_non_ascii_reports_the_input_character() {
    assert_eq!(
        Cfi::parse("ÉSVUFR"),
        Err(CfiError::InvalidCharacter { character: 'É', position: 1 })
    );
}

#[test]
fn cfi_error_messages() {
    assert_eq!(CfiError::Empty.to_string(), "CFI input is empty");
    assert_eq!(
        CfiError::InvalidLength { found: 4 }.to_string(),
        "CFI must contain exactly 6 characters, found 4"
    );
    assert_eq!(
        CfiError::InvalidCharacter { character: '1', position: 6 }.to_string(),
        "invalid character '1' at position 6 of 6: expected an uppercase letter (A-Z)"
    );
    assert_eq!(
        CfiError::UnknownCategory { code: 'Q' }.to_string(),
        "unknown CFI category 'Q' at position 1"
    );
    assert_eq!(
        CfiError::UnknownGroup { category: 'E', code: 'Z' }.to_string(),
        "unknown CFI group 'Z' at position 2 for category 'E'"
    );
    assert_eq!(
        CfiError::InvalidAttribute { category: 'E', group: 'S', index: 1, code: 'Z' }.to_string(),
        "invalid CFI attribute 'Z' at position 3 (attribute 1) for category 'E' group 'S'"
    );
}

#[test]
fn debug_and_display_of_every_generated_value() {
    let cfi = Cfi::from_bytes(build_valid_cfi_bytes(0, [0, 0, 0, 0])).unwrap();
    assert_eq!(cfi.debug_string(), format!("Cfi(\"{}\")", cfi.as_str()));
    assert_eq!(cfi.to_string(), cfi.as_str());
}
