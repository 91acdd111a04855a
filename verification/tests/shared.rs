//! Behaviour shared by every identifier type: normalization, construction, conversions and
//! rendering, checked for each type in turn.

use std::collections::{BTreeSet, HashSet};

use ftracker_identifiers::cfi::parser::normalize as cfi_normalize;
use ftracker_identifiers::cfi::validation::validate as cfi_validate;
use ftracker_identifiers::cnpj::error::CharacterClass as CnpjClass;
use ftracker_identifiers::cnpj::parser::normalize as cnpj_normalize;
use ftracker_identifiers::cnpj::validation::validate as cnpj_validate;
use ftracker_identifiers::country::parser::normalize as country_normalize;
use ftracker_identifiers::country::validation::validate as country_validate;
use ftracker_identifiers::isin::error::CharacterClass as IsinClass;
use ftracker_identifiers::isin::parser::normalize as isin_normalize;
use ftracker_identifiers::isin::validation::validate as isin_validate;
use ftracker_identifiers::lei::error::CharacterClass as LeiClass;
use ftracker_identifiers::lei::parser::normalize as lei_normalize;
use ftracker_identifiers::lei::validation::validate as lei_validate;
use ftracker_identifiers::{
    Cfi, CfiError, Cnpj, CnpjError, CountryCode, CountryCodeError, Isin, IsinError, Lei, LeiError,
};

const CFI_EQUITY: &str = "ESVUFR";
const COUNTRY_SAMPLE: &str = "US";
const ISIN_APPLE: &str = "US0378331005";
const ISIN_PETROBRAS: &str = "BRPETRACNOR9";
const LEI_BBC: &str = "5493000IBP32UQZ0KL24";
const LEI_JLR: &str = "213800WSGIIZCXF1P572";

fn cfi_candidate(s: &str) -> [u8; 6] {
    let mut out = [0u8; 6];
    out.copy_from_slice(s.as_bytes());
    out
}

fn country_candidate(s: &str) -> [u8; 2] {
    let mut out = [0u8; 2];
    out.copy_from_slice(s.as_bytes());
    out
}

fn isin_candidate(s: &str) -> [u8; 12] {
    let mut out = [0u8; 12];
    out.copy_from_slice(s.as_bytes());
    out
}

fn lei_candidate(s: &str) -> [u8; 20] {
    let mut out = [0u8; 20];
    out.copy_from_slice(s.as_bytes());
    out
}

fn cnpj_candidate(s: &str) -> [u8; 14] {
    let mut out = [0u8; 14];
    out.copy_from_slice(s.as_bytes());
    out
}

#[test]
fn fmt_display_is_the_canonical_string() {
    // CFI
    {
        let cfi = Cfi::parse("ESVUFR").unwrap();
        assert_eq!(cfi.to_string(), "ESVUFR");
    }
    // Country code
    {
        let code = CountryCode::parse("US").unwrap();
        assert_eq!(code.to_string(), "US");
    }
    // ISIN
    {
        let isin = Isin::parse(ISIN_APPLE).unwrap();
        assert_eq!(isin.to_string(), "US0378331005");
    }
    // LEI
    {
        let lei = Lei::parse(LEI_BBC).unwrap();
        assert_eq!(lei.to_string(), "5493000IBP32UQZ0KL24");
    }
}

#[test]
fn fmt_debug_is_readable() {
    // CFI
    {
        let cfi = Cfi::parse("ESVUFR").unwrap();
        assert_eq!(cfi.debug_string(), "Cfi(\"ESVUFR\")");
    }
    // Country code
    {
        let code = CountryCode::parse("US").unwrap();
        assert_eq!(code.debug_string(), "CountryCode(\"US\")");
    }
    // ISIN
    {
        let isin = Isin::parse(ISIN_APPLE).unwrap();
        assert_eq!(isin.debug_string(), "Isin(\"US0378331005\")");
    }
    // LEI
    {
        let lei = Lei::parse(LEI_BBC).unwrap();
        assert_eq!(lei.debug_string(), "Lei(\"5493000IBP32UQZ0KL24\")");
    }
    // CNPJ
    {
        let cnpj = Cnpj::parse("00000000000191").unwrap();
        assert_eq!(cnpj.debug_string(), "Cnpj(\"00.000.000/0001-91\")");
    }
}

#[test]
fn parser_rejects_empty() {
    // CFI
    {
        assert_eq!(cfi_normalize(""), Err(CfiError::Empty));
    }
    // Country code
    {
        assert_eq!(country_normalize(""), Err(CountryCodeError::Empty));
    }
    // ISIN
    {
        assert_eq!(isin_normalize(""), Err(IsinError::Empty));
    }
    // LEI
    {
        assert_eq!(lei_normalize(""), Err(LeiError::Empty));
    }
    // CNPJ
    {
        assert_eq!(cnpj_normalize(""), Err(CnpjError::Empty));
    }
}

#[test]
fn parser_trims_surrounding_whitespace() {
    // CFI
    {
        assert_eq!(cfi_normalize("  ESVUFR "), cfi_normalize("ESVUFR"));
    }
    // Country code
    {
        assert_eq!(country_normalize("  US "), country_normalize("US"));
    }
    // ISIN
    {
        assert_eq!(isin_normalize("  US0378331005 "), isin_normalize("US0378331005"));
    }
    // LEI
    {
        assert_eq!(lei_normalize("  5493000IBP32UQZ0KL24 "), lei_normalize("5493000IBP32UQZ0KL24"));
    }
}

#[test]
fn parser_uppercases_letters() {
    // CFI
    {
        assert_eq!(cfi_normalize("esvufr").unwrap(), *b"ESVUFR");
    }
    // Country code
    {
        assert_eq!(country_normalize("us").unwrap(), *b"US");
    }
    // ISIN
    {
        assert_eq!(isin_normalize("us0378331005").unwrap(), *b"US0378331005");
    }
    // LEI
    {
        assert_eq!(lei_normalize("5493000ibp32uqz0kl24").unwrap(), *b"5493000IBP32UQZ0KL24");
    }
    // CNPJ
    {
        assert_eq!(cnpj_normalize("12abc34501de35").unwrap(), *b"12ABC34501DE35");
    }
}

#[test]
fn parser_rejects_wrong_length() {
    // CFI
    {
        assert_eq!(cfi_normalize("ESVU"), Err(CfiError::InvalidLength { found: 4 }));
    }
    // Country code
    {
        assert_eq!(country_normalize("USA"), Err(CountryCodeError::InvalidLength { found: 3 }));
    }
    // ISIN
    {
        assert_eq!(isin_normalize("US037833100"), Err(IsinError::InvalidLength { found: 11 }));
    }
    // LEI
    {
        assert_eq!(lei_normalize("5493000IBP32UQZ0KL2"), Err(LeiError::InvalidLength { found: 19 }));
    }
    // CNPJ
    {
        assert_eq!(cnpj_normalize("1234"), Err(CnpjError::InvalidLength { found: 4 }));
    }
}

#[test]
fn parser_whitespace_only_is_a_length_error() {
    // CFI
    {
        assert_eq!(cfi_normalize("   "), Err(CfiError::InvalidLength { found: 0 }));
    }
    // Country code
    {
        assert_eq!(country_normalize("   "), Err(CountryCodeError::InvalidLength { found: 0 }));
    }
    // ISIN
    {
        assert_eq!(isin_normalize("   "), Err(IsinError::InvalidLength { found: 0 }));
    }
    // LEI
    {
        assert_eq!(lei_normalize("   "), Err(LeiError::InvalidLength { found: 0 }));
    }
}

#[test]
fn parser_keeps_interior_characters_for_validation() {
    // CFI
    {
        assert_eq!(cfi_normalize("ES VFR").unwrap(), *b"ES VFR");
    }
    // ISIN
    {
        assert_eq!(isin_normalize("US 378331005").unwrap(), *b"US 378331005");
    }
    // LEI
    {
        assert_eq!(
            lei_normalize("5493000IBP32UQZ0KL2 ".replace(' ', "_").as_str()),
            Ok(*b"5493000IBP32UQZ0KL2_")
        );
    }
}

#[test]
fn parser_rejects_non_ascii() {
    // CFI
    {
        let err = cfi_normalize("ESVUF£").unwrap_err();
        assert!(matches!(err, CfiError::InvalidCharacter { character: '£', .. }));
    }
    // Country code
    {
        let err = country_normalize("U£").unwrap_err();
        assert!(matches!(err, CountryCodeError::InvalidCharacter { character: '£', .. }));
    }
    // ISIN
    {
        let err = isin_normalize("US03783310£5").unwrap_err();
        assert!(matches!(err, IsinError::InvalidCharacter { character: '£', .. }));
    }
    // LEI
    {
        let err = lei_normalize("5493000IBP32UQZ0KL2£").unwrap_err();
        assert!(matches!(err, LeiError::InvalidCharacter { character: '£', .. }));
    }
    // CNPJ
    {
        let err = cnpj_normalize("12ç45678000195").unwrap_err();
        assert!(matches!(err, CnpjError::InvalidCharacter { character: 'ç', .. }));
    }
}

#[test]
fn tests_parse_accepts_canonical_input() {
    // CFI
    {
        assert!(Cfi::parse(CFI_EQUITY).is_ok());
    }
    // Country code
    {
        assert!(CountryCode::parse(COUNTRY_SAMPLE).is_ok());
    }
    // LEI
    {
        assert!(Lei::parse(LEI_BBC).is_ok());
    }
}

#[test]
fn tests_parse_accepts_lowercase() {
    // CFI
    {
        assert_eq!(Cfi::parse("esvufr").unwrap(), Cfi::parse(CFI_EQUITY).unwrap());
    }
    // Country code
    {
        assert_eq!(CountryCode::parse("us").unwrap(), CountryCode::parse(COUNTRY_SAMPLE).unwrap());
    }
}

#[test]
fn tests_parse_tolerates_surrounding_whitespace() {
    // CFI
    {
        assert_eq!(Cfi::parse("  ESVUFR ").unwrap(), Cfi::parse(CFI_EQUITY).unwrap());
    }
    // Country code
    {
        assert_eq!(CountryCode::parse("  US ").unwrap(), CountryCode::parse(COUNTRY_SAMPLE).unwrap());
    }
}

#[test]
fn tests_new_is_an_alias_for_parse() {
    // CFI
    {
        assert_eq!(Cfi::new(CFI_EQUITY), Cfi::parse(CFI_EQUITY));
    }
    // Country code
    {
        assert_eq!(CountryCode::new(COUNTRY_SAMPLE), CountryCode::parse(COUNTRY_SAMPLE));
    }
    // ISIN
    {
        assert_eq!(Isin::new(ISIN_APPLE), Isin::parse(ISIN_APPLE));
    }
    // LEI
    {
        assert_eq!(Lei::new(LEI_BBC), Lei::parse(LEI_BBC));
    }
}

#[test]
fn tests_from_bytes_round_trips_with_as_bytes() {
    // CFI
    {
        let cfi = Cfi::parse(CFI_EQUITY).unwrap();
        let rebuilt = Cfi::from_bytes(*cfi.as_bytes()).unwrap();
        assert_eq!(cfi, rebuilt);
    }
    // Country code
    {
        let code = CountryCode::parse(COUNTRY_SAMPLE).unwrap();
        let rebuilt = CountryCode::from_bytes(*code.as_bytes()).unwrap();
        assert_eq!(code, rebuilt);
    }
    // ISIN
    {
        let isin = Isin::parse(ISIN_PETROBRAS).unwrap();
        let rebuilt = Isin::from_bytes(*isin.as_bytes()).unwrap();
        assert_eq!(isin, rebuilt);
    }
    // LEI
    {
        let lei = Lei::parse(LEI_JLR).unwrap();
        let rebuilt = Lei::from_bytes(*lei.as_bytes()).unwrap();
        assert_eq!(lei, rebuilt);
    }
}

#[test]
fn tests_empty_input_is_rejected() {
    // CFI
    {
        assert_eq!(Cfi::parse(""), Err(CfiError::Empty));
    }
    // Country code
    {
        assert_eq!(CountryCode::parse(""), Err(CountryCodeError::Empty));
    }
    // ISIN
    {
        assert_eq!(Isin::parse(""), Err(IsinError::Empty));
    }
    // LEI
    {
        assert_eq!(Lei::parse(""), Err(LeiError::Empty));
    }
}

#[test]
fn tests_wrong_length_is_rejected() {
    // CFI
    {
        assert_eq!(Cfi::parse("ESVU"), Err(CfiError::InvalidLength { found: 4 }));
    }
    // Country code
    {
        assert_eq!(CountryCode::parse("USA"), Err(CountryCodeError::InvalidLength { found: 3 }));
    }
}

#[test]
fn tests_exposes_raw_forms() {
    // CFI
    {
        let cfi = Cfi::parse(CFI_EQUITY).unwrap();
        assert_eq!(cfi.as_str(), "ESVUFR");
        assert_eq!(cfi.as_bytes(), b"ESVUFR");
    }
    // Country code
    {
        let code = CountryCode::parse(COUNTRY_SAMPLE).unwrap();
        assert_eq!(code.as_str(), "US");
        assert_eq!(code.as_bytes(), b"US");
    }
}

#[test]
fn tests_non_letter_is_a_character_error() {
    // CFI
    {
        assert_eq!(
            Cfi::parse("ESVUF1"),
            Err(CfiError::InvalidCharacter { character: '1', position: 6 })
        );
    }
    // Country code
    {
        assert_eq!(
            CountryCode::parse("U1"),
            Err(CountryCodeError::InvalidCharacter { character: '1', position: 2 })
        );
    }
}

#[test]
fn tests_from_str_matches_parse() {
    // CFI
    {
        let via_from_str: Cfi = "ESVUFR".parse().unwrap();
        assert_eq!(via_from_str, Cfi::parse(CFI_EQUITY).unwrap());
    }
    // Country code
    {
        let via_from_str: CountryCode = "US".parse().unwrap();
        assert_eq!(via_from_str, CountryCode::parse(COUNTRY_SAMPLE).unwrap());
    }
}

#[test]
fn tests_try_from_matches_parse() {
    // CFI
    {
        let via_try: Cfi = Cfi::try_from("ESVUFR").unwrap();
        assert_eq!(via_try, Cfi::parse(CFI_EQUITY).unwrap());
    }
    // Country code
    {
        let via_try: CountryCode = CountryCode::try_from("US").unwrap();
        assert_eq!(via_try, CountryCode::parse(COUNTRY_SAMPLE).unwrap());
    }
}

#[test]
fn tests_try_from_byte_array_matches_from_bytes() {
    // CFI
    {
        assert_eq!(Cfi::try_from(*b"ESVUFR").unwrap(), Cfi::parse(CFI_EQUITY).unwrap());
    }
    // Country code
    {
        assert_eq!(CountryCode::try_from(*b"US").unwrap(), CountryCode::parse(COUNTRY_SAMPLE).unwrap());
    }
}

#[test]
fn tests_try_from_byte_slice_validates_length() {
    // CFI
    {
        let good: &[u8] = b"ESVUFR";
        assert_eq!(Cfi::try_from(good).unwrap(), Cfi::parse(CFI_EQUITY).unwrap());

        let bad: &[u8] = b"ESV";
        assert_eq!(Cfi::try_from(bad), Err(CfiError::InvalidLength { found: 3 }));
    }
    // Country code
    {
        let good: &[u8] = b"US";
        assert_eq!(CountryCode::try_from(good).unwrap(), CountryCode::parse(COUNTRY_SAMPLE).unwrap());

        let bad: &[u8] = b"USA";
        assert_eq!(CountryCode::try_from(bad), Err(CountryCodeError::InvalidLength { found: 3 }));
    }
    // ISIN
    {
        let good: &[u8] = b"US0378331005";
        assert_eq!(Isin::try_from(good).unwrap(), Isin::parse(ISIN_APPLE).unwrap());

        let short: &[u8] = b"US03783310";
        assert_eq!(Isin::try_from(short), Err(IsinError::InvalidLength { found: 10 }));
    }
    // LEI
    {
        let good: &[u8] = b"5493000IBP32UQZ0KL24";
        assert_eq!(Lei::try_from(good).unwrap(), Lei::parse(LEI_BBC).unwrap());

        let short: &[u8] = b"5493000IBP32UQZ0KL2";
        assert_eq!(Lei::try_from(short), Err(LeiError::InvalidLength { found: 19 }));
    }
}

#[test]
fn tests_partial_eq_with_str() {
    // CFI
    {
        let cfi = Cfi::parse(CFI_EQUITY).unwrap();
        assert_eq!(cfi, "ESVUFR");
        assert_eq!(cfi, *"ESVUFR");
        assert_eq!("ESVUFR", cfi);
        assert_ne!(cfi, "DBFTFB");
    }
    // Country code
    {
        let code = CountryCode::parse(COUNTRY_SAMPLE).unwrap();
        assert_eq!(code, "US");
        assert_eq!(code, *"US");
        assert_eq!("US", code);
        assert_ne!(code, "BR");
    }
    // ISIN
    {
        let isin = Isin::parse(ISIN_APPLE).unwrap();
        assert_eq!(isin, *"US0378331005");
        assert_eq!(isin, "US0378331005");
        assert_eq!("US0378331005", isin);
        assert_ne!(isin, "US0000000000");
    }
    // LEI
    {
        let lei = Lei::parse(LEI_BBC).unwrap();
        assert_eq!(lei, *"5493000IBP32UQZ0KL24");
        assert_eq!(lei, "5493000IBP32UQZ0KL24");
        assert_eq!("5493000IBP32UQZ0KL24", lei);
        assert_ne!(lei, "0000000000000000000O");
    }
}

#[test]
fn tests_as_ref_str_and_bytes() {
    // CFI
    {
        let cfi = Cfi::parse(CFI_EQUITY).unwrap();
        let as_str: &str = cfi.as_ref();
        let as_bytes: &[u8] = cfi.as_ref();
        assert_eq!(as_str, "ESVUFR");
        assert_eq!(as_bytes, b"ESVUFR");
    }
    // Country code
    {
        let code = CountryCode::parse(COUNTRY_SAMPLE).unwrap();
        let as_str: &str = code.as_ref();
        let as_bytes: &[u8] = code.as_ref();
        assert_eq!(as_str, "US");
        assert_eq!(as_bytes, b"US");
    }
}

#[test]
fn tests_display_is_canonical() {
    // CFI
    {
        assert_eq!(Cfi::parse(CFI_EQUITY).unwrap().to_string(), "ESVUFR");
    }
    // Country code
    {
        assert_eq!(CountryCode::parse(COUNTRY_SAMPLE).unwrap().to_string(), "US");
    }
}

#[test]
fn tests_ordering_is_lexicographic() {
    // CFI
    {
        let mut cfis = [
            Cfi::parse("ESVUFR").unwrap(),
            Cfi::parse("DBFTFB").unwrap(),
            Cfi::parse("ESVUFR").unwrap(),
        ];
        cfis.sort();
        assert_eq!(cfis[0].as_str(), "DBFTFB");
        assert_eq!(cfis[1].as_str(), "ESVUFR");
    }
    // Country code
    {
        let mut codes = [
            CountryCode::parse("US").unwrap(),
            CountryCode::parse("BR").unwrap(),
            CountryCode::parse("US").unwrap(),
        ];
        codes.sort();
        assert_eq!(codes[0].as_str(), "BR");
        assert_eq!(codes[1].as_str(), "US");
    }
}

#[test]
fn validation_rejects_lowercase_as_character_class() {
    // CFI
    {
        let err = cfi_validate(&cfi_candidate("esvufr")).unwrap_err();
        assert_eq!(err, CfiError::InvalidCharacter { character: 'e', position: 1 });
    }
    // Country code
    {
        let err = country_validate(&country_candidate("us")).unwrap_err();
        assert_eq!(err, CountryCodeError::InvalidCharacter { character: 'u', position: 1 });
    }
}

#[test]
fn validation_rejects_digit_as_character_class() {
    // CFI
    {
        let err = cfi_validate(&cfi_candidate("ESVUF1")).unwrap_err();
        assert_eq!(err, CfiError::InvalidCharacter { character: '1', position: 6 });
    }
    // Country code
    {
        let err = country_validate(&country_candidate("U1")).unwrap_err();
        assert_eq!(err, CountryCodeError::InvalidCharacter { character: '1', position: 2 });
    }
}

#[test]
fn tests_parse_accepts_lowercase_letters() {
    // ISIN
    {
        assert_eq!(Isin::parse("us0378331005").unwrap(), Isin::parse(ISIN_APPLE).unwrap());
    }
    // LEI
    {
        assert_eq!(Lei::parse("5493000ibp32uqz0kl24").unwrap(), Lei::parse(LEI_BBC).unwrap());
    }
}

#[test]
fn tests_parse_trims_surrounding_whitespace() {
    // ISIN
    {
        assert_eq!(Isin::parse("  US0378331005\t").unwrap(), Isin::parse(ISIN_APPLE).unwrap());
    }
    // LEI
    {
        assert_eq!(Lei::parse("  5493000IBP32UQZ0KL24\t").unwrap(), Lei::parse(LEI_BBC).unwrap());
    }
}

#[test]
fn tests_segments_are_split_correctly() {
    // ISIN
    {
        let isin = Isin::parse(ISIN_APPLE).unwrap();
        assert_eq!(isin.country_code(), "US");
        assert_eq!(isin.nsin(), "037833100");
        assert_eq!(isin.check_digit(), 5);
        assert_eq!(isin.as_str(), "US0378331005");
    }
    // LEI
    {
        let lei = Lei::parse(LEI_BBC).unwrap();
        assert_eq!(lei.lou_prefix(), "5493");
        assert_eq!(lei.entity_id(), "000IBP32UQZ0KL");
        assert_eq!(lei.check_digits(), 24);
        assert_eq!(lei.as_str(), "5493000IBP32UQZ0KL24");
    }
}

#[test]
fn tests_reports_invalid_length() {
    // ISIN
    {
        assert_eq!(Isin::parse("US03783310"), Err(IsinError::InvalidLength { found: 10 }));
    }
    // LEI
    {
        assert_eq!(Lei::parse("5493000IBP32UQZ0KL2"), Err(LeiError::InvalidLength { found: 19 }));
    }
}

#[test]
fn tests_reports_non_digit_in_check_position() {
    // ISIN
    {
        let err = Isin::parse("US037833100X").unwrap_err();
        assert_eq!(
            err,
            IsinError::InvalidCharacter {
                character: 'X',
                position: 12,
                expected: IsinClass::Digit,
            }
        );
    }
    // LEI
    {
        let err = Lei::parse("5493000IBP32UQZ0KLX4").unwrap_err();
        assert_eq!(
            err,
            LeiError::InvalidCharacter {
                character: 'X',
                position: 19,
                expected: LeiClass::Digit,
            }
        );
    }
}

#[test]
fn tests_error_messages_are_human_readable() {
    // ISIN
    {
        assert_eq!(Isin::parse("").unwrap_err().to_string(), "ISIN input is empty");
    }
    // LEI
    {
        assert_eq!(Lei::parse("").unwrap_err().to_string(), "LEI input is empty");
    }
}

#[test]
fn tests_from_str_delegates_to_parse() {
    // ISIN
    {
        let a: Isin = ISIN_APPLE.parse().unwrap();
        let b = Isin::parse(ISIN_APPLE).unwrap();
        assert_eq!(a, b);
    }
    // LEI
    {
        let a: Lei = LEI_BBC.parse().unwrap();
        let b = Lei::parse(LEI_BBC).unwrap();
        assert_eq!(a, b);
    }
}

#[test]
fn tests_try_from_str_delegates_to_parse() {
    // ISIN
    {
        let a = Isin::try_from(ISIN_APPLE).unwrap();
        let b = Isin::parse(ISIN_APPLE).unwrap();
        assert_eq!(a, b);
    }
    // LEI
    {
        let a = Lei::try_from(LEI_BBC).unwrap();
        let b = Lei::parse(LEI_BBC).unwrap();
        assert_eq!(a, b);
    }
}

#[test]
fn tests_try_from_byte_array_delegates_to_from_bytes() {
    // ISIN
    {
        let a = Isin::try_from(*b"US0378331005").unwrap();
        assert_eq!(a, Isin::parse(ISIN_APPLE).unwrap());
    }
    // LEI
    {
        let a = Lei::try_from(*b"5493000IBP32UQZ0KL24").unwrap();
        assert_eq!(a, Lei::parse(LEI_BBC).unwrap());
    }
}

#[test]
fn tests_as_ref_bytes_matches_as_bytes() {
    // ISIN
    {
        let isin = Isin::parse(ISIN_APPLE).unwrap();
        let as_ref: &[u8] = isin.as_ref();
        assert_eq!(as_ref, isin.as_bytes().as_slice());
    }
    // LEI
    {
        let lei = Lei::parse(LEI_BBC).unwrap();
        let as_ref: &[u8] = lei.as_ref();
        assert_eq!(as_ref, lei.as_bytes().as_slice());
    }
}

#[test]
fn tests_as_ref_str_matches_as_str() {
    // ISIN
    {
        let isin = Isin::parse(ISIN_APPLE).unwrap();
        let as_ref: &str = isin.as_ref();
        assert_eq!(as_ref, isin.as_str());
    }
    // LEI
    {
        let lei = Lei::parse(LEI_BBC).unwrap();
        let as_ref: &str = lei.as_ref();
        assert_eq!(as_ref, lei.as_str());
    }
}

#[test]
#[allow(clippy::clone_on_copy)]
fn tests_is_copy_and_clone() {
    // ISIN
    {
        let isin = Isin::parse(ISIN_APPLE).unwrap();
        let copied = isin;
        assert_eq!(isin, copied);
        assert_eq!(isin, isin.clone());
    }
    // LEI
    {
        let lei = Lei::parse(LEI_BBC).unwrap();
        let copied = lei;
        assert_eq!(lei, copied);
        assert_eq!(lei, lei.clone());
    }
}

#[test]
fn tests_ordering_is_lexicographic_over_bytes() {
    // ISIN
    {
        let de = Isin::parse("DE0001102333").unwrap();
        let us = Isin::parse(ISIN_APPLE).unwrap();
        assert!(de < us);
    }
    // LEI
    {
        let jlr = Lei::parse(LEI_JLR).unwrap();
        let bbc = Lei::parse(LEI_BBC).unwrap();
        assert!(jlr < bbc);
    }
}

#[test]
fn tests_works_as_a_hashset_key() {
    // ISIN
    {
        let mut set = HashSet::new();
        set.insert(Isin::parse(ISIN_APPLE).unwrap());
        assert!(set.contains(&Isin::parse(ISIN_APPLE).unwrap()));
    }
    // LEI
    {
        let mut set = HashSet::new();
        set.insert(Lei::parse(LEI_BBC).unwrap());
        assert!(set.contains(&Lei::parse(LEI_BBC).unwrap()));
    }
}

#[test]
fn tests_works_as_a_btree_set_key() {
    // ISIN
    {
        let mut set = BTreeSet::new();
        set.insert(Isin::parse(ISIN_APPLE).unwrap());
        set.insert(Isin::parse(ISIN_PETROBRAS).unwrap());
        assert_eq!(set.len(), 2);
    }
    // LEI
    {
        let mut set = BTreeSet::new();
        set.insert(Lei::parse(LEI_BBC).unwrap());
        set.insert(Lei::parse(LEI_JLR).unwrap());
        assert_eq!(set.len(), 2);
    }
}

#[test]
fn tests_display_and_debug_are_both_readable() {
    // ISIN
    {
        let isin = Isin::parse(ISIN_APPLE).unwrap();
        assert_eq!(isin.to_string(), "US0378331005");
        assert_eq!(isin.debug_string(), "Isin(\"US0378331005\")");
    }
    // LEI
    {
        let lei = Lei::parse(LEI_BBC).unwrap();
        assert_eq!(lei.to_string(), "5493000IBP32UQZ0KL24");
        assert_eq!(lei.debug_string(), "Lei(\"5493000IBP32UQZ0KL24\")");
    }
}

#[test]
fn validation_rejects_letter_in_check_digit_position() {
    // ISIN
    {
        let err = isin_validate(&isin_candidate("US037833100X")).unwrap_err();
        assert_eq!(
            err,
            IsinError::InvalidCharacter {
                character: 'X',
                position: 12,
                expected: IsinClass::Digit,
            }
        );
    }
    // LEI
    {
        let err = lei_validate(&lei_candidate("5493000IBP32UQZ0KLX4")).unwrap_err();
        assert_eq!(
            err,
            LeiError::InvalidCharacter {
                character: 'X',
                position: 19,
                expected: LeiClass::Digit,
            }
        );
    }
    // CNPJ
    {
        let err = cnpj_validate(&cnpj_candidate("12ABC34501DEA5")).unwrap_err();
        assert_eq!(
            err,
            CnpjError::InvalidCharacter {
                character: 'A',
                position: 13,
                expected: CnpjClass::Digit,
            }
        );
    }
}

#[test]
fn validation_rejects_adjacent_transposition() {
    // ISIN
    {
        assert!(isin_validate(&isin_candidate("US3078331005")).is_err());
    }
    // LEI
    {
        assert!(lei_validate(&lei_candidate("5493000IBP32UQ0ZKL24")).is_err());
    }
}
