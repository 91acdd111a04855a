//! Invariant oracles run over many deterministic inputs: arbitrary text, arbitrary bytes,
//! candidates with the right shape, and generated valid values.

use ftracker_identifiers::cfi::table::GROUP_COUNT;
use ftracker_identifiers::cfi::validation::build_valid_cfi_bytes;
use ftracker_identifiers::cnpj::validation::{avoid_all_repeated, compute_valid_check_digits};
use ftracker_identifiers::country::table::ASSIGNED_CODES;
use ftracker_identifiers::isin::validation::build_valid_isin_bytes;
use ftracker_identifiers::lei::validation::build_valid_lei_bytes;
use ftracker_identifiers::{
    Cfi, CfiError, Cnpj, CnpjError, CountryCode, CountryCodeError, Isin, IsinError, Lei, LeiError,
};

const LETTERS: &[u8] = b"ABCDEFGHIJKLMNOPQRSTUVWXYZ";
const ALPHANUMERIC: &[u8] = b"ABCDEFGHIJKLMNOPQRSTUVWXYZ0123456789";
const DIGITS: &[u8] = b"0123456789";

/// Deterministic pseudo-random byte strings of assorted lengths, including punctuation, spaces,
/// lowercase letters and multi-byte characters.
fn samples() -> Vec<Vec<u8>> {
    let mut out = Vec::new();
    let mut state: u64 = 0x9E37_79B9_7F4A_7C15;
    for n in 0..600usize {
        let len = n % 25;
        let mut v = Vec::with_capacity(len);
        for _ in 0..len {
            state ^= state << 13;
            state ^= state >> 7;
            state ^= state << 17;
            let alphabet = b" .-/0123456789ABCDEFGHIJKLMNOPQRSTUVWXYZabcxyz\t!";
            v.push(alphabet[(state % alphabet.len() as u64) as usize]);
        }
        out.push(v);
    }
    out.push("ESVUF£".as_bytes().to_vec());
    out.push("12.ABC.345/01DÉ-35".as_bytes().to_vec());
    out
}

fn pick(set: &[u8], data: &[u8], i: usize) -> char {
    set[(data[i % data.len()] as usize) % set.len()] as char
}

fn check_cfi(value: Cfi) {
    assert_eq!(std::str::from_utf8(value.as_bytes()), Ok(value.as_str()));
    assert_eq!(value.as_str().len(), 6);
    assert!(value.as_bytes().iter().all(|b| b.is_ascii_uppercase()));
    let chars: Vec<char> = value.as_str().chars().collect();
    assert_eq!(value.category(), chars[0]);
    assert_eq!(value.group(), chars[1]);
    assert_eq!(value.attributes(), [chars[2], chars[3], chars[4], chars[5]]);
    assert_eq!(Cfi::parse(value.as_str()), Ok(value));
    assert_eq!(Cfi::new(value.as_str()), Ok(value));
    assert_eq!(Cfi::from_bytes(*value.as_bytes()), Ok(value));
    assert_eq!(value.as_str().parse::<Cfi>(), Ok(value));
    assert_eq!(Cfi::try_from(value.as_str()), Ok(value));
    assert_eq!(Cfi::try_from(*value.as_bytes()), Ok(value));
    assert_eq!(Cfi::try_from(value.as_bytes().as_slice()), Ok(value));
    assert_eq!(value, *value.as_str());
    assert_eq!(value, value.as_str());
    assert_eq!(<Cfi as AsRef<str>>::as_ref(&value), value.as_str());
    assert_eq!(<Cfi as AsRef<[u8]>>::as_ref(&value), value.as_bytes());
    assert_eq!(value.to_string(), value.as_str());
    assert_eq!(value.debug_string(), format!("Cfi(\"{}\")", value.as_str()));
}

fn check_country(value: CountryCode) {
    assert_eq!(std::str::from_utf8(value.as_bytes()), Ok(value.as_str()));
    assert_eq!(value.as_str().len(), 2);
    assert!(value.as_bytes().iter().all(|b| b.is_ascii_uppercase()));
    assert_eq!(CountryCode::parse(value.as_str()), Ok(value));
    assert_eq!(CountryCode::new(value.as_str()), Ok(value));
    assert_eq!(CountryCode::from_bytes(*value.as_bytes()), Ok(value));
    assert_eq!(value.as_str().parse::<CountryCode>(), Ok(value));
    assert_eq!(CountryCode::try_from(value.as_str()), Ok(value));
    assert_eq!(CountryCode::try_from(*value.as_bytes()), Ok(value));
    assert_eq!(CountryCode::try_from(value.as_bytes().as_slice()), Ok(value));
    assert_eq!(value, *value.as_str());
    assert_eq!(value, value.as_str());
    assert_eq!(<CountryCode as AsRef<str>>::as_ref(&value), value.as_str());
    assert_eq!(<CountryCode as AsRef<[u8]>>::as_ref(&value), value.as_bytes());
    assert_eq!(value.to_string(), value.as_str());
}

fn check_isin(value: Isin) {
    assert_eq!(std::str::from_utf8(value.as_bytes()), Ok(value.as_str()));
    assert_eq!(value.as_str().len(), 12);
    let bytes = value.as_bytes();
    assert!(bytes[0].is_ascii_uppercase() && bytes[1].is_ascii_uppercase());
    assert!(bytes[2..11].iter().all(|b| b.is_ascii_alphanumeric()));
    assert!(bytes[11].is_ascii_digit());
    assert_eq!(value.country_code(), &value.as_str()[0..2]);
    assert_eq!(value.nsin(), &value.as_str()[2..11]);
    assert_eq!(value.check_digit(), value.computed_check_digit());
    assert!(value.check_digit() < 10);
    let country = value.country();
    assert_eq!(country, CountryCode::parse(value.country_code()).ok());
    if let Some(cc) = country {
        assert_eq!(cc.as_str(), value.country_code());
    }
    assert_eq!(Isin::parse(value.as_str()), Ok(value));
    assert_eq!(Isin::new(value.as_str()), Ok(value));
    assert_eq!(Isin::from_bytes(*value.as_bytes()), Ok(value));
    assert_eq!(value.as_str().parse::<Isin>(), Ok(value));
    assert_eq!(Isin::try_from(value.as_str()), Ok(value));
    assert_eq!(Isin::try_from(*value.as_bytes()), Ok(value));
    assert_eq!(Isin::try_from(value.as_bytes().as_slice()), Ok(value));
    assert_eq!(value, *value.as_str());
    assert_eq!(value, value.as_str());
    assert_eq!(<Isin as AsRef<str>>::as_ref(&value), value.as_str());
    assert_eq!(<Isin as AsRef<[u8]>>::as_ref(&value), value.as_bytes());
    assert_eq!(value.to_string(), value.as_str());
}

fn check_lei(value: Lei) {
    assert_eq!(std::str::from_utf8(value.as_bytes()), Ok(value.as_str()));
    assert_eq!(value.as_str().len(), 20);
    let bytes = value.as_bytes();
    assert!(bytes[..18].iter().all(|b| b.is_ascii_alphanumeric()));
    assert!(bytes[18..].iter().all(|b| b.is_ascii_digit()));
    assert_eq!(value.lou_prefix(), &value.as_str()[0..4]);
    assert_eq!(value.entity_id(), &value.as_str()[4..18]);
    assert_eq!(value.check_digits(), value.computed_check_digits());
    assert!(value.check_digits() < 100);
    assert_eq!(Lei::parse(value.as_str()), Ok(value));
    assert_eq!(Lei::new(value.as_str()), Ok(value));
    assert_eq!(Lei::from_bytes(*value.as_bytes()), Ok(value));
    assert_eq!(value.as_str().parse::<Lei>(), Ok(value));
    assert_eq!(Lei::try_from(value.as_str()), Ok(value));
    assert_eq!(Lei::try_from(*value.as_bytes()), Ok(value));
    assert_eq!(Lei::try_from(value.as_bytes().as_slice()), Ok(value));
    assert_eq!(value, *value.as_str());
    assert_eq!(value, value.as_str());
    assert_eq!(<Lei as AsRef<str>>::as_ref(&value), value.as_str());
    assert_eq!(<Lei as AsRef<[u8]>>::as_ref(&value), value.as_bytes());
    assert_eq!(value.to_string(), value.as_str());
}

fn check_cnpj(value: Cnpj) {
    assert_eq!(std::str::from_utf8(value.as_bytes()), Ok(value.as_str()));
    assert_eq!(value.as_str().len(), 14);
    let bytes = value.as_bytes();
    assert!(bytes[..12].iter().all(|b| b.is_ascii_alphanumeric()));
    assert!(bytes[12].is_ascii_digit() && bytes[13].is_ascii_digit());
    assert_eq!(value.root(), &value.as_str()[0..8]);
    assert_eq!(value.branch_code(), &value.as_str()[8..12]);
    let (dv1, dv2) = value.check_digits();
    assert!(dv1 < 10 && dv2 < 10);
    assert_eq!(dv1, bytes[12] - b'0');
    assert_eq!(dv2, bytes[13] - b'0');
    assert_eq!(value.is_root(), value.branch_code() == "0001");
    let branch_is_numeric = value.branch_code().bytes().all(|b| b.is_ascii_digit());
    assert_eq!(value.branch_number().is_some(), branch_is_numeric);
    if let Some(n) = value.branch_number() {
        assert_eq!(format!("{n:04}"), value.branch_code());
    }
    assert_eq!(Cnpj::parse(value.as_str()), Ok(value));
    assert_eq!(Cnpj::parse(value.formatted().as_str()), Ok(value));
    assert_eq!(Cnpj::new(value.as_str()), Ok(value));
    assert_eq!(Cnpj::from_bytes(*value.as_bytes()), Ok(value));
    assert_eq!(value.as_str().parse::<Cnpj>(), Ok(value));
    assert_eq!(Cnpj::try_from(value.as_str()), Ok(value));
    assert_eq!(Cnpj::try_from(*value.as_bytes()), Ok(value));
    assert_eq!(Cnpj::try_from(value.as_bytes().as_slice()), Ok(value));
    assert_eq!(value, *value.as_str());
    assert_eq!(value, value.as_str());
    assert_eq!(<Cnpj as AsRef<str>>::as_ref(&value), value.as_str());
    assert_eq!(<Cnpj as AsRef<[u8]>>::as_ref(&value), value.as_bytes());
    assert_eq!(value.to_string(), value.formatted().as_str());
}

#[test]
fn cfi_oracle_holds_for_every_sample() {
    for data in samples() {
        if let Ok(text) = std::str::from_utf8(&data) {
            match Cfi::parse(text) {
                Ok(value) => check_cfi(value),
                Err(CfiError::InvalidLength { found }) => {
                    assert_eq!(found, text.trim().chars().count());
                    assert_ne!(found, 6);
                }
                Err(_) => {}
            }
        }
        if data.len() >= 6 {
            let bytes: [u8; 6] = data[..6].try_into().unwrap();
            if let Ok(value) = Cfi::from_bytes(bytes) {
                check_cfi(value);
            }
        }
        if !data.is_empty() {
            let shaped: String = (0..6).map(|i| pick(LETTERS, &data, i)).collect();
            if let Ok(value) = Cfi::parse(&shaped) {
                check_cfi(value);
            }
            let row = data[0] as usize % GROUP_COUNT;
            let sel = [0, 1, 2, 3].map(|i| data[i % data.len()] as usize);
            check_cfi(Cfi::from_bytes(build_valid_cfi_bytes(row, sel)).unwrap());
        }
    }
}

#[test]
fn country_oracle_holds_for_every_sample() {
    for data in samples() {
        if let Ok(text) = std::str::from_utf8(&data) {
            match CountryCode::parse(text) {
                Ok(value) => check_country(value),
                Err(CountryCodeError::InvalidLength { found }) => {
                    assert_eq!(found, text.trim().chars().count());
                    assert_ne!(found, 2);
                }
                Err(_) => {}
            }
        }
        if data.len() >= 2 {
            if let Ok(value) = CountryCode::from_bytes([data[0], data[1]]) {
                check_country(value);
            }
        }
        if !data.is_empty() {
            let shaped: String = (0..2).map(|i| pick(LETTERS, &data, i)).collect();
            if let Ok(value) = CountryCode::parse(&shaped) {
                check_country(value);
            }
            let code = ASSIGNED_CODES[data[0] as usize % ASSIGNED_CODES.len()];
            check_country(CountryCode::from_bytes(code).unwrap());
        }
    }
}

#[test]
fn isin_oracle_holds_for_every_sample() {
    for data in samples() {
        if let Ok(text) = std::str::from_utf8(&data) {
            match Isin::parse(text) {
                Ok(value) => check_isin(value),
                Err(IsinError::InvalidLength { found }) => {
                    assert_eq!(found, text.trim().chars().count());
                    assert_ne!(found, 12);
                }
                Err(_) => {}
            }
        }
        if data.len() >= 12 {
            let bytes: [u8; 12] = data[..12].try_into().unwrap();
            if let Ok(value) = Isin::from_bytes(bytes) {
                check_isin(value);
            }
        }
        if !data.is_empty() {
            let mut shaped = String::new();
            shaped.push(pick(LETTERS, &data, 0));
            shaped.push(pick(LETTERS, &data, 1));
            for i in 2..11 {
                shaped.push(pick(ALPHANUMERIC, &data, i));
            }
            shaped.push(pick(DIGITS, &data, 11));
            if let Ok(value) = Isin::parse(&shaped) {
                check_isin(value);
            }
            let country = [data[0] as usize % 26, data[data.len() - 1] as usize % 26];
            let nsin: Vec<usize> = (0..9).map(|i| data[i % data.len()] as usize % 36).collect();
            check_isin(Isin::from_bytes(build_valid_isin_bytes(country, &nsin)).unwrap());
        }
    }
}

#[test]
fn lei_oracle_holds_for_every_sample() {
    for data in samples() {
        if let Ok(text) = std::str::from_utf8(&data) {
            match Lei::parse(text) {
                Ok(value) => check_lei(value),
                Err(LeiError::InvalidLength { found }) => {
                    assert_eq!(found, text.trim().chars().count());
                    assert_ne!(found, 20);
                }
                Err(_) => {}
            }
        }
        if data.len() >= 20 {
            let bytes: [u8; 20] = data[..20].try_into().unwrap();
            if let Ok(value) = Lei::from_bytes(bytes) {
                check_lei(value);
            }
        }
        if !data.is_empty() {
            let mut shaped = String::new();
            for i in 0..18 {
                shaped.push(pick(ALPHANUMERIC, &data, i));
            }
            shaped.push(pick(DIGITS, &data, 18));
            shaped.push(pick(DIGITS, &data, 19));
            if let Ok(value) = Lei::parse(&shaped) {
                check_lei(value);
            }
            let mut base = [0usize; 18];
            for (i, slot) in base.iter_mut().enumerate() {
                *slot = data[i % data.len()] as usize % 36;
            }
            check_lei(Lei::from_bytes(build_valid_lei_bytes(&base)).unwrap());
        }
    }
}

#[test]
fn cnpj_oracle_holds_for_every_sample() {
    for data in samples() {
        if let Ok(text) = std::str::from_utf8(&data) {
            match Cnpj::parse(text) {
                Ok(value) => check_cnpj(value),
                Err(CnpjError::InvalidLength { found }) => {
                    let meaningful =
                        text.chars().filter(|c| !matches!(c, '.' | '/' | '-' | ' ')).count();
                    assert_eq!(found, meaningful);
                    assert_ne!(found, 14);
                }
                Err(_) => {}
            }
        }
        if data.len() >= 14 {
            let bytes: [u8; 14] = data[..14].try_into().unwrap();
            if let Ok(value) = Cnpj::from_bytes(bytes) {
                check_cnpj(value);
            }
        }
        if !data.is_empty() {
            let mut base = [0u8; 12];
            for (i, slot) in base.iter_mut().enumerate() {
                *slot = pick(ALPHANUMERIC, &data, i) as u8;
            }
            let mut shaped: String = base.iter().map(|&b| b as char).collect();
            shaped.push(pick(DIGITS, &data, 12));
            shaped.push(pick(DIGITS, &data, 13));
            if let Ok(value) = Cnpj::parse(&shaped) {
                check_cnpj(value);
            }
            avoid_all_repeated(&mut base);
            let (dv1, dv2) = compute_valid_check_digits(&base);
            let mut bytes = [0u8; 14];
            bytes[..12].copy_from_slice(&base);
            bytes[12] = dv1 + b'0';
            bytes[13] = dv2 + b'0';
            check_cnpj(Cnpj::from_bytes(bytes).unwrap());
        }
    }
}

#[test]
fn parsing_ignores_letter_case_and_surrounding_whitespace() {
    for data in samples() {
        if let Ok(text) = std::str::from_utf8(&data) {
            let lower = text.to_ascii_lowercase();
            let upper = text.to_ascii_uppercase();
            assert_eq!(Cfi::parse(&lower), Cfi::parse(&upper));
            assert_eq!(CountryCode::parse(&lower), CountryCode::parse(&upper));
            assert_eq!(Isin::parse(&lower).is_ok(), Isin::parse(&upper).is_ok());
            assert_eq!(Lei::parse(&lower).ok(), Lei::parse(&upper).ok());
            assert_eq!(Cnpj::parse(&lower).ok(), Cnpj::parse(&upper).ok());
            if !text.is_empty() {
                let padded = format!(" \t{text}\n ");
                assert_eq!(Cfi::parse(&padded), Cfi::parse(text));
                assert_eq!(CountryCode::parse(&padded), CountryCode::parse(text));
                assert_eq!(Isin::parse(&padded), Isin::parse(text));
                assert_eq!(Lei::parse(&padded), Lei::parse(text));
            }
        }
    }
}

#[test]
fn ordering_agrees_with_canonical_strings() {
    let values: Vec<Isin> = samples()
        .iter()
        .filter(|d| !d.is_empty())
        .map(|data| {
            let country = [data[0] as usize % 26, data[data.len() - 1] as usize % 26];
            let nsin: Vec<usize> = (0..9).map(|i| data[i % data.len()] as usize % 36).collect();
            Isin::from_bytes(build_valid_isin_bytes(country, &nsin)).unwrap()
        })
        .collect();
    for a in values.iter().take(60) {
        for b in values.iter().take(60) {
            assert_eq!(a.partial_cmp(b), Some(a.as_str().cmp(b.as_str())));
            assert_eq!(a.cmp(b), a.as_str().cmp(b.as_str()));
        }
    }
    let numeric = Cnpj::parse("00000000000191").unwrap();
    let alphanumeric = Cnpj::parse("12ABC34501DE35").unwrap();
    assert!(numeric < alphanumeric);
    assert!(CountryCode::parse("BR").unwrap() < CountryCode::parse("US").unwrap());
    assert!(Cfi::parse("DBFTFB").unwrap() < Cfi::parse("ESVUFR").unwrap());
    assert!(Lei::parse("213800WSGIIZCXF1P572").unwrap() < Lei::parse("5493000IBP32UQZ0KL24").unwrap());
}
