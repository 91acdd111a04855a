//! ISIN (International Securities Identification Number): the ISO 6166 identifier of a fungible
//! financial security.
//!
//! An ISIN has 12 characters: a two-letter country code (positions 1-2), a nine-character
//! alphanumeric NSIN (positions 3-11) and a Luhn check digit (position 12). Every constructor runs
//! the same rules, in order: length (after trimming surrounding whitespace), character class per
//! position, check digit. A value of type [`Isin`] always satisfies them. The country prefix is
//! validated structurally only; [`Isin::country`] cross-checks it against ISO 3166-1.

pub mod error;
pub mod parser;
pub mod validation;

pub use error::{CharacterClass, IsinError};

use crate::country::table::is_assigned_code;
use crate::country::CountryCode;
use crate::text::{
    all_whitespace, ascii_chars, ascii_lowercase, ascii_str, bytes_equal, is_upper,
    lemma_canonical_text, lemma_first_failure, lemma_trimmed_upper_case,
    lemma_line_endings_are_whitespace, lemma_trimmed_upper_padded, trim, trimmed_chars,
};
use parser::spec_normalize;
use validation::{check_digit_of, is_valid_isin, lemma_valid_isin_classes, spec_validate};
use vstd::prelude::*;
use vstd::string::StringSliceAdditionalSpecFns;

verus! {

/// The outcome of parsing the characters `s`: normalization, then validation, where a rejected
/// character is reported as it appears in the input (before case folding).
pub open spec fn spec_parse(s: Seq<char>) -> Result<Seq<u8>, IsinError> {
    match spec_normalize(s) {
        Err(e) => Err(e),
        Ok(b) => match spec_validate(b) {
            Ok(()) => Ok(b),
            Err(IsinError::InvalidCharacter { character: _, position, expected }) => Err(
                IsinError::InvalidCharacter {
                    character: trim(s)[position - 1],
                    position,
                    expected,
                },
            ),
            Err(e) => Err(e),
        },
    }
}

/// Parsing the canonical 12-character form of a valid ISIN gives that ISIN back.
pub proof fn lemma_parse_canonical(b: Seq<u8>)
    requires
        is_valid_isin(b),
    ensures
        spec_parse(ascii_chars(b)) == Ok::<Seq<u8>, IsinError>(b),
{
    lemma_valid_isin_classes(b);
    lemma_canonical_text(b);
}

/// Parsing ignores the case of ASCII letters: two inputs that differ only there are accepted
/// alike, as the same value. (A rejected character is reported as written, so its case may
/// differ between the two errors.)
pub proof fn lemma_parse_ignores_case(s1: Seq<char>, s2: Seq<char>)
    requires
        ascii_lowercase(s1) == ascii_lowercase(s2),
    ensures
        spec_parse(s1) is Ok <==> spec_parse(s2) is Ok,
        spec_parse(s1) is Ok ==> spec_parse(s1) == spec_parse(s2),
{
    lemma_trimmed_upper_case(s1, s2, 12);
}

/// Surrounding a non-empty input with more whitespace does not change how it parses.
pub proof fn lemma_parse_ignores_surrounding_whitespace(w1: Seq<char>, s: Seq<char>, w2: Seq<char>)
    requires
        all_whitespace(w1),
        all_whitespace(w2),
        s.len() > 0,
    ensures
        spec_parse(w1 + s + w2) == spec_parse(s),
{
    lemma_trimmed_upper_padded(w1, s, w2, 12);
}

/// A non-empty line read with its line ending, `"\r\n"`, parses as the line without it.
pub proof fn lemma_parse_ignores_line_ending(s: Seq<char>)
    requires
        s.len() > 0,
    ensures
        spec_parse(s + seq!['\r', '\n']) == spec_parse(s),
{
    let e = Seq::<char>::empty();
    lemma_line_endings_are_whitespace();
    assert(e + s + seq!['\r', '\n'] =~= s + seq!['\r', '\n']);
    lemma_trimmed_upper_padded(e, s, seq!['\r', '\n'], 12);
}

/// A validated ISIN, stored as its 12 uppercase ASCII bytes.
#[derive(Clone, Copy, Eq, Ord, Hash, Debug)]
pub struct Isin {
    bytes: [u8; 12],
}

impl View for Isin {
    type V = Seq<u8>;

    closed spec fn view(&self) -> Seq<u8> {
        self.bytes@
    }
}

impl Isin {
    #[verifier::type_invariant]
    spec fn well_formed(self) -> bool {
        is_valid_isin(self.bytes@)
    }

    /// Parses the input: normalizes it (see [`parser::normalize`]), then validates it.
    pub fn parse(input: &str) -> (r: Result<Isin, IsinError>)
        ensures
            match r {
                Ok(v) => spec_parse(input@) == Ok::<Seq<u8>, IsinError>(v@) && is_valid_isin(v@),
                Err(e) => spec_parse(input@) == Err::<Seq<u8>, IsinError>(e),
            },
    {
        let candidate = match parser::normalize(input) {
            Ok(c) => c,
            Err(e) => return Err(e),
        };
        match validation::validate(&candidate) {
            Ok(()) => Ok(Isin { bytes: candidate }),
            Err(IsinError::InvalidCharacter { character: _, position, expected }) => {
                proof {
                    crate::text::lemma_first_failure_range(
                        12,
                        |i: int| validation::class_allows(validation::class_at(i), candidate@[i]),
                    );
                }
                // Report the character as the input spelled it, before case folding.
                let t = trimmed_chars(input);
                assert(1 <= position <= 12 && t@.len() == 12);
                Err(
                    IsinError::InvalidCharacter {
                        character: t[(position - 1) as usize],
                        position,
                        expected,
                    },
                )
            },
            Err(e) => Err(e),
        }
    }

    /// Alias for `parse`.
    pub fn new(input: &str) -> (r: Result<Isin, IsinError>)
        ensures
            match r {
                Ok(v) => spec_parse(input@) == Ok::<Seq<u8>, IsinError>(v@) && is_valid_isin(v@),
                Err(e) => spec_parse(input@) == Err::<Seq<u8>, IsinError>(e),
            },
    {
        Self::parse(input)
    }

    /// Constructs a value from 12 bytes that must already be uppercase and valid per position.
    pub fn from_bytes(bytes: [u8; 12]) -> (r: Result<Isin, IsinError>)
        ensures
            match r {
                Ok(v) => v@ == bytes@ && is_valid_isin(bytes@),
                Err(e) => spec_validate(bytes@) == Err::<(), IsinError>(e),
            },
    {
        validation::validate(&bytes)?;
        Ok(Isin { bytes })
    }

    /// The 12 ASCII bytes.
    pub fn as_bytes(&self) -> (b: &[u8; 12])
        ensures
            b@ == self@,
            is_valid_isin(self@),
    {
        proof {
            use_type_invariant(self);
        }
        &self.bytes
    }

    /// The canonical 12-character string.
    pub fn as_str(&self) -> (s: &str)
        ensures
            s@ == ascii_chars(self@),
    {
        proof {
            use_type_invariant(self);
            lemma_valid_isin_classes(self.bytes@);
        }
        ascii_str(self.bytes.as_slice())
    }

    /// The canonical 12-character rendering (what `Display` shows).
    pub fn to_string(&self) -> (s: String)
        ensures
            s@ == ascii_chars(self@),
    {
        String::from_str(self.as_str())
    }

    /// The debugging rendering, `Isin("<characters>")`.
    pub fn debug_string(&self) -> (s: String)
        ensures
            s@ == "Isin(\""@ + ascii_chars(self@) + "\")"@,
    {
        let mut s = String::from_str("Isin(\"");
        s.append(self.as_str());
        s.append("\")");
        s
    }
}

impl PartialEq for Isin {
    fn eq(&self, other: &Self) -> (r: bool) {
        bytes_equal(self.bytes.as_slice(), other.bytes.as_slice())
    }
}

impl vstd::std_specs::cmp::PartialEqSpecImpl for Isin {
    open spec fn obeys_eq_spec() -> bool {
        true
    }

    open spec fn eq_spec(&self, other: &Self) -> bool {
        self@ == other@
    }
}

impl PartialEq<str> for Isin {
    /// Compares against the bytes of a string slice (the canonical form).
    fn eq(&self, other: &str) -> (r: bool) {
        bytes_equal(self.bytes.as_slice(), other.as_bytes())
    }
}

impl vstd::std_specs::cmp::PartialEqSpecImpl<str> for Isin {
    open spec fn obeys_eq_spec() -> bool {
        true
    }

    open spec fn eq_spec(&self, other: &str) -> bool {
        self@ == other.spec_bytes()
    }
}

impl<'a> PartialEq<&'a str> for Isin {
    fn eq(&self, other: &&'a str) -> (r: bool) {
        bytes_equal(self.bytes.as_slice(), other.as_bytes())
    }
}

impl<'a> vstd::std_specs::cmp::PartialEqSpecImpl<&'a str> for Isin {
    open spec fn obeys_eq_spec() -> bool {
        true
    }

    open spec fn eq_spec(&self, other: &&'a str) -> bool {
        self@ == other.spec_bytes()
    }
}

impl PartialEq<Isin> for str {
    fn eq(&self, other: &Isin) -> (r: bool) {
        bytes_equal(self.as_bytes(), other.bytes.as_slice())
    }
}

impl vstd::std_specs::cmp::PartialEqSpecImpl<Isin> for str {
    open spec fn obeys_eq_spec() -> bool {
        true
    }

    open spec fn eq_spec(&self, other: &Isin) -> bool {
        self.spec_bytes() == other@
    }
}

impl<'a> PartialEq<Isin> for &'a str {
    fn eq(&self, other: &Isin) -> (r: bool) {
        bytes_equal(self.as_bytes(), other.bytes.as_slice())
    }
}

impl<'a> vstd::std_specs::cmp::PartialEqSpecImpl<Isin> for &'a str {
    open spec fn obeys_eq_spec() -> bool {
        true
    }

    open spec fn eq_spec(&self, other: &Isin) -> bool {
        self.spec_bytes() == other@
    }
}

impl AsRef<[u8]> for Isin {
    fn as_ref(&self) -> &[u8] {
        self.bytes.as_slice()
    }
}

impl AsRef<str> for Isin {
    fn as_ref(&self) -> &str {
        self.as_str()
    }
}

impl core::str::FromStr for Isin {
    type Err = IsinError;

    fn from_str(s: &str) -> (r: Result<Isin, IsinError>)
        ensures
            match r {
                Ok(v) => spec_parse(s@) == Ok::<Seq<u8>, IsinError>(v@) && is_valid_isin(v@),
                Err(e) => spec_parse(s@) == Err::<Seq<u8>, IsinError>(e),
            },
    {
        Isin::parse(s)
    }
}

impl<'a> TryFrom<&'a str> for Isin {
    type Error = IsinError;

    fn try_from(value: &'a str) -> (r: Result<Isin, IsinError>)
        ensures
            match r {
                Ok(v) => spec_parse(value@) == Ok::<Seq<u8>, IsinError>(v@) && is_valid_isin(v@),
                Err(e) => spec_parse(value@) == Err::<Seq<u8>, IsinError>(e),
            },
    {
        Isin::parse(value)
    }
}

impl<'a> vstd::std_specs::convert::TryFromSpecImpl<&'a str> for Isin {
    open spec fn obeys_try_from_spec() -> bool {
        false
    }

    open spec fn try_from_spec(v: &'a str) -> Result<Isin, IsinError> {
        arbitrary()
    }
}

impl TryFrom<[u8; 12]> for Isin {
    type Error = IsinError;

    fn try_from(value: [u8; 12]) -> (r: Result<Isin, IsinError>)
        ensures
            match r {
                Ok(v) => v@ == value@ && is_valid_isin(value@),
                Err(e) => spec_validate(value@) == Err::<(), IsinError>(e),
            },
    {
        Isin::from_bytes(value)
    }
}

impl vstd::std_specs::convert::TryFromSpecImpl<[u8; 12]> for Isin {
    open spec fn obeys_try_from_spec() -> bool {
        false
    }

    open spec fn try_from_spec(v: [u8; 12]) -> Result<Isin, IsinError> {
        arbitrary()
    }
}

impl<'a> TryFrom<&'a [u8]> for Isin {
    type Error = IsinError;

    /// The slice must hold exactly 12 bytes; any other length is `InvalidLength`.
    fn try_from(value: &'a [u8]) -> (r: Result<Isin, IsinError>)
        ensures
            value@.len() != 12 ==> r == Err::<Isin, IsinError>(
                IsinError::InvalidLength { found: value@.len() as usize },
            ),
            value@.len() == 12 ==> match r {
                Ok(v) => v@ == value@ && is_valid_isin(value@),
                Err(e) => spec_validate(value@) == Err::<(), IsinError>(e),
            },
    {
        if value.len() != 12 {
            return Err(IsinError::InvalidLength { found: value.len() });
        }
        let bytes = [
            value[0], value[1], value[2], value[3], value[4], value[5], value[6], value[7],
            value[8], value[9], value[10], value[11],
        ];
        assert(bytes@ =~= value@);
        Isin::from_bytes(bytes)
    }
}

impl<'a> vstd::std_specs::convert::TryFromSpecImpl<&'a [u8]> for Isin {
    open spec fn obeys_try_from_spec() -> bool {
        false
    }

    open spec fn try_from_spec(v: &'a [u8]) -> Result<Isin, IsinError> {
        arbitrary()
    }
}

impl Isin {
    /// The two-letter country code prefix (positions 1-2).
    pub fn country_code(&self) -> (s: &str)
        ensures
            s@ == ascii_chars(self@.subrange(0, 2)),
    {
        proof {
            use_type_invariant(self);
            lemma_valid_isin_classes(self.bytes@);
        }
        ascii_str(vstd::slice::slice_subrange(self.bytes.as_slice(), 0, 2))
    }

    /// The prefix as a [`CountryCode`], or `None` when it is not an officially assigned ISO
    /// 3166-1 code (for example `XS`, `EU` or `QS`). It is exactly what parsing
    /// [`Isin::country_code`] as a country code gives.
    pub fn country(&self) -> (r: Option<CountryCode>)
        ensures
            r is Some <==> is_assigned_code(self@[0], self@[1]),
            r matches Some(c) ==> c@ == self@.subrange(0, 2),
            r matches Some(c) ==> crate::country::spec_parse(ascii_chars(self@.subrange(0, 2)))
                == Ok::<Seq<u8>, crate::country::CountryCodeError>(c@),
            r is None ==> crate::country::spec_parse(ascii_chars(self@.subrange(0, 2))) is Err,
    {
        proof {
            use_type_invariant(self);
            lemma_valid_isin_classes(self.bytes@);
        }
        let prefix: [u8; 2] = [self.bytes[0], self.bytes[1]];
        proof {
            assert(prefix@ =~= self@.subrange(0, 2));
            assert(is_upper(prefix@[0]) && is_upper(prefix@[1]));
            lemma_first_failure(2, |i: int| is_upper(prefix@[i]), 2);
            lemma_canonical_text(prefix@);
        }
        match CountryCode::from_bytes(prefix) {
            Ok(c) => Some(c),
            Err(_) => None,
        }
    }

    /// The nine-character National Securities Identifying Number (positions 3-11).
    pub fn nsin(&self) -> (s: &str)
        ensures
            s@ == ascii_chars(self@.subrange(2, 11)),
    {
        proof {
            use_type_invariant(self);
            lemma_valid_isin_classes(self.bytes@);
        }
        ascii_str(vstd::slice::slice_subrange(self.bytes.as_slice(), 2, 11))
    }

    /// The check digit (position 12) as a number.
    pub fn check_digit(&self) -> (d: u8)
        ensures
            d == self@[11] - 48,
            d <= 9,
    {
        proof {
            use_type_invariant(self);
            lemma_valid_isin_classes(self.bytes@);
        }
        self.bytes[11] - 48
    }

    /// The check digit that the Luhn algorithm computes from the first 11 characters; for every
    /// `Isin` it equals [`Isin::check_digit`].
    pub fn computed_check_digit(&self) -> (d: u8)
        ensures
            d == check_digit_of(self@.take(11)),
            d == self@[11] - 48,
    {
        proof {
            use_type_invariant(self);
            lemma_valid_isin_classes(self.bytes@);
        }
        let base = vstd::slice::slice_subrange(self.bytes.as_slice(), 0, 11);
        assert(base@ =~= self@.take(11));
        validation::compute_check_digit(base)
    }
}

} // verus!
