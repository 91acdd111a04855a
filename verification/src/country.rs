//! ISO 3166-1 alpha-2 country codes: the two-letter codes that identify countries, dependent
//! territories, and special areas of geographical interest.
//!
//! A country code has no check digit: it is valid exactly when it is one of the codes ISO 3166-1
//! officially assigns (see [`table`]). Every constructor runs the same rules, in order: length
//! (after trimming surrounding whitespace), character class (two uppercase letters), assignment.

pub mod error;
pub mod parser;
pub mod table;
pub mod validation;

pub use error::CountryCodeError;

use crate::text::{
    all_whitespace, ascii_chars, ascii_lowercase, ascii_str, bytes_equal, lemma_canonical_text,
    lemma_trimmed_upper_case, lemma_line_endings_are_whitespace, lemma_trimmed_upper_padded,
};
use parser::spec_normalize;
use validation::{is_valid_country_code, lemma_valid_country_code, spec_validate};
use vstd::prelude::*;
use vstd::string::StringSliceAdditionalSpecFns;

verus! {

/// The outcome of parsing the characters `s`: normalization, then validation. (Case folding
/// never changes a character that validation rejects, so the reported character is the input's.)
pub open spec fn spec_parse(s: Seq<char>) -> Result<Seq<u8>, CountryCodeError> {
    match spec_normalize(s) {
        Err(e) => Err(e),
        Ok(b) => match spec_validate(b) {
            Ok(()) => Ok(b),
            Err(e) => Err(e),
        },
    }
}

/// Parsing the canonical two-letter form of a valid code gives that code back.
pub proof fn lemma_parse_canonical(b: Seq<u8>)
    requires
        is_valid_country_code(b),
    ensures
        spec_parse(ascii_chars(b)) == Ok::<Seq<u8>, CountryCodeError>(b),
{
    lemma_valid_country_code(b);
    lemma_canonical_text(b);
}

/// Parsing ignores the case of ASCII letters: two inputs that differ only there parse alike.
pub proof fn lemma_parse_ignores_case(s1: Seq<char>, s2: Seq<char>)
    requires
        ascii_lowercase(s1) == ascii_lowercase(s2),
    ensures
        spec_parse(s1) == spec_parse(s2),
{
    lemma_trimmed_upper_case(s1, s2, 2);
}

/// Surrounding a non-empty input with more whitespace does not change how it parses.
pub proof fn lemma_parse_ignores_surrounding_whitespace(w1: Seq<char>, s: Seq<char>, w2: Seq<char>)
    requires
        all_whitespace(w1),
        all_whitespace(w2),
        s.len() > 0,
    ensures
        spec_parse(w1 + s + w2) == spec_parse(s),
{
    lemma_trimmed_upper_padded(w1, s, w2, 2);
}

/// A non-empty line read with its line ending, `"\r\n"`, parses as the line without it.
pub proof fn lemma_parse_ignores_line_ending(s: Seq<char>)
    requires
        s.len() > 0,
    ensures
        spec_parse(s + seq!['\r', '\n']) == spec_parse(s),
{
    let e = Seq::<char>::empty();
    lemma_line_endings_are_whitespace();
    assert(e + s + seq!['\r', '\n'] =~= s + seq!['\r', '\n']);
    lemma_trimmed_upper_padded(e, s, seq!['\r', '\n'], 2);
}

/// A validated ISO 3166-1 alpha-2 country code, stored as its 2 uppercase ASCII bytes.
#[derive(Clone, Copy, Eq, Ord, Hash, Debug)]
pub struct CountryCode {
    bytes: [u8; 2],
}

impl View for CountryCode {
    type V = Seq<u8>;

    closed spec fn view(&self) -> Seq<u8> {
        self.bytes@
    }
}

impl CountryCode {
    #[verifier::type_invariant]
    spec fn well_formed(self) -> bool {
        is_valid_country_code(self.bytes@)
    }

    /// Parses the input: normalizes it (see [`parser::normalize`]), then validates it.
    pub fn parse(input: &str) -> (r: Result<CountryCode, CountryCodeError>)
        ensures
            match r {
                Ok(v) => spec_parse(input@) == Ok::<Seq<u8>, CountryCodeError>(v@) && is_valid_country_code(v@),
                Err(e) => spec_parse(input@) == Err::<Seq<u8>, CountryCodeError>(e),
            },
    {
        let candidate = parser::normalize(input)?;
        Self::from_bytes(candidate)
    }

    /// Alias for `parse`.
    pub fn new(input: &str) -> (r: Result<CountryCode, CountryCodeError>)
        ensures
            match r {
                Ok(v) => spec_parse(input@) == Ok::<Seq<u8>, CountryCodeError>(v@) && is_valid_country_code(v@),
                Err(e) => spec_parse(input@) == Err::<Seq<u8>, CountryCodeError>(e),
            },
    {
        Self::parse(input)
    }

    /// Constructs a value from 2 bytes that must already be uppercase and valid per position.
    pub fn from_bytes(bytes: [u8; 2]) -> (r: Result<CountryCode, CountryCodeError>)
        ensures
            match r {
                Ok(v) => v@ == bytes@ && is_valid_country_code(bytes@),
                Err(e) => spec_validate(bytes@) == Err::<(), CountryCodeError>(e),
            },
    {
        validation::validate(&bytes)?;
        Ok(CountryCode { bytes })
    }

    /// The 2 ASCII bytes.
    pub fn as_bytes(&self) -> (b: &[u8; 2])
        ensures
            b@ == self@,
            is_valid_country_code(self@),
    {
        proof {
            use_type_invariant(self);
        }
        &self.bytes
    }

    /// The canonical 2-character string.
    pub fn as_str(&self) -> (s: &str)
        ensures
            s@ == ascii_chars(self@),
    {
        proof {
            use_type_invariant(self);
            lemma_valid_country_code(self.bytes@);
        }
        ascii_str(self.bytes.as_slice())
    }

    /// The canonical 2-character rendering (what `Display` shows).
    pub fn to_string(&self) -> (s: String)
        ensures
            s@ == ascii_chars(self@),
    {
        String::from_str(self.as_str())
    }

    /// The debugging rendering, `CountryCode("<characters>")`.
    pub fn debug_string(&self) -> (s: String)
        ensures
            s@ == "CountryCode(\""@ + ascii_chars(self@) + "\")"@,
    {
        let mut s = String::from_str("CountryCode(\"");
        s.append(self.as_str());
        s.append("\")");
        s
    }
}

impl PartialEq for CountryCode {
    fn eq(&self, other: &Self) -> (r: bool) {
        bytes_equal(self.bytes.as_slice(), other.bytes.as_slice())
    }
}

impl vstd::std_specs::cmp::PartialEqSpecImpl for CountryCode {
    open spec fn obeys_eq_spec() -> bool {
        true
    }

    open spec fn eq_spec(&self, other: &Self) -> bool {
        self@ == other@
    }
}

impl PartialEq<str> for CountryCode {
    /// Compares against the bytes of a string slice (the canonical form).
    fn eq(&self, other: &str) -> (r: bool) {
        bytes_equal(self.bytes.as_slice(), other.as_bytes())
    }
}

impl vstd::std_specs::cmp::PartialEqSpecImpl<str> for CountryCode {
    open spec fn obeys_eq_spec() -> bool {
        true
    }

    open spec fn eq_spec(&self, other: &str) -> bool {
        self@ == other.spec_bytes()
    }
}

impl<'a> PartialEq<&'a str> for CountryCode {
    fn eq(&self, other: &&'a str) -> (r: bool) {
        bytes_equal(self.bytes.as_slice(), other.as_bytes())
    }
}

impl<'a> vstd::std_specs::cmp::PartialEqSpecImpl<&'a str> for CountryCode {
    open spec fn obeys_eq_spec() -> bool {
        true
    }

    open spec fn eq_spec(&self, other: &&'a str) -> bool {
        self@ == other.spec_bytes()
    }
}

impl PartialEq<CountryCode> for str {
    fn eq(&self, other: &CountryCode) -> (r: bool) {
        bytes_equal(self.as_bytes(), other.bytes.as_slice())
    }
}

impl vstd::std_specs::cmp::PartialEqSpecImpl<CountryCode> for str {
    open spec fn obeys_eq_spec() -> bool {
        true
    }

    open spec fn eq_spec(&self, other: &CountryCode) -> bool {
        self.spec_bytes() == other@
    }
}

impl<'a> PartialEq<CountryCode> for &'a str {
    fn eq(&self, other: &CountryCode) -> (r: bool) {
        bytes_equal(self.as_bytes(), other.bytes.as_slice())
    }
}

impl<'a> vstd::std_specs::cmp::PartialEqSpecImpl<CountryCode> for &'a str {
    open spec fn obeys_eq_spec() -> bool {
        true
    }

    open spec fn eq_spec(&self, other: &CountryCode) -> bool {
        self.spec_bytes() == other@
    }
}

impl AsRef<[u8]> for CountryCode {
    fn as_ref(&self) -> &[u8] {
        self.bytes.as_slice()
    }
}

impl AsRef<str> for CountryCode {
    fn as_ref(&self) -> &str {
        self.as_str()
    }
}

impl core::str::FromStr for CountryCode {
    type Err = CountryCodeError;

    fn from_str(s: &str) -> (r: Result<CountryCode, CountryCodeError>)
        ensures
            match r {
                Ok(v) => spec_parse(s@) == Ok::<Seq<u8>, CountryCodeError>(v@) && is_valid_country_code(v@),
                Err(e) => spec_parse(s@) == Err::<Seq<u8>, CountryCodeError>(e),
            },
    {
        CountryCode::parse(s)
    }
}

impl<'a> TryFrom<&'a str> for CountryCode {
    type Error = CountryCodeError;

    fn try_from(value: &'a str) -> (r: Result<CountryCode, CountryCodeError>)
        ensures
            match r {
                Ok(v) => spec_parse(value@) == Ok::<Seq<u8>, CountryCodeError>(v@) && is_valid_country_code(v@),
                Err(e) => spec_parse(value@) == Err::<Seq<u8>, CountryCodeError>(e),
            },
    {
        CountryCode::parse(value)
    }
}

impl<'a> vstd::std_specs::convert::TryFromSpecImpl<&'a str> for CountryCode {
    open spec fn obeys_try_from_spec() -> bool {
        false
    }

    open spec fn try_from_spec(v: &'a str) -> Result<CountryCode, CountryCodeError> {
        arbitrary()
    }
}

impl TryFrom<[u8; 2]> for CountryCode {
    type Error = CountryCodeError;

    fn try_from(value: [u8; 2]) -> (r: Result<CountryCode, CountryCodeError>)
        ensures
            match r {
                Ok(v) => v@ == value@ && is_valid_country_code(value@),
                Err(e) => spec_validate(value@) == Err::<(), CountryCodeError>(e),
            },
    {
        CountryCode::from_bytes(value)
    }
}

impl vstd::std_specs::convert::TryFromSpecImpl<[u8; 2]> for CountryCode {
    open spec fn obeys_try_from_spec() -> bool {
        false
    }

    open spec fn try_from_spec(v: [u8; 2]) -> Result<CountryCode, CountryCodeError> {
        arbitrary()
    }
}

impl<'a> TryFrom<&'a [u8]> for CountryCode {
    type Error = CountryCodeError;

    /// The slice must hold exactly 2 bytes; any other length is `InvalidLength`.
    fn try_from(value: &'a [u8]) -> (r: Result<CountryCode, CountryCodeError>)
        ensures
            value@.len() != 2 ==> r == Err::<CountryCode, CountryCodeError>(
                CountryCodeError::InvalidLength { found: value@.len() as usize },
            ),
            value@.len() == 2 ==> match r {
                Ok(v) => v@ == value@ && is_valid_country_code(value@),
                Err(e) => spec_validate(value@) == Err::<(), CountryCodeError>(e),
            },
    {
        if value.len() != 2 {
            return Err(CountryCodeError::InvalidLength { found: value.len() });
        }
        let bytes = [value[0], value[1]];
        assert(bytes@ =~= value@);
        CountryCode::from_bytes(bytes)
    }
}

impl<'a> vstd::std_specs::convert::TryFromSpecImpl<&'a [u8]> for CountryCode {
    open spec fn obeys_try_from_spec() -> bool {
        false
    }

    open spec fn try_from_spec(v: &'a [u8]) -> Result<CountryCode, CountryCodeError> {
        arbitrary()
    }
}

} // verus!
