//! CFI (Classification of Financial Instruments): the ISO 10962 six-letter code that classifies
//! a financial instrument by category (position 1), group (position 2) and four attributes
//! (positions 3-6).
//!
//! A CFI has no check digit: it is valid exactly when the ISO 10962 taxonomy (see [`table`])
//! defines its combination. Every constructor runs the same rules, in order: length (after
//! trimming surrounding whitespace), character class (uppercase letters), category, group,
//! attributes. Ordering and hashing are byte-wise over the six letters.

pub mod error;
pub mod parser;
pub mod table;
pub mod seed;
pub mod validation;

pub use error::CfiError;

use crate::text::{
    all_whitespace, ascii_chars, ascii_lowercase, ascii_str, bytes_equal, lemma_canonical_text,
    lemma_trimmed_upper_case, lemma_line_endings_are_whitespace, lemma_trimmed_upper_padded,
};
use parser::spec_normalize;
use validation::{is_valid_cfi, lemma_valid_cfi_letters, spec_validate};
use vstd::prelude::*;
use vstd::string::StringSliceAdditionalSpecFns;

verus! {

/// The outcome of parsing the characters `s`: normalization, then validation. (Case folding
/// never changes a character that validation rejects as a non-letter, so the reported character
/// is the input's.)
pub open spec fn spec_parse(s: Seq<char>) -> Result<Seq<u8>, CfiError> {
    match spec_normalize(s) {
        Err(e) => Err(e),
        Ok(b) => match spec_validate(b) {
            Ok(()) => Ok(b),
            Err(e) => Err(e),
        },
    }
}

/// Parsing the canonical six-letter form of a valid CFI gives that CFI back.
pub proof fn lemma_parse_canonical(b: Seq<u8>)
    requires
        is_valid_cfi(b),
    ensures
        spec_parse(ascii_chars(b)) == Ok::<Seq<u8>, CfiError>(b),
{
    lemma_valid_cfi_letters(b);
    lemma_canonical_text(b);
}

/// Parsing ignores the case of ASCII letters: two inputs that differ only there parse alike.
pub proof fn lemma_parse_ignores_case(s1: Seq<char>, s2: Seq<char>)
    requires
        ascii_lowercase(s1) == ascii_lowercase(s2),
    ensures
        spec_parse(s1) == spec_parse(s2),
{
    lemma_trimmed_upper_case(s1, s2, 6);
}

/// Surrounding a non-empty input with more whitespace does not change how it parses.
pub proof fn lemma_parse_ignores_surrounding_whitespace(w1: Seq<char>, s: Seq<char>, w2: Seq<char>)
    requires
        all_whitespace(w1),
        all_whitespace(w2),
        s.len() > 0,
    ensures
        spec_parse(w1 + s + w2) == spec_parse(s),
{
    lemma_trimmed_upper_padded(w1, s, w2, 6);
}

/// A non-empty line read with its line ending, `"\r\n"`, parses as the line without it.
pub proof fn lemma_parse_ignores_line_ending(s: Seq<char>)
    requires
        s.len() > 0,
    ensures
        spec_parse(s + seq!['\r', '\n']) == spec_parse(s),
{
    let e = Seq::<char>::empty();
    lemma_line_endings_are_whitespace();
    assert(e + s + seq!['\r', '\n'] =~= s + seq!['\r', '\n']);
    lemma_trimmed_upper_padded(e, s, seq!['\r', '\n'], 6);
}

/// A validated CFI (ISO 10962), stored as its 6 uppercase ASCII bytes.
#[derive(Clone, Copy, Eq, Ord, Hash, Debug)]
pub struct Cfi {
    bytes: [u8; 6],
}

impl View for Cfi {
    type V = Seq<u8>;

    closed spec fn view(&self) -> Seq<u8> {
        self.bytes@
    }
}

impl Cfi {
    #[verifier::type_invariant]
    spec fn well_formed(self) -> bool {
        is_valid_cfi(self.bytes@)
    }

    /// Parses the input: normalizes it (see [`parser::normalize`]), then validates it.
    pub fn parse(input: &str) -> (r: Result<Cfi, CfiError>)
        ensures
            match r {
                Ok(v) => spec_parse(input@) == Ok::<Seq<u8>, CfiError>(v@) && is_valid_cfi(v@),
                Err(e) => spec_parse(input@) == Err::<Seq<u8>, CfiError>(e),
            },
    {
        let candidate = parser::normalize(input)?;
        Self::from_bytes(candidate)
    }

    /// Alias for `parse`.
    pub fn new(input: &str) -> (r: Result<Cfi, CfiError>)
        ensures
            match r {
                Ok(v) => spec_parse(input@) == Ok::<Seq<u8>, CfiError>(v@) && is_valid_cfi(v@),
                Err(e) => spec_parse(input@) == Err::<Seq<u8>, CfiError>(e),
            },
    {
        Self::parse(input)
    }

    /// Constructs a value from 6 bytes that must already be uppercase and valid per position.
    pub fn from_bytes(bytes: [u8; 6]) -> (r: Result<Cfi, CfiError>)
        ensures
            match r {
                Ok(v) => v@ == bytes@ && is_valid_cfi(bytes@),
                Err(e) => spec_validate(bytes@) == Err::<(), CfiError>(e),
            },
    {
        validation::validate(&bytes)?;
        Ok(Cfi { bytes })
    }

    /// The 6 ASCII bytes.
    pub fn as_bytes(&self) -> (b: &[u8; 6])
        ensures
            b@ == self@,
            is_valid_cfi(self@),
    {
        proof {
            use_type_invariant(self);
        }
        &self.bytes
    }

    /// The canonical 6-character string.
    pub fn as_str(&self) -> (s: &str)
        ensures
            s@ == ascii_chars(self@),
    {
        proof {
            use_type_invariant(self);
            lemma_valid_cfi_letters(self.bytes@);
        }
        ascii_str(self.bytes.as_slice())
    }

    /// The canonical 6-character rendering (what `Display` shows).
    pub fn to_string(&self) -> (s: String)
        ensures
            s@ == ascii_chars(self@),
    {
        String::from_str(self.as_str())
    }

    /// The debugging rendering, `Cfi("<characters>")`.
    pub fn debug_string(&self) -> (s: String)
        ensures
            s@ == "Cfi(\""@ + ascii_chars(self@) + "\")"@,
    {
        let mut s = String::from_str("Cfi(\"");
        s.append(self.as_str());
        s.append("\")");
        s
    }
}

impl PartialEq for Cfi {
    fn eq(&self, other: &Self) -> (r: bool) {
        bytes_equal(self.bytes.as_slice(), other.bytes.as_slice())
    }
}

impl vstd::std_specs::cmp::PartialEqSpecImpl for Cfi {
    open spec fn obeys_eq_spec() -> bool {
        true
    }

    open spec fn eq_spec(&self, other: &Self) -> bool {
        self@ == other@
    }
}

impl PartialEq<str> for Cfi {
    /// Compares against the bytes of a string slice (the canonical form).
    fn eq(&self, other: &str) -> (r: bool) {
        bytes_equal(self.bytes.as_slice(), other.as_bytes())
    }
}

impl vstd::std_specs::cmp::PartialEqSpecImpl<str> for Cfi {
    open spec fn obeys_eq_spec() -> bool {
        true
    }

    open spec fn eq_spec(&self, other: &str) -> bool {
        self@ == other.spec_bytes()
    }
}

impl<'a> PartialEq<&'a str> for Cfi {
    fn eq(&self, other: &&'a str) -> (r: bool) {
        bytes_equal(self.bytes.as_slice(), other.as_bytes())
    }
}

impl<'a> vstd::std_specs::cmp::PartialEqSpecImpl<&'a str> for Cfi {
    open spec fn obeys_eq_spec() -> bool {
        true
    }

    open spec fn eq_spec(&self, other: &&'a str) -> bool {
        self@ == other.spec_bytes()
    }
}

impl PartialEq<Cfi> for str {
    fn eq(&self, other: &Cfi) -> (r: bool) {
        bytes_equal(self.as_bytes(), other.bytes.as_slice())
    }
}

impl vstd::std_specs::cmp::PartialEqSpecImpl<Cfi> for str {
    open spec fn obeys_eq_spec() -> bool {
        true
    }

    open spec fn eq_spec(&self, other: &Cfi) -> bool {
        self.spec_bytes() == other@
    }
}

impl<'a> PartialEq<Cfi> for &'a str {
    fn eq(&self, other: &Cfi) -> (r: bool) {
        bytes_equal(self.as_bytes(), other.bytes.as_slice())
    }
}

impl<'a> vstd::std_specs::cmp::PartialEqSpecImpl<Cfi> for &'a str {
    open spec fn obeys_eq_spec() -> bool {
        true
    }

    open spec fn eq_spec(&self, other: &Cfi) -> bool {
        self.spec_bytes() == other@
    }
}

impl AsRef<[u8]> for Cfi {
    fn as_ref(&self) -> &[u8] {
        self.bytes.as_slice()
    }
}

impl AsRef<str> for Cfi {
    fn as_ref(&self) -> &str {
        self.as_str()
    }
}

impl core::str::FromStr for Cfi {
    type Err = CfiError;

    fn from_str(s: &str) -> (r: Result<Cfi, CfiError>)
        ensures
            match r {
                Ok(v) => spec_parse(s@) == Ok::<Seq<u8>, CfiError>(v@) && is_valid_cfi(v@),
                Err(e) => spec_parse(s@) == Err::<Seq<u8>, CfiError>(e),
            },
    {
        Cfi::parse(s)
    }
}

impl<'a> TryFrom<&'a str> for Cfi {
    type Error = CfiError;

    fn try_from(value: &'a str) -> (r: Result<Cfi, CfiError>)
        ensures
            match r {
                Ok(v) => spec_parse(value@) == Ok::<Seq<u8>, CfiError>(v@) && is_valid_cfi(v@),
                Err(e) => spec_parse(value@) == Err::<Seq<u8>, CfiError>(e),
            },
    {
        Cfi::parse(value)
    }
}

impl<'a> vstd::std_specs::convert::TryFromSpecImpl<&'a str> for Cfi {
    open spec fn obeys_try_from_spec() -> bool {
        false
    }

    open spec fn try_from_spec(v: &'a str) -> Result<Cfi, CfiError> {
        arbitrary()
    }
}

impl TryFrom<[u8; 6]> for Cfi {
    type Error = CfiError;

    fn try_from(value: [u8; 6]) -> (r: Result<Cfi, CfiError>)
        ensures
            match r {
                Ok(v) => v@ == value@ && is_valid_cfi(value@),
                Err(e) => spec_validate(value@) == Err::<(), CfiError>(e),
            },
    {
        Cfi::from_bytes(value)
    }
}

impl vstd::std_specs::convert::TryFromSpecImpl<[u8; 6]> for Cfi {
    open spec fn obeys_try_from_spec() -> bool {
        false
    }

    open spec fn try_from_spec(v: [u8; 6]) -> Result<Cfi, CfiError> {
        arbitrary()
    }
}

impl<'a> TryFrom<&'a [u8]> for Cfi {
    type Error = CfiError;

    /// The slice must hold exactly 6 bytes; any other length is `InvalidLength`.
    fn try_from(value: &'a [u8]) -> (r: Result<Cfi, CfiError>)
        ensures
            value@.len() != 6 ==> r == Err::<Cfi, CfiError>(
                CfiError::InvalidLength { found: value@.len() as usize },
            ),
            value@.len() == 6 ==> match r {
                Ok(v) => v@ == value@ && is_valid_cfi(value@),
                Err(e) => spec_validate(value@) == Err::<(), CfiError>(e),
            },
    {
        if value.len() != 6 {
            return Err(CfiError::InvalidLength { found: value.len() });
        }
        let bytes = [value[0], value[1], value[2], value[3], value[4], value[5]];
        assert(bytes@ =~= value@);
        Cfi::from_bytes(bytes)
    }
}

impl<'a> vstd::std_specs::convert::TryFromSpecImpl<&'a [u8]> for Cfi {
    open spec fn obeys_try_from_spec() -> bool {
        false
    }

    open spec fn try_from_spec(v: &'a [u8]) -> Result<Cfi, CfiError> {
        arbitrary()
    }
}
impl Cfi {
    /// The category code (position 1).
    pub fn category(&self) -> (c: char)
        ensures
            c == self@[0] as char,
    {
        proof {
            use_type_invariant(self);
        }
        self.bytes[0] as char
    }

    /// The group code (position 2).
    pub fn group(&self) -> (c: char)
        ensures
            c == self@[1] as char,
    {
        proof {
            use_type_invariant(self);
        }
        self.bytes[1] as char
    }

    /// The four attribute codes (positions 3-6), in order.
    pub fn attributes(&self) -> (a: [char; 4])
        ensures
            a@ == ascii_chars(self@.subrange(2, 6)),
    {
        proof {
            use_type_invariant(self);
        }
        let a = [
            self.bytes[2] as char,
            self.bytes[3] as char,
            self.bytes[4] as char,
            self.bytes[5] as char,
        ];
        assert(a@ =~= ascii_chars(self@.subrange(2, 6)));
        a
    }
}

} // verus!
