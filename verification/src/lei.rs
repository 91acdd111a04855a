//! LEI (Legal Entity Identifier): the ISO 17442 identifier of a legally distinct entity that
//! takes part in financial transactions.
//!
//! An LEI has 20 characters: a four-character LOU prefix (positions 1-4), a fourteen-character
//! entity-specific part (positions 5-18), both alphanumeric, and two ISO/IEC 7064 MOD 97-10 check
//! digits (positions 19-20). Every constructor runs the same rules, in order: length (after
//! trimming surrounding whitespace), character class per position, check digits. A value of type
//! [`Lei`] always satisfies them; it is not a claim that GLEIF has issued the code.

pub mod error;
pub mod parser;
pub mod validation;

pub use error::{CharacterClass, LeiError};

use crate::text::{
    all_whitespace, ascii_chars, ascii_lowercase, ascii_str, bytes_equal, lemma_canonical_text,
    lemma_trimmed_upper_case, lemma_line_endings_are_whitespace, lemma_trimmed_upper_padded, trim, trimmed_chars,
};
use parser::spec_normalize;
use validation::{
    check_digits_of, found_check_digits, is_valid_lei, lemma_valid_lei_classes, spec_validate,
};
use vstd::prelude::*;
use vstd::string::StringSliceAdditionalSpecFns;

verus! {

/// The outcome of parsing the characters `s`: normalization, then validation, where a rejected
/// character is reported as it appears in the input (before case folding).
pub open spec fn spec_parse(s: Seq<char>) -> Result<Seq<u8>, LeiError> {
    match spec_normalize(s) {
        Err(e) => Err(e),
        Ok(b) => match spec_validate(b) {
            Ok(()) => Ok(b),
            Err(LeiError::InvalidCharacter { character: _, position, expected }) => Err(
                LeiError::InvalidCharacter {
                    character: trim(s)[position - 1],
                    position,
                    expected,
                },
            ),
            Err(e) => Err(e),
        },
    }
}

/// Parsing the canonical 20-character form of a valid LEI gives that LEI back.
pub proof fn lemma_parse_canonical(b: Seq<u8>)
    requires
        is_valid_lei(b),
    ensures
        spec_parse(ascii_chars(b)) == Ok::<Seq<u8>, LeiError>(b),
{
    lemma_valid_lei_classes(b);
    lemma_canonical_text(b);
}

/// Parsing ignores the case of ASCII letters: two inputs that differ only there are accepted
/// alike, as the same value. (A rejected character is reported as written, so its case may
/// differ between the two errors.)
pub proof fn lemma_parse_ignores_case(s1: Seq<char>, s2: Seq<char>)
    requires
        ascii_lowercase(s1) == ascii_lowercase(s2),
    ensures
        spec_parse(s1) is Ok <==> spec_parse(s2) is Ok,
        spec_parse(s1) is Ok ==> spec_parse(s1) == spec_parse(s2),
{
    lemma_trimmed_upper_case(s1, s2, 20);
}

/// Surrounding a non-empty input with more whitespace does not change how it parses.
pub proof fn lemma_parse_ignores_surrounding_whitespace(w1: Seq<char>, s: Seq<char>, w2: Seq<char>)
    requires
        all_whitespace(w1),
        all_whitespace(w2),
        s.len() > 0,
    ensures
        spec_parse(w1 + s + w2) == spec_parse(s),
{
    lemma_trimmed_upper_padded(w1, s, w2, 20);
}

/// A non-empty line read with its line ending, `"\r\n"`, parses as the line without it.
pub proof fn lemma_parse_ignores_line_ending(s: Seq<char>)
    requires
        s.len() > 0,
    ensures
        spec_parse(s + seq!['\r', '\n']) == spec_parse(s),
{
    let e = Seq::<char>::empty();
    lemma_line_endings_are_whitespace();
    assert(e + s + seq!['\r', '\n'] =~= s + seq!['\r', '\n']);
    lemma_trimmed_upper_padded(e, s, seq!['\r', '\n'], 20);
}

/// A validated LEI, stored as its 20 uppercase ASCII bytes.
#[derive(Clone, Copy, Eq, Ord, Hash, Debug)]
pub struct Lei {
    bytes: [u8; 20],
}

impl View for Lei {
    type V = Seq<u8>;

    closed spec fn view(&self) -> Seq<u8> {
        self.bytes@
    }
}

impl Lei {
    #[verifier::type_invariant]
    spec fn well_formed(self) -> bool {
        is_valid_lei(self.bytes@)
    }

    /// Parses the input: normalizes it (see [`parser::normalize`]), then validates it.
    pub fn parse(input: &str) -> (r: Result<Lei, LeiError>)
        ensures
            match r {
                Ok(v) => spec_parse(input@) == Ok::<Seq<u8>, LeiError>(v@) && is_valid_lei(v@),
                Err(e) => spec_parse(input@) == Err::<Seq<u8>, LeiError>(e),
            },
    {
        let candidate = match parser::normalize(input) {
            Ok(c) => c,
            Err(e) => return Err(e),
        };
        match validation::validate(&candidate) {
            Ok(()) => Ok(Lei { bytes: candidate }),
            Err(LeiError::InvalidCharacter { character: _, position, expected }) => {
                proof {
                    crate::text::lemma_first_failure_range(
                        20,
                        |i: int| validation::class_allows(validation::class_at(i), candidate@[i]),
                    );
                }
                // Report the character as the input spelled it, before case folding.
                let t = trimmed_chars(input);
                assert(1 <= position <= 20 && t@.len() == 20);
                Err(
                    LeiError::InvalidCharacter {
                        character: t[(position - 1) as usize],
                        position,
                        expected,
                    },
                )
            },
            Err(e) => Err(e),
        }
    }

    /// Alias for `parse`.
    pub fn new(input: &str) -> (r: Result<Lei, LeiError>)
        ensures
            match r {
                Ok(v) => spec_parse(input@) == Ok::<Seq<u8>, LeiError>(v@) && is_valid_lei(v@),
                Err(e) => spec_parse(input@) == Err::<Seq<u8>, LeiError>(e),
            },
    {
        Self::parse(input)
    }

    /// Constructs a value from 20 bytes that must already be uppercase and valid per position.
    pub fn from_bytes(bytes: [u8; 20]) -> (r: Result<Lei, LeiError>)
        ensures
            match r {
                Ok(v) => v@ == bytes@ && is_valid_lei(bytes@),
                Err(e) => spec_validate(bytes@) == Err::<(), LeiError>(e),
            },
    {
        validation::validate(&bytes)?;
        Ok(Lei { bytes })
    }

    /// The 20 ASCII bytes.
    pub fn as_bytes(&self) -> (b: &[u8; 20])
        ensures
            b@ == self@,
            is_valid_lei(self@),
    {
        proof {
            use_type_invariant(self);
        }
        &self.bytes
    }

    /// The canonical 20-character string.
    pub fn as_str(&self) -> (s: &str)
        ensures
            s@ == ascii_chars(self@),
    {
        proof {
            use_type_invariant(self);
            lemma_valid_lei_classes(self.bytes@);
        }
        ascii_str(self.bytes.as_slice())
    }

    /// The canonical 20-character rendering (what `Display` shows).
    pub fn to_string(&self) -> (s: String)
        ensures
            s@ == ascii_chars(self@),
    {
        String::from_str(self.as_str())
    }

    /// The debugging rendering, `Lei("<characters>")`.
    pub fn debug_string(&self) -> (s: String)
        ensures
            s@ == "Lei(\""@ + ascii_chars(self@) + "\")"@,
    {
        let mut s = String::from_str("Lei(\"");
        s.append(self.as_str());
        s.append("\")");
        s
    }
}

impl PartialEq for Lei {
    fn eq(&self, other: &Self) -> (r: bool) {
        bytes_equal(self.bytes.as_slice(), other.bytes.as_slice())
    }
}

impl vstd::std_specs::cmp::PartialEqSpecImpl for Lei {
    open spec fn obeys_eq_spec() -> bool {
        true
    }

    open spec fn eq_spec(&self, other: &Self) -> bool {
        self@ == other@
    }
}

impl PartialEq<str> for Lei {
    /// Compares against the bytes of a string slice (the canonical form).
    fn eq(&self, other: &str) -> (r: bool) {
        bytes_equal(self.bytes.as_slice(), other.as_bytes())
    }
}

impl vstd::std_specs::cmp::PartialEqSpecImpl<str> for Lei {
    open spec fn obeys_eq_spec() -> bool {
        true
    }

    open spec fn eq_spec(&self, other: &str) -> bool {
        self@ == other.spec_bytes()
    }
}

impl<'a> PartialEq<&'a str> for Lei {
    fn eq(&self, other: &&'a str) -> (r: bool) {
        bytes_equal(self.bytes.as_slice(), other.as_bytes())
    }
}

impl<'a> vstd::std_specs::cmp::PartialEqSpecImpl<&'a str> for Lei {
    open spec fn obeys_eq_spec() -> bool {
        true
    }

    open spec fn eq_spec(&self, other: &&'a str) -> bool {
        self@ == other.spec_bytes()
    }
}

impl PartialEq<Lei> for str {
    fn eq(&self, other: &Lei) -> (r: bool) {
        bytes_equal(self.as_bytes(), other.bytes.as_slice())
    }
}

impl vstd::std_specs::cmp::PartialEqSpecImpl<Lei> for str {
    open spec fn obeys_eq_spec() -> bool {
        true
    }

    open spec fn eq_spec(&self, other: &Lei) -> bool {
        self.spec_bytes() == other@
    }
}

impl<'a> PartialEq<Lei> for &'a str {
    fn eq(&self, other: &Lei) -> (r: bool) {
        bytes_equal(self.as_bytes(), other.bytes.as_slice())
    }
}

impl<'a> vstd::std_specs::cmp::PartialEqSpecImpl<Lei> for &'a str {
    open spec fn obeys_eq_spec() -> bool {
        true
    }

    open spec fn eq_spec(&self, other: &Lei) -> bool {
        self.spec_bytes() == other@
    }
}

impl AsRef<[u8]> for Lei {
    fn as_ref(&self) -> &[u8] {
        self.bytes.as_slice()
    }
}

impl AsRef<str> for Lei {
    fn as_ref(&self) -> &str {
        self.as_str()
    }
}

impl core::str::FromStr for Lei {
    type Err = LeiError;

    fn from_str(s: &str) -> (r: Result<Lei, LeiError>)
        ensures
            match r {
                Ok(v) => spec_parse(s@) == Ok::<Seq<u8>, LeiError>(v@) && is_valid_lei(v@),
                Err(e) => spec_parse(s@) == Err::<Seq<u8>, LeiError>(e),
            },
    {
        Lei::parse(s)
    }
}

impl<'a> TryFrom<&'a str> for Lei {
    type Error = LeiError;

    fn try_from(value: &'a str) -> (r: Result<Lei, LeiError>)
        ensures
            match r {
                Ok(v) => spec_parse(value@) == Ok::<Seq<u8>, LeiError>(v@) && is_valid_lei(v@),
                Err(e) => spec_parse(value@) == Err::<Seq<u8>, LeiError>(e),
            },
    {
        Lei::parse(value)
    }
}

impl<'a> vstd::std_specs::convert::TryFromSpecImpl<&'a str> for Lei {
    open spec fn obeys_try_from_spec() -> bool {
        false
    }

    open spec fn try_from_spec(v: &'a str) -> Result<Lei, LeiError> {
        arbitrary()
    }
}

impl TryFrom<[u8; 20]> for Lei {
    type Error = LeiError;

    fn try_from(value: [u8; 20]) -> (r: Result<Lei, LeiError>)
        ensures
            match r {
                Ok(v) => v@ == value@ && is_valid_lei(value@),
                Err(e) => spec_validate(value@) == Err::<(), LeiError>(e),
            },
    {
        Lei::from_bytes(value)
    }
}

impl vstd::std_specs::convert::TryFromSpecImpl<[u8; 20]> for Lei {
    open spec fn obeys_try_from_spec() -> bool {
        false
    }

    open spec fn try_from_spec(v: [u8; 20]) -> Result<Lei, LeiError> {
        arbitrary()
    }
}

impl<'a> TryFrom<&'a [u8]> for Lei {
    type Error = LeiError;

    /// The slice must hold exactly 20 bytes; any other length is `InvalidLength`.
    fn try_from(value: &'a [u8]) -> (r: Result<Lei, LeiError>)
        ensures
            value@.len() != 20 ==> r == Err::<Lei, LeiError>(
                LeiError::InvalidLength { found: value@.len() as usize },
            ),
            value@.len() == 20 ==> match r {
                Ok(v) => v@ == value@ && is_valid_lei(value@),
                Err(e) => spec_validate(value@) == Err::<(), LeiError>(e),
            },
    {
        if value.len() != 20 {
            return Err(LeiError::InvalidLength { found: value.len() });
        }
        let bytes = [
            value[0], value[1], value[2], value[3], value[4], value[5], value[6], value[7],
            value[8], value[9], value[10], value[11], value[12], value[13], value[14], value[15],
            value[16], value[17], value[18], value[19],
        ];
        assert(bytes@ =~= value@);
        Lei::from_bytes(bytes)
    }
}

impl<'a> vstd::std_specs::convert::TryFromSpecImpl<&'a [u8]> for Lei {
    open spec fn obeys_try_from_spec() -> bool {
        false
    }

    open spec fn try_from_spec(v: &'a [u8]) -> Result<Lei, LeiError> {
        arbitrary()
    }
}

impl Lei {
    /// The four-character LOU prefix (positions 1-4) identifying the issuing Local Operating Unit.
    pub fn lou_prefix(&self) -> (s: &str)
        ensures
            s@ == ascii_chars(self@.subrange(0, 4)),
    {
        proof {
            use_type_invariant(self);
            lemma_valid_lei_classes(self.bytes@);
        }
        ascii_str(vstd::slice::slice_subrange(self.bytes.as_slice(), 0, 4))
    }

    /// The fourteen-character entity-specific part (positions 5-18).
    pub fn entity_id(&self) -> (s: &str)
        ensures
            s@ == ascii_chars(self@.subrange(4, 18)),
    {
        proof {
            use_type_invariant(self);
            lemma_valid_lei_classes(self.bytes@);
        }
        ascii_str(vstd::slice::slice_subrange(self.bytes.as_slice(), 4, 18))
    }

    /// The two check digits (positions 19-20) as one number.
    pub fn check_digits(&self) -> (d: u8)
        ensures
            d == found_check_digits(self@),
            2 <= d <= 98,
    {
        proof {
            use_type_invariant(self);
            lemma_valid_lei_classes(self.bytes@);
        }
        (self.bytes[18] - 48) * 10 + (self.bytes[19] - 48)
    }

    /// The check digits that MOD 97-10 computes from the first 18 characters; for every `Lei` they
    /// equal [`Lei::check_digits`].
    pub fn computed_check_digits(&self) -> (d: u8)
        ensures
            d == check_digits_of(self@.take(18)),
            d == found_check_digits(self@),
    {
        proof {
            use_type_invariant(self);
            lemma_valid_lei_classes(self.bytes@);
        }
        let base: [u8; 18] = [
            self.bytes[0],
            self.bytes[1],
            self.bytes[2],
            self.bytes[3],
            self.bytes[4],
            self.bytes[5],
            self.bytes[6],
            self.bytes[7],
            self.bytes[8],
            self.bytes[9],
            self.bytes[10],
            self.bytes[11],
            self.bytes[12],
            self.bytes[13],
            self.bytes[14],
            self.bytes[15],
            self.bytes[16],
            self.bytes[17],
        ];
        assert(base@ =~= self@.take(18));
        validation::compute_check_digits(&base)
    }
}

} // verus!
