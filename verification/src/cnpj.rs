//! CNPJ (Cadastro Nacional da Pessoa Juridica): Brazil's national registry identifier for legal
//! entities.
//!
//! A CNPJ has 14 meaningful characters: an 8-character root (positions 1-8), a 4-character
//! branch/order segment (positions 9-12; `"0001"` conventionally denotes the head office), both
//! digits or uppercase letters, and two Modulo 11 verification digits (positions 13-14). Parsing
//! accepts the punctuated `AA.AAA.AAA/AAAA-DD` form as well as the compact form. Every constructor
//! runs the same rules, in order: length (after punctuation is stripped), character class per
//! position, not a single repeated character, verification digits.

pub mod error;
pub mod parser;
pub mod validation;

pub use error::{CharacterClass, CnpjError};

use crate::text::{
    ascii_chars, ascii_lowercase, ascii_str, bytes_equal, is_alphanumeric, is_digit,
    lemma_first_failure,
};
use parser::{
    is_formatting_char, lemma_meaningful_has_no_formatting, lemma_meaningful_idempotent,
    lemma_normalize_lower, meaningful, spec_normalize,
};
use validation::{is_valid_cnpj, lemma_valid_cnpj_classes, spec_validate};
use vstd::prelude::*;
use vstd::string::StringSliceAdditionalSpecFns;

verus! {

/// The outcome of parsing the characters `s`: normalization, then validation, where a rejected
/// character is reported as it appears in the input (before case folding).
pub open spec fn spec_parse(s: Seq<char>) -> Result<Seq<u8>, CnpjError> {
    match spec_normalize(s) {
        Err(e) => Err(e),
        Ok(b) => match spec_validate(b) {
            Ok(()) => Ok(b),
            Err(CnpjError::InvalidCharacter { character: _, position, expected }) => Err(
                CnpjError::InvalidCharacter {
                    character: meaningful(s)[position - 1],
                    position,
                    expected,
                },
            ),
            Err(e) => Err(e),
        },
    }
}

/// The punctuated `AA.AAA.AAA/AAAA-DD` layout of 14 compact bytes.
pub open spec fn formatted_bytes(d: Seq<u8>) -> Seq<u8> {
    seq![
        d[0],
        d[1],
        46u8,
        d[2],
        d[3],
        d[4],
        46u8,
        d[5],
        d[6],
        d[7],
        47u8,
        d[8],
        d[9],
        d[10],
        d[11],
        45u8,
        d[12],
        d[13],
    ]
}

/// The branch/order segment as a number when its four characters are digits.
pub open spec fn branch_number_of(b: Seq<u8>) -> Option<u16> {
    if is_digit(b[8]) && is_digit(b[9]) && is_digit(b[10]) && is_digit(b[11]) {
        Some(((b[8] - 48) * 1000 + (b[9] - 48) * 100 + (b[10] - 48) * 10 + (b[11] - 48)) as u16)
    } else {
        None
    }
}

/// The four decimal digits of `n`, zero-padded, as `format!("{n:04}")` writes them for `n` below
/// 10000.
pub open spec fn four_digits(n: int) -> Seq<char> {
    seq![
        (n / 1000 + 48) as char,
        ((n / 100) % 10 + 48) as char,
        ((n / 10) % 10 + 48) as char,
        (n % 10 + 48) as char,
    ]
}

/// The branch number is present exactly when the branch segment is four digits, and writing it
/// back with four zero-padded digits gives the segment.
pub proof fn lemma_branch_number_round_trip(b: Seq<u8>)
    requires
        b.len() == 14,
    ensures
        branch_number_of(b) is Some <==> (is_digit(b[8]) && is_digit(b[9]) && is_digit(b[10])
            && is_digit(b[11])),
        branch_number_of(b) matches Some(n) ==> n <= 9999 && four_digits(n as int) == ascii_chars(
            b.subrange(8, 12),
        ),
{
    if is_digit(b[8]) && is_digit(b[9]) && is_digit(b[10]) && is_digit(b[11]) {
        let d0: int = b[8] - 48;
        let d1: int = b[9] - 48;
        let d2: int = b[10] - 48;
        let d3: int = b[11] - 48;
        let n: int = d0 * 1000 + d1 * 100 + d2 * 10 + d3;
        assert(0 <= n <= 9999);
        assert(n / 1000 == d0 && (n / 100) % 10 == d1 && (n / 10) % 10 == d2 && n % 10 == d3)
            by (nonlinear_arith)
            requires
                0 <= d0 <= 9,
                0 <= d1 <= 9,
                0 <= d2 <= 9,
                0 <= d3 <= 9,
                n == d0 * 1000 + d1 * 100 + d2 * 10 + d3,
        ;
        let m = branch_number_of(b)->0;
        assert(m as int == n);
        assert(four_digits(n) =~= ascii_chars(b.subrange(8, 12)));
    }
}

proof fn lemma_meaningful_concat(a: Seq<char>, b: Seq<char>)
    ensures
        meaningful(a + b) == meaningful(a) + meaningful(b),
    decreases b.len(),
{
    if b.len() == 0 {
        assert(a + b =~= a);
        assert(meaningful(a) + meaningful(b) =~= meaningful(a));
    } else {
        assert((a + b).drop_last() =~= a + b.drop_last());
        lemma_meaningful_concat(a, b.drop_last());
        if !is_formatting_char(b.last()) {
            assert(meaningful(a + b) =~= meaningful(a) + meaningful(b));
        }
    }
}

proof fn lemma_meaningful_plain(s: Seq<char>)
    requires
        forall|i: int| 0 <= i < s.len() ==> !is_formatting_char(#[trigger] s[i]),
    ensures
        meaningful(s) == s,
    decreases s.len(),
{
    if s.len() > 0 {
        lemma_meaningful_plain(s.drop_last());
        assert(meaningful(s) =~= s);
    }
}

/// Parsing the punctuated rendering of a valid CNPJ gives that CNPJ back.
pub proof fn lemma_parse_formatted(b: Seq<u8>)
    requires
        is_valid_cnpj(b),
    ensures
        spec_parse(ascii_chars(formatted_bytes(b))) == Ok::<Seq<u8>, CnpjError>(b),
{
    lemma_valid_cnpj_classes(b);
    let f = ascii_chars(formatted_bytes(b));
    let c = ascii_chars(b);
    assert forall|i: int| 0 <= i < c.len() implies !is_formatting_char(#[trigger] c[i]) by {
        assert(is_alphanumeric(b[i]));
    }
    let p1 = c.subrange(0, 2);
    let p2 = c.subrange(2, 5);
    let p3 = c.subrange(5, 8);
    let p4 = c.subrange(8, 12);
    let p5 = c.subrange(12, 14);
    assert(f =~= p1 + seq!['.'] + p2 + seq!['.'] + p3 + seq!['/'] + p4 + seq!['-'] + p5);
    lemma_meaningful_plain(p1);
    lemma_meaningful_plain(p2);
    lemma_meaningful_plain(p3);
    lemma_meaningful_plain(p4);
    lemma_meaningful_plain(p5);
    assert(seq!['.'].drop_last() =~= Seq::<char>::empty());
    assert(seq!['/'].drop_last() =~= Seq::<char>::empty());
    assert(seq!['-'].drop_last() =~= Seq::<char>::empty());
    assert(meaningful(Seq::<char>::empty()) == Seq::<char>::empty());
    assert(seq!['.'].last() == '.' && seq!['/'].last() == '/' && seq!['-'].last() == '-');
    assert(meaningful(seq!['.']) =~= Seq::<char>::empty());
    assert(meaningful(seq!['/']) =~= Seq::<char>::empty());
    assert(meaningful(seq!['-']) =~= Seq::<char>::empty());
    lemma_meaningful_concat(p1, seq!['.']);
    lemma_meaningful_concat(p1 + seq!['.'], p2);
    lemma_meaningful_concat(p1 + seq!['.'] + p2, seq!['.']);
    lemma_meaningful_concat(p1 + seq!['.'] + p2 + seq!['.'], p3);
    lemma_meaningful_concat(p1 + seq!['.'] + p2 + seq!['.'] + p3, seq!['/']);
    lemma_meaningful_concat(p1 + seq!['.'] + p2 + seq!['.'] + p3 + seq!['/'], p4);
    lemma_meaningful_concat(p1 + seq!['.'] + p2 + seq!['.'] + p3 + seq!['/'] + p4, seq!['-']);
    lemma_meaningful_concat(
        p1 + seq!['.'] + p2 + seq!['.'] + p3 + seq!['/'] + p4 + seq!['-'],
        p5,
    );
    assert(meaningful(f) =~= c);
    crate::text::lemma_first_failure(
        14,
        |j: int| crate::text::is_ascii_char(c[j]),
        14,
    );
    assert(crate::text::ascii_upper_bytes(c) =~= b);
}

/// Parsing the compact 14-character form of a valid CNPJ gives that CNPJ back.
pub proof fn lemma_parse_canonical(b: Seq<u8>)
    requires
        is_valid_cnpj(b),
    ensures
        spec_parse(ascii_chars(b)) == Ok::<Seq<u8>, CnpjError>(b),
{
    lemma_valid_cnpj_classes(b);
    let c = ascii_chars(b);
    assert forall|i: int| 0 <= i < c.len() implies !is_formatting_char(#[trigger] c[i]) by {
        assert(is_alphanumeric(b[i]));
    }
    lemma_meaningful_plain(c);
    crate::text::lemma_first_failure(14, |j: int| crate::text::is_ascii_char(c[j]), 14);
    assert(crate::text::ascii_upper_bytes(c) =~= b);
}

/// Parsing ignores the case of ASCII letters: two inputs that differ only there are accepted
/// alike, as the same value. (A rejected character is reported as written, so its case may
/// differ between the two errors.)
pub proof fn lemma_parse_ignores_case(s1: Seq<char>, s2: Seq<char>)
    requires
        ascii_lowercase(s1) == ascii_lowercase(s2),
    ensures
        spec_parse(s1) is Ok <==> spec_parse(s2) is Ok,
        spec_parse(s1) is Ok ==> spec_parse(s1) == spec_parse(s2),
{
    lemma_normalize_lower(s1);
    lemma_normalize_lower(s2);
}

/// Parsing ignores the punctuation used to display a CNPJ: an input parses as its meaningful
/// characters do, as long as it has any.
pub proof fn lemma_parse_ignores_formatting(s: Seq<char>)
    requires
        meaningful(s).len() > 0,
    ensures
        spec_parse(meaningful(s)) == spec_parse(s),
{
    lemma_meaningful_idempotent(s);
    lemma_meaningful_has_no_formatting(s);
}

/// A validated CNPJ, stored as its 14 uppercase ASCII bytes.
#[derive(Clone, Copy, Eq, Ord, Hash, Debug)]
pub struct Cnpj {
    bytes: [u8; 14],
}

impl View for Cnpj {
    type V = Seq<u8>;

    closed spec fn view(&self) -> Seq<u8> {
        self.bytes@
    }
}

impl Cnpj {
    #[verifier::type_invariant]
    spec fn well_formed(self) -> bool {
        is_valid_cnpj(self.bytes@)
    }

    /// Parses the input: normalizes it (see [`parser::normalize`]), then validates it.
    pub fn parse(input: &str) -> (r: Result<Cnpj, CnpjError>)
        ensures
            match r {
                Ok(v) => spec_parse(input@) == Ok::<Seq<u8>, CnpjError>(v@) && is_valid_cnpj(v@),
                Err(e) => spec_parse(input@) == Err::<Seq<u8>, CnpjError>(e),
            },
    {
        let candidate = match parser::normalize(input) {
            Ok(c) => c,
            Err(e) => return Err(e),
        };
        match validation::validate(&candidate) {
            Ok(()) => Ok(Cnpj { bytes: candidate }),
            Err(CnpjError::InvalidCharacter { character: _, position, expected }) => {
                proof {
                    crate::text::lemma_first_failure_range(
                        14,
                        |i: int| validation::class_allows(validation::class_at(i), candidate@[i]),
                    );
                }
                // Report the character as the input spelled it, before case folding.
                let m = parser::meaningful_chars(input);
                assert(1 <= position <= 14 && m@.len() == 14);
                Err(
                    CnpjError::InvalidCharacter {
                        character: m[(position - 1) as usize],
                        position,
                        expected,
                    },
                )
            },
            Err(e) => Err(e),
        }
    }

    /// Alias for `parse`.
    pub fn new(input: &str) -> (r: Result<Cnpj, CnpjError>)
        ensures
            match r {
                Ok(v) => spec_parse(input@) == Ok::<Seq<u8>, CnpjError>(v@) && is_valid_cnpj(v@),
                Err(e) => spec_parse(input@) == Err::<Seq<u8>, CnpjError>(e),
            },
    {
        Self::parse(input)
    }

    /// Constructs a value from 14 bytes that must already be uppercase and valid per position.
    pub fn from_bytes(bytes: [u8; 14]) -> (r: Result<Cnpj, CnpjError>)
        ensures
            match r {
                Ok(v) => v@ == bytes@ && is_valid_cnpj(bytes@),
                Err(e) => spec_validate(bytes@) == Err::<(), CnpjError>(e),
            },
    {
        validation::validate(&bytes)?;
        Ok(Cnpj { bytes })
    }

    /// The 14 ASCII bytes.
    pub fn as_bytes(&self) -> (b: &[u8; 14])
        ensures
            b@ == self@,
            is_valid_cnpj(self@),
    {
        proof {
            use_type_invariant(self);
        }
        &self.bytes
    }

    /// The canonical 14-character string.
    pub fn as_str(&self) -> (s: &str)
        ensures
            s@ == ascii_chars(self@),
    {
        proof {
            use_type_invariant(self);
            lemma_valid_cnpj_classes(self.bytes@);
        }
        ascii_str(self.bytes.as_slice())
    }

}

impl PartialEq for Cnpj {
    fn eq(&self, other: &Self) -> (r: bool) {
        bytes_equal(self.bytes.as_slice(), other.bytes.as_slice())
    }
}

impl vstd::std_specs::cmp::PartialEqSpecImpl for Cnpj {
    open spec fn obeys_eq_spec() -> bool {
        true
    }

    open spec fn eq_spec(&self, other: &Self) -> bool {
        self@ == other@
    }
}

impl PartialEq<str> for Cnpj {
    /// Compares against the bytes of a string slice (the canonical form).
    fn eq(&self, other: &str) -> (r: bool) {
        bytes_equal(self.bytes.as_slice(), other.as_bytes())
    }
}

impl vstd::std_specs::cmp::PartialEqSpecImpl<str> for Cnpj {
    open spec fn obeys_eq_spec() -> bool {
        true
    }

    open spec fn eq_spec(&self, other: &str) -> bool {
        self@ == other.spec_bytes()
    }
}

impl<'a> PartialEq<&'a str> for Cnpj {
    fn eq(&self, other: &&'a str) -> (r: bool) {
        bytes_equal(self.bytes.as_slice(), other.as_bytes())
    }
}

impl<'a> vstd::std_specs::cmp::PartialEqSpecImpl<&'a str> for Cnpj {
    open spec fn obeys_eq_spec() -> bool {
        true
    }

    open spec fn eq_spec(&self, other: &&'a str) -> bool {
        self@ == other.spec_bytes()
    }
}

impl PartialEq<Cnpj> for str {
    fn eq(&self, other: &Cnpj) -> (r: bool) {
        bytes_equal(self.as_bytes(), other.bytes.as_slice())
    }
}

impl vstd::std_specs::cmp::PartialEqSpecImpl<Cnpj> for str {
    open spec fn obeys_eq_spec() -> bool {
        true
    }

    open spec fn eq_spec(&self, other: &Cnpj) -> bool {
        self.spec_bytes() == other@
    }
}

impl<'a> PartialEq<Cnpj> for &'a str {
    fn eq(&self, other: &Cnpj) -> (r: bool) {
        bytes_equal(self.as_bytes(), other.bytes.as_slice())
    }
}

impl<'a> vstd::std_specs::cmp::PartialEqSpecImpl<Cnpj> for &'a str {
    open spec fn obeys_eq_spec() -> bool {
        true
    }

    open spec fn eq_spec(&self, other: &Cnpj) -> bool {
        self.spec_bytes() == other@
    }
}

impl AsRef<[u8]> for Cnpj {
    fn as_ref(&self) -> &[u8] {
        self.bytes.as_slice()
    }
}

impl AsRef<str> for Cnpj {
    fn as_ref(&self) -> &str {
        self.as_str()
    }
}

impl core::str::FromStr for Cnpj {
    type Err = CnpjError;

    fn from_str(s: &str) -> (r: Result<Cnpj, CnpjError>)
        ensures
            match r {
                Ok(v) => spec_parse(s@) == Ok::<Seq<u8>, CnpjError>(v@) && is_valid_cnpj(v@),
                Err(e) => spec_parse(s@) == Err::<Seq<u8>, CnpjError>(e),
            },
    {
        Cnpj::parse(s)
    }
}

impl<'a> TryFrom<&'a str> for Cnpj {
    type Error = CnpjError;

    fn try_from(value: &'a str) -> (r: Result<Cnpj, CnpjError>)
        ensures
            match r {
                Ok(v) => spec_parse(value@) == Ok::<Seq<u8>, CnpjError>(v@) && is_valid_cnpj(v@),
                Err(e) => spec_parse(value@) == Err::<Seq<u8>, CnpjError>(e),
            },
    {
        Cnpj::parse(value)
    }
}

impl<'a> vstd::std_specs::convert::TryFromSpecImpl<&'a str> for Cnpj {
    open spec fn obeys_try_from_spec() -> bool {
        false
    }

    open spec fn try_from_spec(v: &'a str) -> Result<Cnpj, CnpjError> {
        arbitrary()
    }
}

impl TryFrom<[u8; 14]> for Cnpj {
    type Error = CnpjError;

    fn try_from(value: [u8; 14]) -> (r: Result<Cnpj, CnpjError>)
        ensures
            match r {
                Ok(v) => v@ == value@ && is_valid_cnpj(value@),
                Err(e) => spec_validate(value@) == Err::<(), CnpjError>(e),
            },
    {
        Cnpj::from_bytes(value)
    }
}

impl vstd::std_specs::convert::TryFromSpecImpl<[u8; 14]> for Cnpj {
    open spec fn obeys_try_from_spec() -> bool {
        false
    }

    open spec fn try_from_spec(v: [u8; 14]) -> Result<Cnpj, CnpjError> {
        arbitrary()
    }
}

impl<'a> TryFrom<&'a [u8]> for Cnpj {
    type Error = CnpjError;

    /// The slice must hold exactly 14 bytes; any other length is `InvalidLength`.
    fn try_from(value: &'a [u8]) -> (r: Result<Cnpj, CnpjError>)
        ensures
            value@.len() != 14 ==> r == Err::<Cnpj, CnpjError>(
                CnpjError::InvalidLength { found: value@.len() as usize },
            ),
            value@.len() == 14 ==> match r {
                Ok(v) => v@ == value@ && is_valid_cnpj(value@),
                Err(e) => spec_validate(value@) == Err::<(), CnpjError>(e),
            },
    {
        if value.len() != 14 {
            return Err(CnpjError::InvalidLength { found: value.len() });
        }
        let bytes = [
            value[0], value[1], value[2], value[3], value[4], value[5], value[6], value[7],
            value[8], value[9], value[10], value[11], value[12], value[13],
        ];
        assert(bytes@ =~= value@);
        Cnpj::from_bytes(bytes)
    }
}

impl<'a> vstd::std_specs::convert::TryFromSpecImpl<&'a [u8]> for Cnpj {
    open spec fn obeys_try_from_spec() -> bool {
        false
    }

    open spec fn try_from_spec(v: &'a [u8]) -> Result<Cnpj, CnpjError> {
        arbitrary()
    }
}

impl Cnpj {
    /// The punctuated `AA.AAA.AAA/AAAA-DD` rendering, built without heap allocation.
    pub fn formatted(&self) -> (f: FormattedCnpj)
        ensures
            f@ == formatted_bytes(self@),
    {
        FormattedCnpj::new(self)
    }

    /// The 8-character root segment, shared by the head office and every branch.
    pub fn root(&self) -> (s: &str)
        ensures
            s@ == ascii_chars(self@.subrange(0, 8)),
    {
        proof {
            use_type_invariant(self);
            lemma_valid_cnpj_classes(self.bytes@);
        }
        ascii_str(vstd::slice::slice_subrange(self.bytes.as_slice(), 0, 8))
    }

    /// The 4-character branch/order segment (positions 9-12).
    pub fn branch_code(&self) -> (s: &str)
        ensures
            s@ == ascii_chars(self@.subrange(8, 12)),
    {
        proof {
            use_type_invariant(self);
            lemma_valid_cnpj_classes(self.bytes@);
        }
        ascii_str(vstd::slice::slice_subrange(self.bytes.as_slice(), 8, 12))
    }

    /// Whether the branch/order segment is `"0001"` (the head office).
    pub fn is_root(&self) -> (r: bool)
        ensures
            r == (self@[8] == 48 && self@[9] == 48 && self@[10] == 48 && self@[11] == 49),
    {
        self.bytes[8] == 48 && self.bytes[9] == 48 && self.bytes[10] == 48 && self.bytes[11] == 49
    }

    /// The branch/order segment as a number, or `None` when it holds a letter.
    pub fn branch_number(&self) -> (r: Option<u16>)
        ensures
            r == branch_number_of(self@),
    {
        let d0 = self.bytes[8];
        let d1 = self.bytes[9];
        let d2 = self.bytes[10];
        let d3 = self.bytes[11];
        if 48 <= d0 && d0 <= 57 && 48 <= d1 && d1 <= 57 && 48 <= d2 && d2 <= 57 && 48 <= d3 && d3
            <= 57 {
            Some(
                (d0 - 48) as u16 * 1000 + (d1 - 48) as u16 * 100 + (d2 - 48) as u16 * 10 + (d3
                    - 48) as u16,
            )
        } else {
            None
        }
    }

    /// The two verification digits as numbers.
    pub fn check_digits(&self) -> (dvs: (u8, u8))
        ensures
            dvs.0 == self@[12] - 48,
            dvs.1 == self@[13] - 48,
    {
        proof {
            use_type_invariant(self);
            lemma_valid_cnpj_classes(self.bytes@);
        }
        (self.bytes[12] - 48, self.bytes[13] - 48)
    }

    /// The punctuated rendering (what `Display` shows).
    pub fn to_string(&self) -> (s: String)
        ensures
            s@ == ascii_chars(formatted_bytes(self@)),
    {
        self.formatted().to_string()
    }

    /// The debugging rendering, `Cnpj("AA.AAA.AAA/AAAA-DD")`.
    pub fn debug_string(&self) -> (s: String)
        ensures
            s@ == "Cnpj(\""@ + ascii_chars(formatted_bytes(self@)) + "\")"@,
    {
        let f = self.formatted();
        let mut s = String::from_str("Cnpj(\"");
        s.append(f.as_str());
        s.append("\")");
        s
    }
}

/// A stack-allocated punctuated rendering of a [`Cnpj`] (`AA.AAA.AAA/AAAA-DD`).
#[derive(Clone, Copy, Eq, Hash, Debug)]
pub struct FormattedCnpj([u8; 18]);

impl View for FormattedCnpj {
    type V = Seq<u8>;

    closed spec fn view(&self) -> Seq<u8> {
        self.0@
    }
}

impl FormattedCnpj {
    #[verifier::type_invariant]
    spec fn well_formed(self) -> bool {
        forall|i: int| 0 <= i < 18 ==> #[trigger] self.0@[i] < 128
    }

    pub(crate) fn new(cnpj: &Cnpj) -> (f: FormattedCnpj)
        ensures
            f@ == formatted_bytes(cnpj@),
    {
        let d = cnpj.as_bytes();
        proof {
            lemma_valid_cnpj_classes(d@);
        }
        let layout: [u8; 18] = [
            d[0],
            d[1],
            46,
            d[2],
            d[3],
            d[4],
            46,
            d[5],
            d[6],
            d[7],
            47,
            d[8],
            d[9],
            d[10],
            d[11],
            45,
            d[12],
            d[13],
        ];
        assert(layout@ =~= formatted_bytes(d@));
        FormattedCnpj(layout)
    }

    /// The punctuated rendering as a `&str`.
    pub fn as_str(&self) -> (s: &str)
        ensures
            s@ == ascii_chars(self@),
    {
        proof {
            use_type_invariant(self);
        }
        ascii_str(self.0.as_slice())
    }

    /// The punctuated rendering as a `String` (what `Display` shows).
    pub fn to_string(&self) -> (s: String)
        ensures
            s@ == ascii_chars(self@),
    {
        String::from_str(self.as_str())
    }

    /// The debugging rendering, `FormattedCnpj("AA.AAA.AAA/AAAA-DD")`.
    pub fn debug_string(&self) -> (s: String)
        ensures
            s@ == "FormattedCnpj(\""@ + ascii_chars(self@) + "\")"@,
    {
        let mut s = String::from_str("FormattedCnpj(\"");
        s.append(self.as_str());
        s.append("\")");
        s
    }
}

impl PartialEq for FormattedCnpj {
    fn eq(&self, other: &Self) -> (r: bool) {
        bytes_equal(self.0.as_slice(), other.0.as_slice())
    }
}

impl vstd::std_specs::cmp::PartialEqSpecImpl for FormattedCnpj {
    open spec fn obeys_eq_spec() -> bool {
        true
    }

    open spec fn eq_spec(&self, other: &Self) -> bool {
        self@ == other@
    }
}

impl core::ops::Deref for FormattedCnpj {
    type Target = str;

    fn deref(&self) -> &str {
        self.as_str()
    }
}

impl AsRef<str> for FormattedCnpj {
    fn as_ref(&self) -> &str {
        self.as_str()
    }
}

} // verus!
