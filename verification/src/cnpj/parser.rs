//! Turns raw, possibly punctuated user input into a normalized 14-byte ASCII candidate: rejects
//! empty input, strips the punctuation conventionally used to display a CNPJ (`.`, `/`, `-`,
//! space) wherever it appears, checks the count of the remaining characters, rejects non-ASCII
//! characters and folds ASCII case.

use super::error::{CharacterClass, CnpjError};
use crate::text::{
    ascii_lower, ascii_lowercase, ascii_upper, ascii_upper_bytes, chars_of, first_failure,
    first_non_ascii, is_ascii_char, lemma_first_failure, lemma_first_failure_bound,
    lemma_first_failure_fails, lemma_first_failure_range, lemma_lower_char, upper_bytes,
};
use super::validation::{class_at, expected_class};
use vstd::prelude::*;

verus! {

/// Characters stripped from the input before length and content checks apply.
pub open spec fn is_formatting_char(c: char) -> bool {
    c == '.' || c == '/' || c == '-' || c == ' '
}

/// The meaningful (non-punctuation) characters of `s`, in order.
pub open spec fn meaningful(s: Seq<char>) -> Seq<char>
    decreases s.len(),
{
    if s.len() == 0 {
        s
    } else if is_formatting_char(s.last()) {
        meaningful(s.drop_last())
    } else {
        meaningful(s.drop_last()).push(s.last())
    }
}

/// The outcome of normalizing the characters `s` of an input.
pub open spec fn spec_normalize(s: Seq<char>) -> Result<Seq<u8>, CnpjError> {
    let m = meaningful(s);
    let k = first_failure(m.len() as int, |j: int| is_ascii_char(m[j]));
    if s.len() == 0 {
        Err(CnpjError::Empty)
    } else if m.len() != 14 {
        Err(CnpjError::InvalidLength { found: m.len() as usize })
    } else if k < 14 {
        Err(
            CnpjError::InvalidCharacter {
                character: m[k],
                position: (k + 1) as u8,
                expected: class_at(k),
            },
        )
    } else {
        Ok(ascii_upper_bytes(m))
    }
}

fn is_formatting(c: char) -> (r: bool)
    ensures
        r == is_formatting_char(c),
{
    c == '.' || c == '/' || c == '-' || c == ' '
}

/// The meaningful characters of `input`.
pub fn meaningful_chars(input: &str) -> (m: Vec<char>)
    ensures
        m@ == meaningful(input@),
{
    let all = chars_of(input);
    let mut m: Vec<char> = Vec::new();
    let mut i: usize = 0;
    assert(all@.take(0) =~= Seq::<char>::empty());
    while i < all.len()
        invariant
            i <= all@.len(),
            m@ == meaningful(all@.take(i as int)),
        decreases all@.len() - i,
    {
        let c = all[i];
        assert(all@.take(i + 1).drop_last() =~= all@.take(i as int));
        assert(all@.take(i + 1).last() == c);
        if !is_formatting(c) {
            m.push(c);
        }
        i = i + 1;
    }
    assert(all@.take(i as int) =~= all@);
    m
}

/// Normalizes `input` into a 14-byte ASCII array.
pub fn normalize(input: &str) -> (r: Result<[u8; 14], CnpjError>)
    ensures
        match r {
            Ok(b) => spec_normalize(input@) == Ok::<Seq<u8>, CnpjError>(b@),
            Err(e) => spec_normalize(input@) == Err::<Seq<u8>, CnpjError>(e),
        },
{
    if input.is_empty() {
        return Err(CnpjError::Empty);
    }
    let m = meaningful_chars(input);
    if m.len() != 14 {
        return Err(CnpjError::InvalidLength { found: m.len() });
    }
    let k = first_non_ascii(&m);
    if k < 14 {
        return Err(
            CnpjError::InvalidCharacter {
                character: m[k],
                position: (k + 1) as u8,
                expected: expected_class(k),
            },
        );
    }
    proof {
        assert forall|j: int| 0 <= j < m@.len() implies is_ascii_char(#[trigger] m@[j]) by {
            lemma_first_failure_bound(14, |j: int| is_ascii_char(m@[j]), j);
        }
    }
    let v = upper_bytes(&m);
    let buf: [u8; 14] = [
        v[0],
        v[1],
        v[2],
        v[3],
        v[4],
        v[5],
        v[6],
        v[7],
        v[8],
        v[9],
        v[10],
        v[11],
        v[12],
        v[13],
    ];
    assert(buf@ =~= v@);
    Ok(buf)
}

/// No formatting character survives in `meaningful(s)`.
pub proof fn lemma_meaningful_has_no_formatting(s: Seq<char>)
    ensures
        forall|i: int|
            0 <= i < meaningful(s).len() ==> !is_formatting_char(#[trigger] meaningful(s)[i]),
        meaningful(s).len() <= s.len(),
    decreases s.len(),
{
    if s.len() > 0 {
        lemma_meaningful_has_no_formatting(s.drop_last());
    }
}

proof fn lemma_meaningful_of_plain(s: Seq<char>)
    requires
        forall|i: int| 0 <= i < s.len() ==> !is_formatting_char(#[trigger] s[i]),
    ensures
        meaningful(s) == s,
    decreases s.len(),
{
    if s.len() > 0 {
        lemma_meaningful_of_plain(s.drop_last());
        assert(meaningful(s) =~= s);
    }
}

/// Stripping formatting twice strips nothing more.
pub proof fn lemma_meaningful_idempotent(s: Seq<char>)
    ensures
        meaningful(meaningful(s)) == meaningful(s),
{
    lemma_meaningful_has_no_formatting(s);
    lemma_meaningful_of_plain(meaningful(s));
}

/// Stripping formatting commutes with lower-casing.
pub proof fn lemma_meaningful_lower(s: Seq<char>)
    ensures
        meaningful(ascii_lowercase(s)) == ascii_lowercase(meaningful(s)),
    decreases s.len(),
{
    if s.len() > 0 {
        let l = ascii_lowercase(s);
        assert(l.drop_last() =~= ascii_lowercase(s.drop_last()));
        assert(l.last() == ascii_lower(s.last()));
        lemma_meaningful_lower(s.drop_last());
        let m = meaningful(s.drop_last());
        assert(ascii_lowercase(m.push(s.last())) =~= ascii_lowercase(m).push(ascii_lower(s.last())));
    }
}

/// Normalization does not depend on the case of the input's letters.
pub proof fn lemma_normalize_lower(s: Seq<char>)
    ensures
        spec_normalize(ascii_lowercase(s)) == spec_normalize(s),
{
    let m = meaningful(s);
    let l = meaningful(ascii_lowercase(s));
    lemma_meaningful_lower(s);
    assert forall|j: int| 0 <= j < m.len() implies l[j] == ascii_lower(m[j]) && is_ascii_char(
        #[trigger] l[j],
    ) == is_ascii_char(m[j]) && ascii_upper(l[j]) == ascii_upper(m[j]) by {
        lemma_lower_char(m[j]);
    }
    let k = first_failure(m.len() as int, |j: int| is_ascii_char(m[j]));
    lemma_first_failure_range(m.len() as int, |j: int| is_ascii_char(m[j]));
    assert forall|j: int| 0 <= j < k implies #[trigger] is_ascii_char(l[j]) by {
        lemma_first_failure_bound(m.len() as int, |j: int| is_ascii_char(m[j]), j);
    }
    lemma_first_failure_fails(m.len() as int, |j: int| is_ascii_char(m[j]));
    if k < m.len() {
        lemma_lower_char(m[k]);
    }
    lemma_first_failure(l.len() as int, |j: int| is_ascii_char(l[j]), k);
    assert(ascii_upper_bytes(l) =~= ascii_upper_bytes(m));
}

} // verus!
