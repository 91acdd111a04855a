//! Text handling shared by every identifier: reading the characters of a `&str`, trimming
//! surrounding whitespace, ASCII classification and case folding, locating the first position
//! that breaks a rule, and rendering small pieces of text (decimal numbers, single characters).

use vstd::prelude::*;

verus! {

/// The Unicode `White_Space` property, which is what `char::is_whitespace` (and therefore
/// `str::trim`) tests.
pub open spec fn is_whitespace(c: char) -> bool {
    let u = c as u32;
    ||| 0x09 <= u <= 0x0d
    ||| u == 0x20
    ||| u == 0x85
    ||| u == 0xa0
    ||| u == 0x1680
    ||| 0x2000 <= u <= 0x200a
    ||| u == 0x2028
    ||| u == 0x2029
    ||| u == 0x202f
    ||| u == 0x205f
    ||| u == 0x3000
}

/// `s` without its leading whitespace.
pub open spec fn trim_start(s: Seq<char>) -> Seq<char>
    decreases s.len(),
{
    if s.len() > 0 && is_whitespace(s[0]) {
        trim_start(s.drop_first())
    } else {
        s
    }
}

/// `s` without its trailing whitespace.
pub open spec fn trim_end(s: Seq<char>) -> Seq<char>
    decreases s.len(),
{
    if s.len() > 0 && is_whitespace(s.last()) {
        trim_end(s.drop_last())
    } else {
        s
    }
}

/// `s` without its surrounding whitespace, as `str::trim` returns it.
pub open spec fn trim(s: Seq<char>) -> Seq<char> {
    trim_end(trim_start(s))
}

/// A character in the ASCII range.
pub open spec fn is_ascii_char(c: char) -> bool {
    (c as u32) < 128
}

/// The byte of an ASCII character after ASCII upper-casing (`'a'..='z'` become `'A'..='Z'`).
pub open spec fn ascii_upper(c: char) -> u8 {
    let u = c as u32;
    if 97 <= u <= 122 {
        (u - 32) as u8
    } else {
        u as u8
    }
}

/// The ASCII upper-cased bytes of a sequence of ASCII characters.
pub open spec fn ascii_upper_bytes(s: Seq<char>) -> Seq<u8> {
    Seq::new(s.len(), |i: int| ascii_upper(s[i]))
}

/// The characters spelled by a sequence of ASCII bytes.
pub open spec fn ascii_chars(b: Seq<u8>) -> Seq<char> {
    Seq::new(b.len(), |i: int| b[i] as char)
}

pub open spec fn is_digit(b: u8) -> bool {
    48 <= b <= 57
}

pub open spec fn is_upper(b: u8) -> bool {
    65 <= b <= 90
}

pub open spec fn is_alphanumeric(b: u8) -> bool {
    is_digit(b) || is_upper(b)
}

/// The smallest `k` in `i..n` at which `ok` fails, or `n` when it holds everywhere there.
pub open spec fn scan_from(i: int, n: int, ok: spec_fn(int) -> bool) -> int
    decreases n - i,
{
    if i >= n {
        n
    } else if !ok(i) {
        i
    } else {
        scan_from(i + 1, n, ok)
    }
}

/// The first position in `0..n` at which `ok` fails, or `n` when it holds at every position.
pub open spec fn first_failure(n: int, ok: spec_fn(int) -> bool) -> int {
    scan_from(0, n, ok)
}

proof fn lemma_scan_from(i: int, n: int, ok: spec_fn(int) -> bool, k: int)
    requires
        i <= k <= n,
        forall|j: int| i <= j < k ==> #[trigger] ok(j),
        k < n ==> !ok(k),
    ensures
        scan_from(i, n, ok) == k,
    decreases k - i,
{
    if i < k {
        lemma_scan_from(i + 1, n, ok, k);
    }
}

/// `first_failure` is the position that a left-to-right scan stops at.
pub proof fn lemma_first_failure(n: int, ok: spec_fn(int) -> bool, k: int)
    requires
        0 <= k <= n,
        forall|j: int| 0 <= j < k ==> #[trigger] ok(j),
        k < n ==> !ok(k),
    ensures
        first_failure(n, ok) == k,
{
    lemma_scan_from(0, n, ok, k);
}

proof fn lemma_trim_start(s: Seq<char>, k: int)
    requires
        0 <= k <= s.len(),
        forall|j: int| 0 <= j < k ==> is_whitespace(s[j]),
        k < s.len() ==> !is_whitespace(s[k]),
    ensures
        trim_start(s) == s.subrange(k, s.len() as int),
    decreases k,
{
    if k > 0 {
        assert forall|j: int| 0 <= j < k - 1 implies is_whitespace(s.drop_first()[j]) by {
            assert(s.drop_first()[j] == s[j + 1]);
        }
        lemma_trim_start(s.drop_first(), k - 1);
        assert(s.drop_first().subrange(k - 1, s.len() - 1) =~= s.subrange(k, s.len() as int));
    } else {
        assert(s.subrange(0, s.len() as int) =~= s);
    }
}

proof fn lemma_trim_end(s: Seq<char>, e: int)
    requires
        0 <= e <= s.len(),
        forall|j: int| e <= j < s.len() ==> is_whitespace(s[j]),
        e > 0 ==> !is_whitespace(s[e - 1]),
    ensures
        trim_end(s) == s.subrange(0, e),
    decreases s.len() - e,
{
    if e < s.len() {
        lemma_trim_end(s.drop_last(), e);
        assert(s.drop_last().subrange(0, e) =~= s.subrange(0, e));
    } else {
        assert(s.subrange(0, e) =~= s);
    }
}

/// Every character of `input`, in order.
pub fn chars_of(input: &str) -> (v: Vec<char>)
    ensures
        v@ == input@,
{
    let mut v: Vec<char> = Vec::new();
    for c in it: input.chars()
        invariant
            v@ == it.seq().take(it.index() as int),
    {
        v.push(c);
    }
    v
}

pub fn is_whitespace_char(c: char) -> (r: bool)
    ensures
        r == is_whitespace(c),
{
    let u = c as u32;
    (0x09 <= u && u <= 0x0d) || u == 0x20 || u == 0x85 || u == 0xa0 || u == 0x1680 || (0x2000
        <= u && u <= 0x200a) || u == 0x2028 || u == 0x2029 || u == 0x202f || u == 0x205f || u
        == 0x3000
}

/// The characters of `input` with surrounding whitespace removed (what `input.trim().chars()`
/// yields).
pub fn trimmed_chars(input: &str) -> (v: Vec<char>)
    ensures
        v@ == trim(input@),
{
    let all = chars_of(input);
    let n = all.len();
    let mut start: usize = 0;
    while start < n && is_whitespace_char(all[start])
        invariant
            start <= n,
            n == all@.len(),
            forall|j: int| 0 <= j < start ==> is_whitespace(all@[j]),
        decreases n - start,
    {
        start = start + 1;
    }
    proof {
        lemma_trim_start(all@, start as int);
    }
    let mut end: usize = n;
    while end > start && is_whitespace_char(all[end - 1])
        invariant
            start <= end <= n,
            n == all@.len(),
            forall|j: int| end <= j < n ==> is_whitespace(all@[j]),
        decreases end - start,
    {
        end = end - 1;
    }
    let ghost middle = all@.subrange(start as int, n as int);
    proof {
        assert forall|j: int| end - start <= j < middle.len() implies is_whitespace(
            middle[j],
        ) by {
            assert(middle[j] == all@[start + j]);
        }
        if end > start {
            assert(middle[end - start - 1] == all@[end - 1]);
        }
        lemma_trim_end(middle, end - start);
    }
    let mut out: Vec<char> = Vec::new();
    let mut i: usize = start;
    while i < end
        invariant
            start <= i <= end <= n,
            n == all@.len(),
            out@ == all@.subrange(start as int, i as int),
        decreases end - i,
    {
        out.push(all[i]);
        i = i + 1;
        assert(out@ =~= all@.subrange(start as int, i as int));
    }
    assert(middle.subrange(0, end - start) =~= all@.subrange(start as int, end as int));
    out
}

/// The position of the first non-ASCII character of `v`, or `v.len()` when there is none.
pub fn first_non_ascii(v: &Vec<char>) -> (k: usize)
    ensures
        k == first_failure(v@.len() as int, |j: int| is_ascii_char(v@[j])),
{
    let mut k: usize = 0;
    while k < v.len() && (v[k] as u32) < 128
        invariant
            k <= v@.len(),
            forall|j: int| 0 <= j < k ==> is_ascii_char(v@[j]),
        decreases v@.len() - k,
    {
        k = k + 1;
    }
    proof {
        lemma_first_failure(v@.len() as int, |j: int| is_ascii_char(v@[j]), k as int);
    }
    k
}

pub fn upper_byte(c: char) -> (b: u8)
    requires
        is_ascii_char(c),
    ensures
        b == ascii_upper(c),
{
    let u = c as u32;
    if 97 <= u && u <= 122 {
        (u - 32) as u8
    } else {
        u as u8
    }
}

/// The ASCII upper-cased bytes of a sequence of ASCII characters.
pub fn upper_bytes(v: &Vec<char>) -> (b: Vec<u8>)
    requires
        forall|j: int| 0 <= j < v@.len() ==> is_ascii_char(#[trigger] v@[j]),
    ensures
        b@ == ascii_upper_bytes(v@),
{
    let mut b: Vec<u8> = Vec::new();
    let mut i: usize = 0;
    while i < v.len()
        invariant
            i <= v@.len(),
            forall|j: int| 0 <= j < v@.len() ==> is_ascii_char(#[trigger] v@[j]),
            b@ == ascii_upper_bytes(v@.take(i as int)),
        decreases v@.len() - i,
    {
        b.push(upper_byte(v[i]));
        i = i + 1;
        assert(b@ =~= ascii_upper_bytes(v@.take(i as int)));
    }
    assert(v@.take(i as int) =~= v@);
    b
}


/// Why a trimmed, fixed-length candidate could not be read from the input.
#[derive(Debug, Clone, Copy, PartialEq, Eq, Structural)]
pub enum Rejection {
    /// The input was empty.
    Empty,
    /// The trimmed input did not hold the expected number of characters.
    Length { found: usize },
    /// The trimmed input held a non-ASCII character at the 0-based `index`.
    NonAscii { character: char, index: usize },
}

/// Trim `s`, require exactly `n` characters, all ASCII, and fold them to upper case.
pub open spec fn spec_trimmed_upper(s: Seq<char>, n: nat) -> Result<Seq<u8>, Rejection> {
    let t = trim(s);
    let k = first_failure(t.len() as int, |j: int| is_ascii_char(t[j]));
    if s.len() == 0 {
        Err(Rejection::Empty)
    } else if t.len() != n {
        Err(Rejection::Length { found: t.len() as usize })
    } else if k < n {
        Err(Rejection::NonAscii { character: t[k], index: k as usize })
    } else {
        Ok(ascii_upper_bytes(t))
    }
}

/// Reads a fixed-length candidate: rejects empty input, trims surrounding whitespace, checks the
/// character count and ASCII-ness, and upper-cases the characters.
pub fn trimmed_upper(input: &str, n: usize) -> (r: Result<Vec<u8>, Rejection>)
    ensures
        match r {
            Ok(b) => spec_trimmed_upper(input@, n as nat) == Ok::<Seq<u8>, Rejection>(b@),
            Err(e) => spec_trimmed_upper(input@, n as nat) == Err::<Seq<u8>, Rejection>(e),
        },
        r matches Ok(b) ==> b@.len() == n,
        r matches Err(Rejection::NonAscii { index, .. }) ==> index < n,
{
    if input.is_empty() {
        return Err(Rejection::Empty);
    }
    let t = trimmed_chars(input);
    if t.len() != n {
        return Err(Rejection::Length { found: t.len() });
    }
    let k = first_non_ascii(&t);
    if k < n {
        return Err(Rejection::NonAscii { character: t[k], index: k });
    }
    proof {
        assert forall|j: int| 0 <= j < t@.len() implies is_ascii_char(#[trigger] t@[j]) by {
            if !is_ascii_char(t@[j]) {
                lemma_first_failure_bound(t@.len() as int, |j: int| is_ascii_char(t@[j]), j);
            }
        }
    }
    Ok(upper_bytes(&t))
}

/// Nothing fails before `first_failure`, and it is at most `n`.
pub proof fn lemma_first_failure_bound(n: int, ok: spec_fn(int) -> bool, j: int)
    requires
        0 <= n,
        0 <= j < first_failure(n, ok),
    ensures
        ok(j),
        first_failure(n, ok) <= n,
{
    lemma_scan_bound(0, n, ok, j);
}

proof fn lemma_scan_bound(i: int, n: int, ok: spec_fn(int) -> bool, j: int)
    requires
        0 <= i <= n,
        i <= j < scan_from(i, n, ok),
    ensures
        ok(j),
        scan_from(i, n, ok) <= n,
    decreases n - i,
{
    if i < n && ok(i) && j > i {
        lemma_scan_bound(i + 1, n, ok, j);
    }
    lemma_scan_le(i, n, ok);
}

/// Where `first_failure` stops short of `n`, the property fails.
pub proof fn lemma_first_failure_fails(n: int, ok: spec_fn(int) -> bool)
    ensures
        first_failure(n, ok) < n ==> !ok(first_failure(n, ok)),
{
    lemma_scan_fails(0, n, ok);
}

proof fn lemma_scan_fails(i: int, n: int, ok: spec_fn(int) -> bool)
    ensures
        scan_from(i, n, ok) < n ==> !ok(scan_from(i, n, ok)),
    decreases n - i,
{
    if i < n && ok(i) {
        lemma_scan_fails(i + 1, n, ok);
    }
}

/// `first_failure` is a position in `0..=n`.
pub proof fn lemma_first_failure_range(n: int, ok: spec_fn(int) -> bool)
    requires
        0 <= n,
    ensures
        0 <= first_failure(n, ok) <= n,
{
    lemma_scan_le(0, n, ok);
}

proof fn lemma_scan_le(i: int, n: int, ok: spec_fn(int) -> bool)
    requires
        i <= n,
    ensures
        i <= scan_from(i, n, ok) <= n,
    decreases n - i,
{
    if i < n && ok(i) {
        lemma_scan_le(i + 1, n, ok);
    }
}

/// The whitespace that trimming removes is exactly the Unicode `White_Space` set that
/// `char::is_whitespace` tests: tab, line feed, vertical tab, form feed, carriage return, space,
/// next line, no-break space, ogham space mark, the eleven spaces from en quad to hair space,
/// line separator, paragraph separator, narrow no-break space, medium mathematical space and
/// ideographic space.
pub proof fn lemma_whitespace_is_unicode_white_space(c: char)
    ensures
        is_whitespace(c) <==> (c == '\t' || c == '\n' || c == '\u{0B}' || c == '\u{0C}' || c
            == '\r' || c == ' ' || c == '\u{85}' || c == '\u{A0}' || c == '\u{1680}' || c
            == '\u{2000}' || c == '\u{2001}' || c == '\u{2002}' || c == '\u{2003}' || c
            == '\u{2004}' || c == '\u{2005}' || c == '\u{2006}' || c == '\u{2007}' || c
            == '\u{2008}' || c == '\u{2009}' || c == '\u{200A}' || c == '\u{2028}' || c
            == '\u{2029}' || c == '\u{202F}' || c == '\u{205F}' || c == '\u{3000}'),
{
}

/// A line ending, `"\r\n"` or `"\n"`, and the ASCII blanks (space, tab, vertical tab, form
/// feed) are whitespace, so trimming removes them.
pub proof fn lemma_line_endings_are_whitespace()
    ensures
        all_whitespace(seq!['\r', '\n']),
        all_whitespace(seq!['\n']),
        all_whitespace(seq![' ', '\t', '\u{0B}', '\u{0C}']),
{
    assert(is_whitespace('\r') && is_whitespace('\n'));
    assert(is_whitespace(' ') && is_whitespace('\t'));
    assert(is_whitespace('\u{0B}') && is_whitespace('\u{0C}'));
}

/// Text with no whitespace at either end trims to itself, so `w1 + s + w2` trims to exactly `s`.
pub proof fn lemma_trim_keeps_inner_text(w1: Seq<char>, s: Seq<char>, w2: Seq<char>)
    requires
        all_whitespace(w1),
        all_whitespace(w2),
        s.len() > 0 ==> !is_whitespace(s[0]) && !is_whitespace(s[s.len() - 1]),
    ensures
        trim(w1 + s + w2) == s,
{
    lemma_trim_padded(w1, s, w2);
    assert(trim_start(s) == s);
    assert(trim_end(s) == s);
}

/// The text of ASCII letters and digits reads back as itself: nothing to trim, nothing to fold.
pub proof fn lemma_canonical_text(b: Seq<u8>)
    requires
        b.len() > 0,
        forall|i: int| 0 <= i < b.len() ==> #[trigger] is_alphanumeric(b[i]),
    ensures
        spec_trimmed_upper(ascii_chars(b), b.len()) == Ok::<Seq<u8>, Rejection>(b),
{
    let s = ascii_chars(b);
    assert(is_alphanumeric(b[0]));
    assert(is_alphanumeric(b[b.len() - 1]));
    assert(trim_start(s) == s);
    assert(trim_end(s) == s);
    assert forall|j: int| 0 <= j < s.len() implies #[trigger] is_ascii_char(s[j]) by {
        assert(is_alphanumeric(b[j]));
    }
    lemma_first_failure(s.len() as int, |j: int| is_ascii_char(s[j]), s.len() as int);
    assert forall|j: int| 0 <= j < s.len() implies ascii_upper_bytes(s)[j] == b[j] by {
        assert(is_alphanumeric(b[j]));
    }
    assert(ascii_upper_bytes(s) =~= b);
}

/// ASCII lower-casing of one character: `'A'..='Z'` become `'a'..='z'`, everything else is kept.
pub open spec fn ascii_lower(c: char) -> char {
    let u = c as u32;
    if 65 <= u <= 90 {
        (u + 32) as char
    } else {
        c
    }
}

/// `s` with every ASCII letter lower-cased.
pub open spec fn ascii_lowercase(s: Seq<char>) -> Seq<char> {
    Seq::new(s.len(), |i: int| ascii_lower(s[i]))
}

/// Lower-casing a character keeps whitespace, ASCII-ness and the upper-cased byte, and leaves
/// non-ASCII characters alone.
pub proof fn lemma_lower_char(c: char)
    ensures
        is_whitespace(ascii_lower(c)) == is_whitespace(c),
        is_ascii_char(ascii_lower(c)) == is_ascii_char(c),
        ascii_upper(ascii_lower(c)) == ascii_upper(c),
        !is_ascii_char(c) ==> ascii_lower(c) == c,
{
}

proof fn lemma_trim_start_lower(s: Seq<char>)
    ensures
        trim_start(ascii_lowercase(s)) == ascii_lowercase(trim_start(s)),
    decreases s.len(),
{
    let l = ascii_lowercase(s);
    if s.len() > 0 {
        lemma_lower_char(s[0]);
        if is_whitespace(s[0]) {
            assert(l.drop_first() =~= ascii_lowercase(s.drop_first()));
            lemma_trim_start_lower(s.drop_first());
        }
    }
}

proof fn lemma_trim_end_lower(s: Seq<char>)
    ensures
        trim_end(ascii_lowercase(s)) == ascii_lowercase(trim_end(s)),
    decreases s.len(),
{
    let l = ascii_lowercase(s);
    if s.len() > 0 {
        lemma_lower_char(s.last());
        if is_whitespace(s.last()) {
            assert(l.drop_last() =~= ascii_lowercase(s.drop_last()));
            lemma_trim_end_lower(s.drop_last());
        }
    }
}

/// Trimming commutes with lower-casing.
pub proof fn lemma_trim_lower(s: Seq<char>)
    ensures
        trim(ascii_lowercase(s)) == ascii_lowercase(trim(s)),
{
    lemma_trim_start_lower(s);
    lemma_trim_end_lower(trim_start(s));
}

/// Reading a fixed-length candidate does not depend on the case of the input's letters.
pub proof fn lemma_trimmed_upper_lower(s: Seq<char>, n: nat)
    ensures
        spec_trimmed_upper(ascii_lowercase(s), n) == spec_trimmed_upper(s, n),
{
    let t = trim(s);
    let l = trim(ascii_lowercase(s));
    lemma_trim_lower(s);
    assert forall|j: int| 0 <= j < t.len() implies l[j] == ascii_lower(t[j]) && is_ascii_char(
        #[trigger] l[j],
    ) == is_ascii_char(t[j]) && ascii_upper(l[j]) == ascii_upper(t[j]) by {
        lemma_lower_char(t[j]);
    }
    let k = first_failure(t.len() as int, |j: int| is_ascii_char(t[j]));
    lemma_first_failure_range(t.len() as int, |j: int| is_ascii_char(t[j]));
    assert forall|j: int| 0 <= j < k implies #[trigger] is_ascii_char(l[j]) by {
        lemma_first_failure_bound(t.len() as int, |j: int| is_ascii_char(t[j]), j);
    }
    lemma_first_failure_fails(t.len() as int, |j: int| is_ascii_char(t[j]));
    if k < t.len() {
        lemma_lower_char(t[k]);
    }
    lemma_first_failure(l.len() as int, |j: int| is_ascii_char(l[j]), k);
    assert(ascii_upper_bytes(l) =~= ascii_upper_bytes(t));
}

/// Two inputs that differ only in the case of ASCII letters give the same candidate.
pub proof fn lemma_trimmed_upper_case(s1: Seq<char>, s2: Seq<char>, n: nat)
    requires
        ascii_lowercase(s1) == ascii_lowercase(s2),
    ensures
        spec_trimmed_upper(s1, n) == spec_trimmed_upper(s2, n),
        s1.len() == s2.len(),
{
    lemma_trimmed_upper_lower(s1, n);
    lemma_trimmed_upper_lower(s2, n);
    assert(ascii_lowercase(s1).len() == s1.len());
}

/// Every character of `w` is whitespace.
pub open spec fn all_whitespace(w: Seq<char>) -> bool {
    forall|i: int| 0 <= i < w.len() ==> #[trigger] is_whitespace(w[i])
}

proof fn lemma_trim_start_prefix(w: Seq<char>, s: Seq<char>)
    requires
        all_whitespace(w),
    ensures
        trim_start(w + s) == trim_start(s),
    decreases w.len(),
{
    if w.len() == 0 {
        assert(w + s =~= s);
    } else {
        assert(is_whitespace((w + s)[0]));
        assert((w + s).drop_first() =~= w.drop_first() + s);
        lemma_trim_start_prefix(w.drop_first(), s);
    }
}

proof fn lemma_trim_end_suffix(s: Seq<char>, w: Seq<char>)
    requires
        all_whitespace(w),
    ensures
        trim_end(s + w) == trim_end(s),
    decreases w.len(),
{
    if w.len() == 0 {
        assert(s + w =~= s);
    } else {
        assert(is_whitespace((s + w).last()));
        assert((s + w).drop_last() =~= s + w.drop_last());
        lemma_trim_end_suffix(s, w.drop_last());
    }
}

proof fn lemma_trim_start_append(s: Seq<char>, w: Seq<char>)
    ensures
        trim_start(s).len() > 0 ==> trim_start(s + w) == trim_start(s) + w,
        trim_start(s).len() == 0 ==> trim_start(s + w) == trim_start(w),
    decreases s.len(),
{
    if s.len() == 0 {
        assert(s + w =~= w);
    } else if is_whitespace(s[0]) {
        assert((s + w)[0] == s[0]);
        assert((s + w).drop_first() =~= s.drop_first() + w);
        lemma_trim_start_append(s.drop_first(), w);
    } else {
        assert((s + w)[0] == s[0]);
    }
}

/// Surrounding an input with more whitespace does not change what trimming leaves.
pub proof fn lemma_trim_padded(w1: Seq<char>, s: Seq<char>, w2: Seq<char>)
    requires
        all_whitespace(w1),
        all_whitespace(w2),
    ensures
        trim(w1 + s + w2) == trim(s),
{
    assert(w1 + s + w2 =~= w1 + (s + w2));
    lemma_trim_start_prefix(w1, s + w2);
    lemma_trim_start_append(s, w2);
    if trim_start(s).len() > 0 {
        lemma_trim_end_suffix(trim_start(s), w2);
    } else {
        assert(w2 + Seq::<char>::empty() =~= w2);
        lemma_trim_start_prefix(w2, Seq::<char>::empty());
        assert(trim_start(Seq::<char>::empty()) =~= Seq::<char>::empty());
        assert(trim_start(s) =~= Seq::<char>::empty());
    }
}

/// Reading a fixed-length candidate from a non-empty input does not change when the input is
/// surrounded by more whitespace.
pub proof fn lemma_trimmed_upper_padded(w1: Seq<char>, s: Seq<char>, w2: Seq<char>, n: nat)
    requires
        all_whitespace(w1),
        all_whitespace(w2),
        s.len() > 0,
    ensures
        spec_trimmed_upper(w1 + s + w2, n) == spec_trimmed_upper(s, n),
        trim(w1 + s + w2) == trim(s),
{
    lemma_trim_padded(w1, s, w2);
}

/// Byte-wise equality of two slices.
pub fn bytes_equal(a: &[u8], b: &[u8]) -> (r: bool)
    ensures
        r == (a@ == b@),
{
    if a.len() != b.len() {
        return false;
    }
    let mut i: usize = 0;
    while i < a.len()
        invariant
            i <= a@.len(),
            a@.len() == b@.len(),
            forall|j: int| 0 <= j < i ==> a@[j] == b@[j],
        decreases a@.len() - i,
    {
        if a[i] != b[i] {
            return false;
        }
        i = i + 1;
    }
    assert(a@ =~= b@);
    true
}

/// Borrows bytes that are all ASCII as a `&str`.
///
/// Trusted: calls `core::str::from_utf8`. Its documentation says that it returns `Ok` with the
/// string the bytes encode whenever they are valid UTF-8; ASCII bytes are, and each encodes the
/// character with the same code. The `Err` arm is never taken under the `requires`.
#[verifier::external_body]
pub(crate) fn ascii_str(bytes: &[u8]) -> (s: &str)
    requires
        forall|i: int| 0 <= i < bytes@.len() ==> bytes@[i] < 128,
    ensures
        s@ == ascii_chars(bytes@),
{
    match core::str::from_utf8(bytes) {
        Ok(s) => s,
        Err(_) => "",
    }
}

/// A one-character `String`.
///
/// Trusted: calls `char::to_string`, which std documents as formatting the character with
/// `Display`, and a `char` displays as itself.
#[verifier::external_body]
pub(crate) fn char_string(c: char) -> (s: String)
    ensures
        s@ == seq![c],
{
    c.to_string()
}

/// The decimal digits of `n`, most significant first, without leading zeros.
pub open spec fn decimal(n: nat) -> Seq<char>
    decreases n,
{
    if n < 10 {
        seq![(n + 48) as char]
    } else {
        decimal(n / 10).push(((n % 10) + 48) as char)
    }
}

/// `n` written in decimal, padded with a leading zero to at least two digits.
pub open spec fn two_digit(n: nat) -> Seq<char> {
    if n < 10 {
        seq!['0'] + decimal(n)
    } else {
        decimal(n)
    }
}

spec fn decimal_bytes(n: nat) -> Seq<u8>
    decreases n,
{
    if n < 10 {
        seq![(n + 48) as u8]
    } else {
        decimal_bytes(n / 10).push(((n % 10) + 48) as u8)
    }
}

proof fn lemma_decimal_bytes(n: nat)
    ensures
        ascii_chars(decimal_bytes(n)) == decimal(n),
        forall|i: int| 0 <= i < decimal_bytes(n).len() ==> #[trigger] decimal_bytes(n)[i] < 128,
    decreases n,
{
    if n >= 10 {
        lemma_decimal_bytes(n / 10);
        assert(ascii_chars(decimal_bytes(n)) =~= decimal(n));
    } else {
        assert(ascii_chars(decimal_bytes(n)) =~= decimal(n));
    }
}

/// `n` written in decimal.
pub fn decimal_string(n: u64) -> (s: String)
    ensures
        s@ == decimal(n as nat),
{
    let mut digits: Vec<u8> = Vec::new();
    let mut m: u64 = n;
    while m >= 10
        invariant
            m <= n,
            forall|i: int| 0 <= i < digits@.len() ==> 48 <= #[trigger] digits@[i] <= 57,
            decimal_bytes(n as nat) == decimal_bytes(m as nat) + digits@.reverse(),
        decreases m,
    {
        let d = (m % 10) as u8 + 48;
        proof {
            assert(decimal_bytes(m as nat) =~= decimal_bytes((m / 10) as nat).push(d));
            assert(digits@.push(d).reverse() =~= seq![d] + digits@.reverse());
            assert(decimal_bytes(n as nat) =~= decimal_bytes((m / 10) as nat) + digits@.push(
                d,
            ).reverse());
        }
        digits.push(d);
        m = m / 10;
    }
    let d = m as u8 + 48;
    proof {
        assert(digits@.push(d).reverse() =~= seq![d] + digits@.reverse());
    }
    digits.push(d);
    let mut ordered: Vec<u8> = Vec::new();
    let mut i: usize = digits.len();
    while i > 0
        invariant
            i <= digits@.len(),
            forall|j: int| 0 <= j < digits@.len() ==> 48 <= #[trigger] digits@[j] <= 57,
            ordered@ == digits@.reverse().take(digits@.len() - i),
        decreases i,
    {
        i = i - 1;
        ordered.push(digits[i]);
        assert(ordered@ =~= digits@.reverse().take(digits@.len() - i));
    }
    proof {
        assert(ordered@ =~= digits@.reverse());
        lemma_decimal_bytes(n as nat);
    }
    String::from_str(ascii_str(ordered.as_slice()))
}

/// `n` written in decimal, padded with a leading zero to at least two digits.
pub fn two_digit_string(n: u64) -> (s: String)
    ensures
        s@ == two_digit(n as nat),
{
    if n < 10 {
        let mut s = String::from_str("0");
        proof {
            reveal_strlit("0");
        }
        s.append(decimal_string(n).as_str());
        s
    } else {
        decimal_string(n)
    }
}

} // verus!
