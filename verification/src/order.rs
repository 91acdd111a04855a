//! Ordering of identifiers: byte-wise over their canonical form, so it agrees with `str`
//! ordering on `as_str` (digits before letters). It is plain string order, with no numeric or
//! taxonomic meaning.

use core::cmp::Ordering;

use crate::{Cfi, Cnpj, CountryCode, Isin, Lei};
use vstd::prelude::*;

verus! {

/// The lexicographic rank of byte string `a` against `b`: -1 when `a` comes first, 0 when they
/// are equal, 1 when `b` comes first (as slices and strings compare).
pub open spec fn lex_rank(a: Seq<u8>, b: Seq<u8>) -> int
    decreases a.len(),
{
    if a.len() == 0 {
        if b.len() == 0 {
            0
        } else {
            -1
        }
    } else if b.len() == 0 {
        1
    } else if a[0] < b[0] {
        -1
    } else if a[0] > b[0] {
        1
    } else {
        lex_rank(a.drop_first(), b.drop_first())
    }
}

/// Lexicographic order of byte strings.
pub open spec fn lex_order(a: Seq<u8>, b: Seq<u8>) -> Ordering {
    if lex_rank(a, b) < 0 {
        Ordering::Less
    } else if lex_rank(a, b) == 0 {
        Ordering::Equal
    } else {
        Ordering::Greater
    }
}

/// Byte strings are ranked at their first difference: when `a` and `b` agree before index `k`
/// and differ at `k`, `a` comes first exactly when its byte there is smaller.
pub proof fn lemma_lex_rank_first_difference(a: Seq<u8>, b: Seq<u8>, k: int)
    requires
        0 <= k < a.len(),
        k < b.len(),
        forall|j: int| 0 <= j < k ==> a[j] == b[j],
        a[k] != b[k],
    ensures
        lex_rank(a, b) == (if a[k] < b[k] {
            -1int
        } else {
            1int
        }),
        lex_order(a, b) == (if a[k] < b[k] {
            Ordering::Less
        } else {
            Ordering::Greater
        }),
    decreases k,
{
    if k > 0 {
        assert(a[0] == b[0]);
        lemma_lex_rank_first_difference(a.drop_first(), b.drop_first(), k - 1);
    }
}

/// When one byte string starts with the whole of the other, the shorter comes first, and
/// byte strings that are equal rank 0.
pub proof fn lemma_lex_rank_prefix(a: Seq<u8>, b: Seq<u8>)
    requires
        a.len() <= b.len(),
        forall|j: int| 0 <= j < a.len() ==> a[j] == b[j],
    ensures
        lex_rank(a, b) == (if a.len() == b.len() {
            0int
        } else {
            -1int
        }),
        lex_rank(b, a) == (if a.len() == b.len() {
            0int
        } else {
            1int
        }),
        lex_order(a, b) == (if a.len() == b.len() {
            Ordering::Equal
        } else {
            Ordering::Less
        }),
    decreases a.len(),
{
    if a.len() > 0 {
        assert(a[0] == b[0]);
        lemma_lex_rank_prefix(a.drop_first(), b.drop_first());
    }
}

/// The rank is a total order's comparison: it is 0 exactly for equal byte strings, and swapping
/// the arguments negates it.
pub proof fn lemma_lex_rank_equal_iff_same(a: Seq<u8>, b: Seq<u8>)
    ensures
        lex_rank(a, b) == 0 <==> a == b,
        lex_rank(b, a) == -lex_rank(a, b),
        lex_order(a, b) == Ordering::Equal <==> a == b,
        lex_order(a, b) == Ordering::Less <==> lex_order(b, a) == Ordering::Greater,
    decreases a.len(),
{
    if a.len() > 0 && b.len() > 0 && a[0] == b[0] {
        lemma_lex_rank_equal_iff_same(a.drop_first(), b.drop_first());
        if a.drop_first() == b.drop_first() {
            assert(a =~= seq![a[0]] + a.drop_first());
            assert(b =~= seq![b[0]] + b.drop_first());
        }
        if a == b {
            assert(a.drop_first() =~= b.drop_first());
        }
    } else if a.len() == 0 && b.len() == 0 {
        assert(a =~= b);
    }
}

/// The rank is transitive: if `a` comes before `b` and `b` before `c`, then `a` comes before `c`.
pub proof fn lemma_lex_rank_transitive(a: Seq<u8>, b: Seq<u8>, c: Seq<u8>)
    requires
        lex_rank(a, b) < 0,
        lex_rank(b, c) < 0,
    ensures
        lex_rank(a, c) < 0,
    decreases a.len(),
{
    if a.len() > 0 && b.len() > 0 && c.len() > 0 && a[0] == b[0] && b[0] == c[0] {
        lemma_lex_rank_transitive(a.drop_first(), b.drop_first(), c.drop_first());
    }
}

/// The lexicographic rank of `a` against `b`.
pub fn byte_rank(a: &[u8], b: &[u8]) -> (r: i8)
    ensures
        r == lex_rank(a@, b@),
{
    let mut i: usize = 0;
    assert(a@.skip(0) =~= a@ && b@.skip(0) =~= b@);
    while i < a.len() && i < b.len()
        invariant
            i <= a@.len(),
            i <= b@.len(),
            lex_rank(a@, b@) == lex_rank(a@.skip(i as int), b@.skip(i as int)),
        decreases a@.len() - i,
    {
        let x = a[i];
        let y = b[i];
        assert(a@.skip(i as int)[0] == x && b@.skip(i as int)[0] == y);
        if x < y {
            return -1;
        }
        if x > y {
            return 1;
        }
        assert(a@.skip(i as int).drop_first() =~= a@.skip(i + 1));
        assert(b@.skip(i as int).drop_first() =~= b@.skip(i + 1));
        i = i + 1;
    }
    if i < a.len() {
        1
    } else if i < b.len() {
        -1
    } else {
        0
    }
}

/// Compares two byte strings lexicographically.
pub fn compare_bytes(a: &[u8], b: &[u8]) -> (o: Ordering)
    ensures
        o == lex_order(a@, b@),
{
    let r = byte_rank(a, b);
    if r < 0 {
        Ordering::Less
    } else if r == 0 {
        Ordering::Equal
    } else {
        Ordering::Greater
    }
}

impl PartialOrd for Cfi {
    fn partial_cmp(&self, other: &Self) -> (r: Option<Ordering>) {
        Some(compare_bytes(self.as_bytes().as_slice(), other.as_bytes().as_slice()))
    }
}

impl vstd::std_specs::cmp::PartialOrdSpecImpl for Cfi {
    open spec fn obeys_partial_cmp_spec() -> bool {
        true
    }

    open spec fn partial_cmp_spec(&self, other: &Self) -> Option<Ordering> {
        Some(lex_order(self@, other@))
    }
}

impl PartialOrd for Cnpj {
    fn partial_cmp(&self, other: &Self) -> (r: Option<Ordering>) {
        Some(compare_bytes(self.as_bytes().as_slice(), other.as_bytes().as_slice()))
    }
}

impl vstd::std_specs::cmp::PartialOrdSpecImpl for Cnpj {
    open spec fn obeys_partial_cmp_spec() -> bool {
        true
    }

    open spec fn partial_cmp_spec(&self, other: &Self) -> Option<Ordering> {
        Some(lex_order(self@, other@))
    }
}

impl PartialOrd for CountryCode {
    fn partial_cmp(&self, other: &Self) -> (r: Option<Ordering>) {
        Some(compare_bytes(self.as_bytes().as_slice(), other.as_bytes().as_slice()))
    }
}

impl vstd::std_specs::cmp::PartialOrdSpecImpl for CountryCode {
    open spec fn obeys_partial_cmp_spec() -> bool {
        true
    }

    open spec fn partial_cmp_spec(&self, other: &Self) -> Option<Ordering> {
        Some(lex_order(self@, other@))
    }
}

impl PartialOrd for Isin {
    fn partial_cmp(&self, other: &Self) -> (r: Option<Ordering>) {
        Some(compare_bytes(self.as_bytes().as_slice(), other.as_bytes().as_slice()))
    }
}

impl vstd::std_specs::cmp::PartialOrdSpecImpl for Isin {
    open spec fn obeys_partial_cmp_spec() -> bool {
        true
    }

    open spec fn partial_cmp_spec(&self, other: &Self) -> Option<Ordering> {
        Some(lex_order(self@, other@))
    }
}

impl PartialOrd for Lei {
    fn partial_cmp(&self, other: &Self) -> (r: Option<Ordering>) {
        Some(compare_bytes(self.as_bytes().as_slice(), other.as_bytes().as_slice()))
    }
}

impl vstd::std_specs::cmp::PartialOrdSpecImpl for Lei {
    open spec fn obeys_partial_cmp_spec() -> bool {
        true
    }

    open spec fn partial_cmp_spec(&self, other: &Self) -> Option<Ordering> {
        Some(lex_order(self@, other@))
    }
}

} // verus!
