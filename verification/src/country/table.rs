//! The officially assigned ISO 3166-1 alpha-2 code set.
//!
//! The set is authored once as [`ASSIGNED_CODES`], a strictly ascending list of the codes (each
//! row's codes are spelled out in the comment after it). The membership bitmap is derived from that
//! list by [`build_bitmap`], so the two cannot drift apart.

use crate::text::is_upper;
use vstd::prelude::*;

verus! {

/// The number of distinct two-letter combinations, `26 * 26`.
pub const COMBINATIONS: usize = 676;

/// The number of 64-bit words that give every combination its own bit.
pub const WORDS: usize = 11;

/// The officially assigned ISO 3166-1 alpha-2 codes, as pairs of ASCII bytes, in strictly
/// ascending byte order. Reserved codes (for example `EU` or `UK`), user-assigned ranges, and
/// withdrawn codes are deliberately absent.
pub const ASSIGNED_CODES: [[u8; 2]; 249] = [
    [65, 68], [65, 69], [65, 70], [65, 71], [65, 73], [65, 76], [65, 77], [65, 79], // AD AE AF AG AI AL AM AO
    [65, 81], [65, 82], [65, 83], [65, 84], [65, 85], [65, 87], [65, 88], [65, 90], // AQ AR AS AT AU AW AX AZ
    [66, 65], [66, 66], [66, 68], [66, 69], [66, 70], [66, 71], [66, 72], [66, 73], // BA BB BD BE BF BG BH BI
    [66, 74], [66, 76], [66, 77], [66, 78], [66, 79], [66, 81], [66, 82], [66, 83], // BJ BL BM BN BO BQ BR BS
    [66, 84], [66, 86], [66, 87], [66, 89], [66, 90], [67, 65], [67, 67], [67, 68], // BT BV BW BY BZ CA CC CD
    [67, 70], [67, 71], [67, 72], [67, 73], [67, 75], [67, 76], [67, 77], [67, 78], // CF CG CH CI CK CL CM CN
    [67, 79], [67, 82], [67, 85], [67, 86], [67, 87], [67, 88], [67, 89], [67, 90], // CO CR CU CV CW CX CY CZ
    [68, 69], [68, 74], [68, 75], [68, 77], [68, 79], [68, 90], [69, 67], [69, 69], // DE DJ DK DM DO DZ EC EE
    [69, 71], [69, 72], [69, 82], [69, 83], [69, 84], [70, 73], [70, 74], [70, 75], // EG EH ER ES ET FI FJ FK
    [70, 77], [70, 79], [70, 82], [71, 65], [71, 66], [71, 68], [71, 69], [71, 70], // FM FO FR GA GB GD GE GF
    [71, 71], [71, 72], [71, 73], [71, 76], [71, 77], [71, 78], [71, 80], [71, 81], // GG GH GI GL GM GN GP GQ
    [71, 82], [71, 83], [71, 84], [71, 85], [71, 87], [71, 89], [72, 75], [72, 77], // GR GS GT GU GW GY HK HM
    [72, 78], [72, 82], [72, 84], [72, 85], [73, 68], [73, 69], [73, 76], [73, 77], // HN HR HT HU ID IE IL IM
    [73, 78], [73, 79], [73, 81], [73, 82], [73, 83], [73, 84], [74, 69], [74, 77], // IN IO IQ IR IS IT JE JM
    [74, 79], [74, 80], [75, 69], [75, 71], [75, 72], [75, 73], [75, 77], [75, 78], // JO JP KE KG KH KI KM KN
    [75, 80], [75, 82], [75, 87], [75, 89], [75, 90], [76, 65], [76, 66], [76, 67], // KP KR KW KY KZ LA LB LC
    [76, 73], [76, 75], [76, 82], [76, 83], [76, 84], [76, 85], [76, 86], [76, 89], // LI LK LR LS LT LU LV LY
    [77, 65], [77, 67], [77, 68], [77, 69], [77, 70], [77, 71], [77, 72], [77, 75], // MA MC MD ME MF MG MH MK
    [77, 76], [77, 77], [77, 78], [77, 79], [77, 80], [77, 81], [77, 82], [77, 83], // ML MM MN MO MP MQ MR MS
    [77, 84], [77, 85], [77, 86], [77, 87], [77, 88], [77, 89], [77, 90], [78, 65], // MT MU MV MW MX MY MZ NA
    [78, 67], [78, 69], [78, 70], [78, 71], [78, 73], [78, 76], [78, 79], [78, 80], // NC NE NF NG NI NL NO NP
    [78, 82], [78, 85], [78, 90], [79, 77], [80, 65], [80, 69], [80, 70], [80, 71], // NR NU NZ OM PA PE PF PG
    [80, 72], [80, 75], [80, 76], [80, 77], [80, 78], [80, 82], [80, 83], [80, 84], // PH PK PL PM PN PR PS PT
    [80, 87], [80, 89], [81, 65], [82, 69], [82, 79], [82, 83], [82, 85], [82, 87], // PW PY QA RE RO RS RU RW
    [83, 65], [83, 66], [83, 67], [83, 68], [83, 69], [83, 71], [83, 72], [83, 73], // SA SB SC SD SE SG SH SI
    [83, 74], [83, 75], [83, 76], [83, 77], [83, 78], [83, 79], [83, 82], [83, 83], // SJ SK SL SM SN SO SR SS
    [83, 84], [83, 86], [83, 88], [83, 89], [83, 90], [84, 67], [84, 68], [84, 70], // ST SV SX SY SZ TC TD TF
    [84, 71], [84, 72], [84, 74], [84, 75], [84, 76], [84, 77], [84, 78], [84, 79], // TG TH TJ TK TL TM TN TO
    [84, 82], [84, 84], [84, 86], [84, 87], [84, 90], [85, 65], [85, 71], [85, 77], // TR TT TV TW TZ UA UG UM
    [85, 83], [85, 89], [85, 90], [86, 65], [86, 67], [86, 69], [86, 71], [86, 73], // US UY UZ VA VC VE VG VI
    [86, 78], [86, 85], [87, 70], [87, 83], [89, 69], [89, 84], [90, 65], [90, 77], // VN VU WF WS YE YT ZA ZM
    [90, 87], // ZW
];

/// `codes` lists the two-letter code `(a, b)`.
pub open spec fn lists_code(codes: Seq<[u8; 2]>, a: u8, b: u8) -> bool {
    exists|j: int| 0 <= j < codes.len() && #[trigger] codes[j][0] == a && codes[j][1] == b
}

/// `(a, b)` is an officially assigned code.
pub open spec fn is_assigned_code(a: u8, b: u8) -> bool {
    lists_code(ASSIGNED_CODES@, a, b)
}

/// An entry is two uppercase ASCII letters.
pub open spec fn entry_upper(code: [u8; 2]) -> bool {
    is_upper(code[0]) && is_upper(code[1])
}

/// `p` sorts strictly before `c` in byte order.
pub open spec fn ascending(p: [u8; 2], c: [u8; 2]) -> bool {
    p[0] < c[0] || (p[0] == c[0] && p[1] < c[1])
}

/// Every entry is two uppercase ASCII letters and the list is strictly ascending (hence sorted
/// and free of duplicates).
pub open spec fn table_well_formed(codes: Seq<[u8; 2]>) -> bool {
    &&& forall|i: int| 0 <= i < codes.len() ==> entry_upper(#[trigger] codes[i])
    &&& forall|i: int| 0 < i < codes.len() ==> ascending(codes[i - 1], #[trigger] codes[i])
}

/// Some entry among the first `m` of `codes` has dense index `k`.
pub open spec fn indexed_by(codes: Seq<[u8; 2]>, m: int, k: int) -> bool {
    exists|j: int| 0 <= j < m && spec_bit_index(#[trigger] codes[j][0], codes[j][1]) == k
}

/// The dense index, in `0..676`, of a two-letter code.
pub open spec fn spec_bit_index(a: u8, b: u8) -> int {
    (a - 65) * 26 + (b - 65)
}

/// Bit `k` of a bitmap stored as 64-bit words, least significant bit first.
pub open spec fn bit_set(words: Seq<u64>, k: int) -> bool {
    (words[k / 64] >> ((k % 64) as u64)) & 1 == 1
}

/// The dense index of a two-letter code.
pub fn bit_index(code: [u8; 2]) -> (k: usize)
    requires
        is_upper(code[0]),
        is_upper(code[1]),
    ensures
        k == spec_bit_index(code[0], code[1]),
        k < COMBINATIONS,
{
    (code[0] - 65) as usize * 26 + (code[1] - 65) as usize
}

proof fn lemma_set_bit(w: u64, s: u64, t: u64)
    requires
        s < 64,
        t < 64,
    ensures
        ((w | (1u64 << s)) >> t) & 1 == (if t == s {
            1
        } else {
            (w >> t) & 1
        }),
{
    assert(((w | (1u64 << s)) >> t) & 1 == (if t == s {
        1
    } else {
        (w >> t) & 1
    })) by (bit_vector)
        requires
            s < 64,
            t < 64,
    ;
}

proof fn lemma_zero_bits(t: u64)
    requires
        t < 64,
    ensures
        (0u64 >> t) & 1 == 0,
{
    assert((0u64 >> t) & 1 == 0) by (bit_vector);
}

/// Folds a list of codes into a bitmap with one bit set per listed code: bit `k` of the 704 is
/// set exactly when some code has dense index `k`, so the bits past 675 stay clear.
pub fn build_bitmap(codes: &[[u8; 2]]) -> (bits: [u64; 11])
    requires
        forall|i: int| 0 <= i < codes@.len() ==> entry_upper(#[trigger] codes@[i]),
    ensures
        forall|k: int|
            0 <= k < 704 ==> (bit_set(bits@, k) <==> indexed_by(codes@, codes@.len() as int, k)),
        forall|k: int| 676 <= k < 704 ==> !bit_set(bits@, k),
{
    let mut bits: [u64; 11] = [0u64; 11];
    proof {
        assert forall|k: int| 0 <= k < 704 implies !bit_set(bits@, k) by {
            lemma_zero_bits((k % 64) as u64);
        }
    }
    let mut i: usize = 0;
    while i < codes.len()
        invariant
            i <= codes@.len(),
            forall|i: int| 0 <= i < codes@.len() ==> entry_upper(#[trigger] codes@[i]),
            forall|k: int| 0 <= k < 704 ==> (bit_set(bits@, k) <==> indexed_by(codes@, i as int, k)),
        decreases codes@.len() - i,
    {
        let code = codes[i];
        assert(entry_upper(codes@[i as int]));
        let index = bit_index(code);
        let word = index / 64;
        let shift = (index % 64) as u64;
        let ghost old_bits = bits@;
        bits[word] = bits[word] | (1u64 << shift);
        proof {
            assert forall|k: int| 0 <= k < 704 implies (bit_set(bits@, k) <==> indexed_by(
                codes@,
                i + 1,
                k,
            )) by {
                let t = (k % 64) as u64;
                if k / 64 == word as int {
                    lemma_set_bit(old_bits[word as int], shift, t);
                    assert(bits@[k / 64] == old_bits[word as int] | (1u64 << shift));
                } else {
                    assert(bits@[k / 64] == old_bits[k / 64]);
                }
                assert(bit_set(bits@, k) == (k == index || bit_set(old_bits, k)));
                if k == index {
                    assert(spec_bit_index(codes@[i as int][0], codes@[i as int][1]) == k);
                }
                if indexed_by(codes@, i + 1, k) && k != index {
                    let j = choose|j: int|
                        0 <= j < i + 1 && spec_bit_index(#[trigger] codes@[j][0], codes@[j][1])
                            == k;
                    assert(j != i);
                    assert(indexed_by(codes@, i as int, k));
                }
                if indexed_by(codes@, i as int, k) {
                    let j = choose|j: int|
                        0 <= j < i && spec_bit_index(#[trigger] codes@[j][0], codes@[j][1]) == k;
                    assert(indexed_by(codes@, i + 1, k));
                }
            }
        }
        i = i + 1;
    }
    proof {
        assert forall|k: int| 676 <= k < 704 implies !bit_set(bits@, k) by {
            if indexed_by(codes@, codes@.len() as int, k) {
                let j = choose|j: int|
                    0 <= j < codes@.len() && spec_bit_index(#[trigger] codes@[j][0], codes@[j][1])
                        == k;
                assert(entry_upper(codes@[j]));
            }
        }
    }
    bits
}

/// A bitmap built from a list of uppercase codes answers membership in that list.
pub proof fn lemma_bitmap_membership(codes: Seq<[u8; 2]>, bits: Seq<u64>)
    requires
        forall|i: int| 0 <= i < codes.len() ==> entry_upper(#[trigger] codes[i]),
        forall|k: int| 0 <= k < 676 ==> (bit_set(bits, k) <==> indexed_by(codes, codes.len() as int, k)),
    ensures
        forall|a: u8, b: u8|
            is_upper(a) && is_upper(b) ==> (bit_set(bits, #[trigger] spec_bit_index(a, b))
                <==> lists_code(codes, a, b)),
{
    assert forall|a: u8, b: u8| is_upper(a) && is_upper(b) implies (bit_set(
        bits,
        #[trigger] spec_bit_index(a, b),
    ) <==> lists_code(codes, a, b)) by {
        let k = spec_bit_index(a, b);
        if bit_set(bits, k) {
            let j = choose|j: int|
                0 <= j < codes.len() && spec_bit_index(#[trigger] codes[j][0], codes[j][1]) == k;
            assert(entry_upper(codes[j]));
            assert(codes[j][0] == a && codes[j][1] == b);
        }
        if lists_code(codes, a, b) {
            let j = choose|j: int| 0 <= j < codes.len() && #[trigger] codes[j][0] == a && codes[j][1] == b;
            assert(spec_bit_index(codes[j][0], codes[j][1]) == k);
        }
    }
}

/// The membership bitmap of the assigned codes: bit `spec_bit_index(a, b)` is set exactly when
/// `(a, b)` is assigned.
pub fn assigned_bitmap() -> (bits: [u64; 11])
    ensures
        forall|a: u8, b: u8|
            is_upper(a) && is_upper(b) ==> (bit_set(bits@, #[trigger] spec_bit_index(a, b))
                <==> is_assigned_code(a, b)),
        count_bits(bits@, 704) == 249,
{
    proof {
        lemma_assigned_table_well_formed();
    }
    let bits = build_bitmap(ASSIGNED_CODES.as_slice());
    proof {
        lemma_bitmap_membership(ASSIGNED_CODES@, bits@);
        lemma_bitmap_count(ASSIGNED_CODES@, bits@);
    }
    bits
}

/// Whether a list of codes is well formed: two uppercase ASCII letters each, strictly ascending.
pub fn check_table(codes: &[[u8; 2]]) -> (ok: bool)
    ensures
        ok == table_well_formed(codes@),
{
    let mut i: usize = 0;
    while i < codes.len()
        invariant
            i <= codes@.len(),
            forall|j: int| 0 <= j < i ==> entry_upper(#[trigger] codes@[j]),
            forall|j: int| 0 < j < i ==> ascending(codes@[j - 1], #[trigger] codes@[j]),
        decreases codes@.len() - i,
    {
        let code = codes[i];
        if !(65 <= code[0] && code[0] <= 90 && 65 <= code[1] && code[1] <= 90) {
            assert(!entry_upper(codes@[i as int]));
            return false;
        }
        if i > 0 {
            let prev = codes[i - 1];
            if !(prev[0] < code[0] || (prev[0] == code[0] && prev[1] < code[1])) {
                assert(!ascending(codes@[i - 1], codes@[i as int]));
                return false;
            }
        }
        i = i + 1;
    }
    true
}

/// The assigned-code table is well formed: uppercase letters, strictly ascending.
pub proof fn lemma_assigned_table_well_formed()
    ensures
        table_well_formed(ASSIGNED_CODES@),
{
    assert(table_well_formed(ASSIGNED_CODES@));
}

/// Different two-letter codes have different dense indices, so a bitmap holds one bit per
/// distinct listed code.
pub proof fn lemma_bit_index_injective(a: u8, b: u8, c: u8, d: u8)
    requires
        is_upper(a),
        is_upper(b),
        is_upper(c),
        is_upper(d),
        spec_bit_index(a, b) == spec_bit_index(c, d),
    ensures
        a == c && b == d,
{
}
/// The number of set bits among the first `n` of a bitmap.
pub open spec fn count_bits(words: Seq<u64>, n: int) -> int
    decreases n,
{
    if n <= 0 {
        0
    } else {
        count_bits(words, n - 1) + if bit_set(words, n - 1) {
            1int
        } else {
            0int
        }
    }
}

/// The number of dense indices below `n` that some of the first `m` codes have.
pub open spec fn count_indexed(codes: Seq<[u8; 2]>, m: int, n: int) -> int
    decreases n,
{
    if n <= 0 {
        0
    } else {
        count_indexed(codes, m, n - 1) + if indexed_by(codes, m, n - 1) {
            1int
        } else {
            0int
        }
    }
}

proof fn lemma_count_bits_indexed(codes: Seq<[u8; 2]>, bits: Seq<u64>, n: int)
    requires
        0 <= n <= 704,
        forall|k: int|
            0 <= k < 704 ==> (bit_set(bits, k) <==> indexed_by(codes, codes.len() as int, k)),
    ensures
        count_bits(bits, n) == count_indexed(codes, codes.len() as int, n),
    decreases n,
{
    if n > 0 {
        lemma_count_bits_indexed(codes, bits, n - 1);
    }
}

proof fn lemma_index_ascending(codes: Seq<[u8; 2]>, i: int, j: int)
    requires
        table_well_formed(codes),
        0 <= i < j < codes.len(),
    ensures
        spec_bit_index(codes[i][0], codes[i][1]) < spec_bit_index(codes[j][0], codes[j][1]),
    decreases j - i,
{
    assert(ascending(codes[j - 1], codes[j]));
    assert(entry_upper(codes[j - 1]));
    assert(entry_upper(codes[j]));
    if i < j - 1 {
        lemma_index_ascending(codes, i, j - 1);
    }
}

proof fn lemma_count_step(codes: Seq<[u8; 2]>, m: int, n: int)
    requires
        table_well_formed(codes),
        0 < m <= codes.len(),
        0 <= n,
    ensures
        count_indexed(codes, m, n) == count_indexed(codes, m - 1, n) + if spec_bit_index(
            codes[m - 1][0],
            codes[m - 1][1],
        ) < n {
            1int
        } else {
            0int
        },
    decreases n,
{
    let x = spec_bit_index(codes[m - 1][0], codes[m - 1][1]);
    assert(entry_upper(codes[m - 1]));
    if n > 0 {
        lemma_count_step(codes, m, n - 1);
        let k = n - 1;
        if indexed_by(codes, m, k) && k != x {
            let j = choose|j: int| 0 <= j < m && spec_bit_index(#[trigger] codes[j][0], codes[j][1]) == k;
            assert(j != m - 1);
            assert(indexed_by(codes, m - 1, k));
        }
        if indexed_by(codes, m - 1, k) {
            let j = choose|j: int|
                0 <= j < m - 1 && spec_bit_index(#[trigger] codes[j][0], codes[j][1]) == k;
            lemma_index_ascending(codes, j, m - 1);
            assert(indexed_by(codes, m, k));
        }
        if k == x {
            assert(spec_bit_index(codes[m - 1][0], codes[m - 1][1]) == k);
            assert(indexed_by(codes, m, k));
        }
    }
}

proof fn lemma_count_all(codes: Seq<[u8; 2]>, m: int)
    requires
        table_well_formed(codes),
        0 <= m <= codes.len(),
    ensures
        count_indexed(codes, m, 704) == m,
    decreases m,
{
    if m == 0 {
        lemma_count_none(codes, 704);
    } else {
        lemma_count_all(codes, m - 1);
        lemma_count_step(codes, m, 704);
        assert(entry_upper(codes[m - 1]));
    }
}

proof fn lemma_count_none(codes: Seq<[u8; 2]>, n: int)
    requires
        0 <= n,
    ensures
        count_indexed(codes, 0, n) == 0,
    decreases n,
{
    if n > 0 {
        lemma_count_none(codes, n - 1);
    }
}

/// A bitmap built from a well-formed list (ascending, so free of duplicates) has exactly one set
/// bit per listed code.
pub proof fn lemma_bitmap_count(codes: Seq<[u8; 2]>, bits: Seq<u64>)
    requires
        table_well_formed(codes),
        forall|k: int|
            0 <= k < 704 ==> (bit_set(bits, k) <==> indexed_by(codes, codes.len() as int, k)),
    ensures
        count_bits(bits, 704) == codes.len(),
{
    lemma_count_bits_indexed(codes, bits, 704);
    lemma_count_all(codes, codes.len() as int);
}

} // verus!
