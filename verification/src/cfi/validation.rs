//! Structural and taxonomic validation of a normalized 6-byte CFI candidate.
//!
//! A CFI has no check digit: it is valid exactly when its letters describe a combination that
//! ISO 10962 defines: a known category (position 1), a group known within it (position 2), and
//! for each attribute position (3-6) a code permitted for that category and group.

use super::error::CfiError;
use super::table::{
    category_row, group_row, lemma_category_row, lemma_group_row, lemma_row_found,
    lemma_taxonomy_sorted, row_key, spec_attr_allows, GROUP_COUNT, TAXONOMY,
};
use crate::text::{first_failure, is_upper, lemma_first_failure};
use vstd::prelude::*;

verus! {

/// The first 0-based position that does not hold an uppercase letter (6 if none).
pub open spec fn first_non_letter(b: Seq<u8>) -> int {
    first_failure(6, |i: int| is_upper(b[i]))
}

/// The first attribute (0-based, among positions 3-6) that the group in table row `row` does not
/// permit (4 if none).
pub open spec fn first_bad_attribute(b: Seq<u8>, row: int) -> int {
    first_failure(4, |a: int| spec_attr_allows(TAXONOMY@[row][a + 2], b[a + 2]))
}

proof fn lemma_first_bad_attribute(b: Seq<u8>, row: int, k: int)
    requires
        0 <= k <= 4,
        forall|a: int| 0 <= a < k ==> #[trigger] spec_attr_allows(TAXONOMY@[row][a + 2], b[a + 2]),
        k < 4 ==> !spec_attr_allows(TAXONOMY@[row][k + 2], b[k + 2]),
    ensures
        first_bad_attribute(b, row) == k,
{
    lemma_first_failure(4, |a: int| spec_attr_allows(TAXONOMY@[row][a + 2], b[a + 2]), k);
}

/// The outcome of validating a 6-byte candidate: the first non-letter position, else an unknown
/// category, else an unknown group, else the first attribute not permitted, else success.
pub open spec fn spec_validate(b: Seq<u8>) -> Result<(), CfiError> {
    let k = first_non_letter(b);
    let row = group_row(b[0], b[1]);
    let a = first_bad_attribute(b, row);
    if k < 6 {
        Err(CfiError::InvalidCharacter { character: b[k] as char, position: (k + 1) as u8 })
    } else if category_row(b[0]) >= 78 {
        Err(CfiError::UnknownCategory { code: b[0] as char })
    } else if row >= 78 {
        Err(CfiError::UnknownGroup { category: b[0] as char, code: b[1] as char })
    } else if a < 4 {
        Err(
            CfiError::InvalidAttribute {
                category: b[0] as char,
                group: b[1] as char,
                index: (a + 1) as u8,
                code: b[a + 2] as char,
            },
        )
    } else {
        Ok(())
    }
}

/// The 6 bytes of a valid CFI.
pub open spec fn is_valid_cfi(b: Seq<u8>) -> bool {
    b.len() == 6 && spec_validate(b) == Ok::<(), CfiError>(())
}

/// Every position of a valid CFI holds an uppercase letter.
pub proof fn lemma_valid_cfi_letters(b: Seq<u8>)
    requires
        is_valid_cfi(b),
    ensures
        forall|j: int| 0 <= j < 6 ==> #[trigger] is_upper(b[j]),
        forall|j: int| 0 <= j < 6 ==> #[trigger] crate::text::is_alphanumeric(b[j]),
        forall|j: int| 0 <= j < 6 ==> #[trigger] b[j] < 128,
{
    assert forall|j: int| 0 <= j < 6 implies is_upper(#[trigger] b[j]) by {
        crate::text::lemma_first_failure_bound(6, |i: int| is_upper(b[i]), j);
    }
}

/// Runs every rule against a normalized candidate: character class, then taxonomy.
pub fn validate(candidate: &[u8; 6]) -> (r: Result<(), CfiError>)
    ensures
        r == spec_validate(candidate@),
{
    validate_character_classes(candidate)?;
    validate_taxonomy(candidate)
}

fn validate_character_classes(candidate: &[u8; 6]) -> (r: Result<(), CfiError>)
    ensures
        first_non_letter(candidate@) < 6 ==> r == spec_validate(candidate@),
        first_non_letter(candidate@) >= 6 <==> r is Ok,
{
    let mut i: usize = 0;
    while i < 6
        invariant
            i <= 6,
            forall|j: int| 0 <= j < i ==> is_upper(#[trigger] candidate@[j]),
        decreases 6 - i,
    {
        let byte = candidate[i];
        if !(65 <= byte && byte <= 90) {
            proof {
                lemma_first_failure(6, |j: int| is_upper(candidate@[j]), i as int);
            }
            return Err(CfiError::InvalidCharacter { character: byte as char, position: (i + 1) as u8 });
        }
        i = i + 1;
    }
    proof {
        lemma_first_failure(6, |j: int| is_upper(candidate@[j]), 6);
    }
    Ok(())
}

fn validate_taxonomy(candidate: &[u8; 6]) -> (r: Result<(), CfiError>)
    requires
        first_non_letter(candidate@) >= 6,
    ensures
        r == spec_validate(candidate@),
{
    proof {
        assert forall|j: int| 0 <= j < 6 implies #[trigger] is_upper(candidate@[j]) by {
            crate::text::lemma_first_failure_bound(6, |i: int| is_upper(candidate@[i]), j);
        }
    }
    let category_code = candidate[0];
    if find_category(category_code).is_none() {
        return Err(CfiError::UnknownCategory { code: category_code as char });
    }
    let group_code = candidate[1];
    let row = match find_group(category_code, group_code) {
        Some(row) => row,
        None => {
            return Err(
                CfiError::UnknownGroup { category: category_code as char, code: group_code as char },
            );
        },
    };
    let mut i: usize = 0;
    while i < 4
        invariant
            i <= 4,
            row < 78,
            row == group_row(candidate@[0], candidate@[1]),
            category_row(candidate@[0]) < 78,
            first_non_letter(candidate@) >= 6,
            category_code == candidate@[0],
            group_code == candidate@[1],
            forall|j: int| 0 <= j < 6 ==> #[trigger] is_upper(candidate@[j]),
            forall|a: int|
                0 <= a < i ==> #[trigger] spec_attr_allows(TAXONOMY@[row as int][a + 2], candidate@[a + 2]),
        decreases 4 - i,
    {
        let code = candidate[2 + i];
        assert(is_upper(candidate@[2 + i]));
        if !attr_allows(TAXONOMY[row][2 + i], code) {
            proof {
                lemma_first_bad_attribute(candidate@, row as int, i as int);
            }
            return Err(
                CfiError::InvalidAttribute {
                    category: category_code as char,
                    group: group_code as char,
                    index: (i + 1) as u8,
                    code: code as char,
                },
            );
        }
        i = i + 1;
    }
    proof {
        lemma_first_bad_attribute(candidate@, row as int, 4);
    }
    Ok(())
}

/// Looks up a category (position 1) by binary search over the sorted table: the row of its
/// first group.
pub fn find_category(code: u8) -> (r: Option<usize>)
    ensures
        r matches Some(row) ==> row == category_row(code) && row < GROUP_COUNT,
        r is None <==> category_row(code) >= GROUP_COUNT,
{
    let mut lo: usize = 0;
    let mut hi: usize = GROUP_COUNT;
    while lo < hi
        invariant
            lo <= hi <= 78,
            forall|i: int| 0 <= i < lo ==> #[trigger] TAXONOMY@[i][0] < code,
            forall|i: int| hi <= i < 78 ==> #[trigger] TAXONOMY@[i][0] >= code,
        decreases hi - lo,
    {
        let mid = lo + (hi - lo) / 2;
        if TAXONOMY[mid][0] < code as u32 {
            proof {
                assert forall|i: int| 0 <= i < mid + 1 implies #[trigger] TAXONOMY@[i][0] < code by {
                    if i < mid {
                        lemma_taxonomy_sorted(i, mid as int);
                    }
                }
            }
            lo = mid + 1;
        } else {
            proof {
                assert forall|i: int| mid <= i < 78 implies #[trigger] TAXONOMY@[i][0] >= code by {
                    if i > mid {
                        lemma_taxonomy_sorted(mid as int, i);
                    }
                }
            }
            hi = mid;
        }
    }
    if lo < GROUP_COUNT && TAXONOMY[lo][0] == code as u32 {
        proof {
            lemma_category_row(code, lo as int);
        }
        Some(lo)
    } else {
        proof {
            assert forall|j: int| 0 <= j < 78 implies #[trigger] TAXONOMY@[j][0] != code by {
                if j > lo {
                    lemma_taxonomy_sorted(lo as int, j);
                }
            }
            lemma_category_row(code, 78);
        }
        None
    }
}

/// Looks up a group (position 2) within a category by binary search over the table, which is
/// sorted by `(category, group)`: its row.
pub fn find_group(category: u8, code: u8) -> (r: Option<usize>)
    ensures
        r matches Some(row) ==> row == group_row(category, code) && row < GROUP_COUNT,
        r is None <==> group_row(category, code) >= GROUP_COUNT,
{
    let ghost target: int = category * 256 + code;
    let mut lo: usize = 0;
    let mut hi: usize = GROUP_COUNT;
    while lo < hi
        invariant
            lo <= hi <= 78,
            target == category * 256 + code,
            forall|i: int| 0 <= i < lo ==> #[trigger] row_key(TAXONOMY@[i]) < target,
            forall|i: int| hi <= i < 78 ==> #[trigger] row_key(TAXONOMY@[i]) >= target,
        decreases hi - lo,
    {
        let mid = lo + (hi - lo) / 2;
        let entry = TAXONOMY[mid];
        proof {
            lemma_row_found(mid as int);
        }
        if entry[0] < category as u32 || (entry[0] == category as u32 && entry[1] < code as u32) {
            proof {
                assert(row_key(TAXONOMY@[mid as int]) < target);
                assert forall|i: int| 0 <= i < mid + 1 implies #[trigger] row_key(TAXONOMY@[i])
                    < target by {
                    if i < mid {
                        lemma_taxonomy_sorted(i, mid as int);
                    }
                }
            }
            lo = mid + 1;
        } else {
            proof {
                assert(row_key(TAXONOMY@[mid as int]) >= target);
                assert forall|i: int| mid <= i < 78 implies #[trigger] row_key(TAXONOMY@[i])
                    >= target by {
                    if i > mid {
                        lemma_taxonomy_sorted(mid as int, i);
                    }
                }
            }
            hi = mid;
        }
    }
    if lo < GROUP_COUNT && TAXONOMY[lo][0] == category as u32 && TAXONOMY[lo][1] == code as u32 {
        proof {
            assert forall|j: int| 0 <= j < lo implies !(#[trigger] TAXONOMY@[j][0] == category
                && TAXONOMY@[j][1] == code) by {
                assert(row_key(TAXONOMY@[j]) < target);
            }
            lemma_group_row(category, code, lo as int);
        }
        Some(lo)
    } else {
        proof {
            assert forall|j: int| 0 <= j < 78 implies !(#[trigger] TAXONOMY@[j][0] == category
                && TAXONOMY@[j][1] == code) by {
                lemma_row_found(j);
                if j < lo {
                    assert(row_key(TAXONOMY@[j]) < target);
                } else {
                    lemma_row_found(lo as int);
                    if j > lo {
                        lemma_taxonomy_sorted(lo as int, j);
                    }
                }
            }
            lemma_group_row(category, code, 78);
        }
        None
    }
}

/// Whether an attribute bitmask permits the uppercase letter `code`.
pub fn attr_allows(mask: u32, code: u8) -> (r: bool)
    requires
        is_upper(code),
    ensures
        r == spec_attr_allows(mask, code),
{
    (mask >> ((code - 65) as u32)) & 1 == 1
}

/// The letters a bitmask permits, from bit `k` upwards, in alphabetical order.
pub open spec fn letters_from(mask: u32, k: int) -> Seq<u8>
    decreases 26 - k,
{
    if k >= 26 {
        seq![]
    } else if (mask >> (k as u32)) & 1 == 1 {
        seq![(65 + k) as u8] + letters_from(mask, k + 1)
    } else {
        letters_from(mask, k + 1)
    }
}

/// The letters a bitmask permits, in alphabetical order.
pub open spec fn permitted_letters(mask: u32) -> Seq<u8> {
    letters_from(mask, 0)
}

proof fn lemma_letters_from_allowed(mask: u32, k: int, j: int)
    requires
        0 <= k <= 26,
        0 <= j < letters_from(mask, k).len(),
    ensures
        is_upper(letters_from(mask, k)[j]),
        spec_attr_allows(mask, letters_from(mask, k)[j]),
    decreases 26 - k,
{
    if k < 26 {
        if (mask >> (k as u32)) & 1 == 1 {
            if j > 0 {
                lemma_letters_from_allowed(mask, k + 1, j - 1);
            }
        } else {
            lemma_letters_from_allowed(mask, k + 1, j);
        }
    }
}

/// Whether bit `k` of an attribute bitmask is set, that is, whether letter `k` is permitted.
pub open spec fn has_bit(mask: u32, k: int) -> bool {
    (mask >> (k as u32)) & 1 == 1
}

proof fn lemma_some_bit(mask: u32)
    requires
        0 < mask < 0x400_0000,
    ensures
        exists|k: int| 0 <= k < 26 && #[trigger] has_bit(mask, k),
{
    if !(exists|k: int| 0 <= k < 26 && #[trigger] has_bit(mask, k)) {
        assert(
            !has_bit(mask, 0) && !has_bit(mask, 1) && !has_bit(mask, 2) && !has_bit(mask, 3)
            && !has_bit(mask, 4) && !has_bit(mask, 5) && !has_bit(mask, 6) && !has_bit(mask, 7)
            && !has_bit(mask, 8) && !has_bit(mask, 9) && !has_bit(mask, 10) && !has_bit(mask, 11)
            && !has_bit(mask, 12) && !has_bit(mask, 13) && !has_bit(mask, 14) && !has_bit(mask, 15)
            && !has_bit(mask, 16) && !has_bit(mask, 17) && !has_bit(mask, 18) && !has_bit(mask, 19)
            && !has_bit(mask, 20) && !has_bit(mask, 21) && !has_bit(mask, 22) && !has_bit(mask, 23)
            && !has_bit(mask, 24) && !has_bit(mask, 25)
        );
        assert(false) by (bit_vector)
            requires
                0 < mask < 0x400_0000,
                (mask >> 0u32) & 1 != 1 && (mask >> 1u32) & 1 != 1 && (mask >> 2u32) & 1 != 1
                && (mask >> 3u32) & 1 != 1 && (mask >> 4u32) & 1 != 1 && (mask >> 5u32) & 1 != 1
                && (mask >> 6u32) & 1 != 1 && (mask >> 7u32) & 1 != 1 && (mask >> 8u32) & 1 != 1
                && (mask >> 9u32) & 1 != 1 && (mask >> 10u32) & 1 != 1 && (mask >> 11u32) & 1 != 1
                && (mask >> 12u32) & 1 != 1 && (mask >> 13u32) & 1 != 1 && (mask >> 14u32) & 1 != 1
                && (mask >> 15u32) & 1 != 1 && (mask >> 16u32) & 1 != 1 && (mask >> 17u32) & 1 != 1
                && (mask >> 18u32) & 1 != 1 && (mask >> 19u32) & 1 != 1 && (mask >> 20u32) & 1 != 1
                && (mask >> 21u32) & 1 != 1 && (mask >> 22u32) & 1 != 1 && (mask >> 23u32) & 1 != 1
                && (mask >> 24u32) & 1 != 1 && (mask >> 25u32) & 1 != 1,
        ;
    }
}

proof fn lemma_letters_nonempty(mask: u32, k: int, b: int)
    requires
        0 <= k <= b < 26,
        (mask >> (b as u32)) & 1 == 1,
    ensures
        letters_from(mask, k).len() > 0,
    decreases b - k,
{
    if (mask >> (k as u32)) & 1 != 1 {
        lemma_letters_nonempty(mask, k + 1, b);
    }
}

/// The `n`-th letter (counting from 0, wrapping around) that a non-empty attribute bitmask
/// permits; used to build taxonomically valid codes.
pub fn nth_letter(mask: u32, n: usize) -> (letter: u8)
    requires
        0 < mask < 0x400_0000,
    ensures
        permitted_letters(mask).len() > 0,
        letter == permitted_letters(mask)[n as int % permitted_letters(mask).len() as int],
        is_upper(letter),
        spec_attr_allows(mask, letter),
{
    proof {
        lemma_some_bit(mask);
        let b = choose|k: int| 0 <= k < 26 && has_bit(mask, k);
        lemma_letters_nonempty(mask, 0, b);
    }
    let mut count: usize = 0;
    let mut k: u32 = 0;
    while k < 26
        invariant
            k <= 26,
            count + letters_from(mask, k as int).len() == permitted_letters(mask).len(),
            count <= k,
        decreases 26 - k,
    {
        if (mask >> k) & 1 == 1 {
            count = count + 1;
        }
        k = k + 1;
    }
    let target = n % count;
    let mut seen: usize = 0;
    let mut k: u32 = 0;
    while k < 26
        invariant
            k <= 26,
            seen <= target < count,
            count == permitted_letters(mask).len(),
            target == n as int % permitted_letters(mask).len() as int,
            target - seen < letters_from(mask, k as int).len(),
            permitted_letters(mask)[target as int] == letters_from(mask, k as int)[target - seen],
        decreases 26 - k,
    {
        if (mask >> k) & 1 == 1 {
            if seen == target {
                proof {
                    lemma_letters_from_allowed(mask, 0, target as int);
                }
                return 65 + k as u8;
            }
            seen = seen + 1;
        }
        k = k + 1;
    }
    0
}

/// Builds a valid CFI from the taxonomy row of its group and one selector per attribute position:
/// each attribute is the selector-th letter (wrapping around) that the group permits there.
pub fn build_valid_cfi_bytes(row: usize, selectors: [usize; 4]) -> (bytes: [u8; 6])
    requires
        row < GROUP_COUNT,
    ensures
        is_valid_cfi(bytes@),
        bytes@[0] == TAXONOMY@[row as int][0],
        bytes@[1] == TAXONOMY@[row as int][1],
        forall|a: int|
            0 <= a < 4 ==> bytes@[a + 2] == permitted_letters(TAXONOMY@[row as int][a + 2])[
                selectors@[a] as int % permitted_letters(TAXONOMY@[row as int][a + 2]).len() as int
            ],
{
    proof {
        lemma_row_found(row as int);
        assert(0 < TAXONOMY@[row as int][2] < 0x400_0000);
        assert(0 < TAXONOMY@[row as int][3] < 0x400_0000);
        assert(0 < TAXONOMY@[row as int][4] < 0x400_0000);
        assert(0 < TAXONOMY@[row as int][5] < 0x400_0000);
    }
    let entry = TAXONOMY[row];
    let bytes: [u8; 6] = [
        entry[0] as u8,
        entry[1] as u8,
        nth_letter(entry[2], selectors[0]),
        nth_letter(entry[3], selectors[1]),
        nth_letter(entry[4], selectors[2]),
        nth_letter(entry[5], selectors[3]),
    ];
    proof {
        let b = bytes@;
        assert forall|j: int| 0 <= j < 6 implies #[trigger] is_upper(b[j]) by {}
        lemma_first_failure(6, |i: int| is_upper(b[i]), 6);
        assert forall|a: int| 0 <= a < 4 implies #[trigger] spec_attr_allows(
            TAXONOMY@[row as int][a + 2],
            b[a + 2],
        ) by {}
        lemma_first_bad_attribute(b, row as int, 4);
    }
    bytes
}

} // verus!
