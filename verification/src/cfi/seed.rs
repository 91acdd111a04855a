//! Building the taxonomy rows from a seed: the code-only description of ISO 10962 that lists, for
//! each category, its groups and, for each group, the code letters permitted at each of the four
//! attribute positions.
//!
//! The seed arrives as plain values ([`SeedCategory`], [`SeedGroup`]). Every code must be a single
//! uppercase letter and every attribute must permit at least one letter. Each group becomes one
//! row `[category, group, a1, a2, a3, a4]` in the layout of [`super::table::TAXONOMY`]; groups are
//! ordered by code within their category, and categories by code, both stably. The blocks can be
//! rendered as table source in which each category entry lists its group entries.

use super::table::row_well_formed;
use super::validation::{has_bit, letters_from, permitted_letters};
use crate::text::{
    ascii_chars, ascii_str, chars_of, first_failure, lemma_first_failure,
    lemma_first_failure_bound, lemma_first_failure_range,
};
use vstd::prelude::*;

verus! {

/// Which code of the seed was not a single uppercase letter.
#[derive(Debug, Clone, Copy, PartialEq, Eq, Structural)]
pub enum SeedField {
    CategoryCode,
    GroupCode,
    AttributeValueCode,
}

/// Why a seed could not be turned into taxonomy rows.
#[derive(Debug, Clone)]
pub enum SeedError {
    /// A code was not a single uppercase ASCII letter.
    NotALetter { field: SeedField, found: String },
    /// An attribute of a group lists no permitted letter.
    EmptyAttribute { group: char, attribute: u8 },
}

/// [`SeedError`] with its text as characters.
pub enum SeedErrorView {
    NotALetter { field: SeedField, found: Seq<char> },
    EmptyAttribute { group: char, attribute: u8 },
}

impl View for SeedError {
    type V = SeedErrorView;

    open spec fn view(&self) -> SeedErrorView {
        match self {
            SeedError::NotALetter { field, found } => SeedErrorView::NotALetter {
                field: *field,
                found: found@,
            },
            SeedError::EmptyAttribute { group, attribute } => SeedErrorView::EmptyAttribute {
                group: *group,
                attribute: *attribute,
            },
        }
    }
}

/// A group of the seed: its code and, for each attribute position, the codes it permits.
pub struct SeedGroup {
    pub code: String,
    pub attributes: [Vec<String>; 4],
}

/// A category of the seed: its code and its groups.
pub struct SeedCategory {
    pub code: String,
    pub groups: Vec<SeedGroup>,
}

/// The letter spelled by `s` when it is exactly one uppercase ASCII letter.
pub open spec fn spec_single_letter(s: Seq<char>) -> Option<u8> {
    if s.len() == 1 && 65 <= s[0] as u32 <= 90 {
        Some(s[0] as u32 as u8)
    } else {
        None
    }
}

/// The first position of `values` that does not hold a single letter (`values.len()` if none).
pub open spec fn first_non_letter_value(values: Seq<String>) -> int {
    first_failure(values.len() as int, |i: int| spec_single_letter(values[i]@) is Some)
}

/// `values` lists the letter `'A' + k`.
pub open spec fn lists_letter(values: Seq<String>, k: int) -> bool {
    exists|i: int| 0 <= i < values.len() && spec_single_letter(values[i]@) == Some((65 + k) as u8)
}

/// `mask` permits exactly the letters that `values` lists.
pub open spec fn is_mask_of(mask: u32, values: Seq<String>) -> bool {
    &&& mask < 0x400_0000
    &&& forall|k: int| 0 <= k < 26 ==> (#[trigger] has_bit(mask, k) <==> lists_letter(values, k))
}

/// The bitmask of the letters that `values` lists (bit `n` permits `'A' + n`).
pub open spec fn mask_of(values: Seq<String>) -> u32
    decreases values.len(),
{
    if values.len() == 0 {
        0
    } else {
        mask_of(values.drop_last()) | (1u32 << ((spec_single_letter(values.last()@)->0 - 65) as u32))
    }
}

/// Reads a code: the letter, when `s` is exactly one uppercase ASCII letter.
pub fn single_letter(s: &str) -> (r: Option<u8>)
    ensures
        r == spec_single_letter(s@),
{
    let chars = chars_of(s);
    if chars.len() != 1 {
        return None;
    }
    let c = chars[0] as u32;
    if 65 <= c && c <= 90 {
        Some(c as u8)
    } else {
        None
    }
}

proof fn lemma_set_bit(m: u32, j: u32, k: u32)
    requires
        j < 26,
        k < 26,
        m < 0x400_0000,
    ensures
        ((m | (1u32 << j)) >> k) & 1 == 1 <==> ((m >> k) & 1 == 1 || k == j),
        (m | (1u32 << j)) < 0x400_0000,
{
    assert(((m | (1u32 << j)) >> k) & 1 == 1 <==> ((m >> k) & 1 == 1 || k == j)) by (bit_vector)
        requires
            j < 26,
            k < 26,
    ;
    assert((m | (1u32 << j)) < 0x400_0000) by (bit_vector)
        requires
            j < 26,
            m < 0x400_0000,
    ;
}

proof fn lemma_zero_bits(k: u32)
    requires
        k < 26,
    ensures
        (0u32 >> k) & 1 != 1,
{
    assert((0u32 >> k) & 1 != 1) by (bit_vector);
}

/// The bitmask of the letters that `values` lists, or the position of the first value that is not
/// a single letter.
pub fn attribute_mask(values: &Vec<String>) -> (r: Result<u32, usize>)
    ensures
        match r {
            Ok(mask) => first_non_letter_value(values@) == values@.len() && is_mask_of(
                mask,
                values@,
            ) && mask == mask_of(values@),
            Err(i) => i == first_non_letter_value(values@) && i < values@.len(),
        },
{
    let mut mask: u32 = 0;
    let mut i: usize = 0;
    proof {
        assert forall|k: int| 0 <= k < 26 implies !#[trigger] has_bit(mask, k) by {
            lemma_zero_bits(k as u32);
        }
    }
    while i < values.len()
        invariant
            i <= values@.len(),
            mask < 0x400_0000,
            mask == mask_of(values@.take(i as int)),
            forall|j: int| 0 <= j < i ==> #[trigger] spec_single_letter(values@[j]@) is Some,
            forall|k: int|
                0 <= k < 26 ==> (#[trigger] has_bit(mask, k) <==> exists|j: int|
                    0 <= j < i && spec_single_letter(values@[j]@) == Some((65 + k) as u8)),
        decreases values@.len() - i,
    {
        let letter = match single_letter(values[i].as_str()) {
            Some(letter) => letter,
            None => {
                proof {
                    lemma_first_failure(
                        values@.len() as int,
                        |j: int| spec_single_letter(values@[j]@) is Some,
                        i as int,
                    );
                }
                return Err(i);
            },
        };
        let bit: u32 = (letter - 65) as u32;
        let old_mask = mask;
        mask = mask | (1u32 << bit);
        proof {
            assert forall|k: int| 0 <= k < 26 implies (#[trigger] has_bit(mask, k) <==> exists|j: int|
                0 <= j < i + 1 && spec_single_letter(values@[j]@) == Some((65 + k) as u8)) by {
                lemma_set_bit(old_mask, bit, k as u32);
                if k == bit as int {
                    assert(spec_single_letter(values@[i as int]@) == Some((65 + k) as u8));
                }
                if has_bit(old_mask, k) {
                    let j = choose|j: int|
                        0 <= j < i && spec_single_letter(values@[j]@) == Some((65 + k) as u8);
                    assert(0 <= j < i + 1);
                }
            }
            lemma_set_bit(old_mask, bit, 0);
            assert(values@.take(i + 1).drop_last() =~= values@.take(i as int));
        }
        i = i + 1;
    }
    proof {
        lemma_first_failure(
            values@.len() as int,
            |j: int| spec_single_letter(values@[j]@) is Some,
            values@.len() as int,
        );
        assert(values@.take(i as int) =~= values@);
    }
    Ok(mask)
}

/// What is wrong with attribute `a` (0-based) of group `group`, if anything: it lists no letter,
/// or one of its values is not a single letter.
pub open spec fn attribute_fault(values: Seq<String>, group: u8, a: int) -> Option<SeedErrorView> {
    if values.len() == 0 {
        Some(SeedErrorView::EmptyAttribute { group: group as char, attribute: (a + 1) as u8 })
    } else if first_non_letter_value(values) < values.len() {
        Some(
            SeedErrorView::NotALetter {
                field: SeedField::AttributeValueCode,
                found: values[first_non_letter_value(values)]@,
            },
        )
    } else {
        None
    }
}

/// The row of group `g` of category `category`, or the first problem with the group: its code,
/// then its attributes in order.
pub open spec fn spec_group_row(category: u8, g: SeedGroup) -> Result<[u32; 6], SeedErrorView> {
    let a = g.attributes@;
    match spec_single_letter(g.code@) {
        None => Err(SeedErrorView::NotALetter { field: SeedField::GroupCode, found: g.code@ }),
        Some(code) => if let Some(e) = attribute_fault(a[0]@, code, 0) {
            Err(e)
        } else if let Some(e) = attribute_fault(a[1]@, code, 1) {
            Err(e)
        } else if let Some(e) = attribute_fault(a[2]@, code, 2) {
            Err(e)
        } else if let Some(e) = attribute_fault(a[3]@, code, 3) {
            Err(e)
        } else {
            Ok(
                [
                    category as u32,
                    code as u32,
                    mask_of(a[0]@),
                    mask_of(a[1]@),
                    mask_of(a[2]@),
                    mask_of(a[3]@),
                ],
            )
        },
    }
}

/// Where rows with `value` in column `key` go in rows sorted by that column, after those with an
/// equal value: the first position whose value is larger.
pub open spec fn insertion_point(rows: Seq<[u32; 6]>, value: u32, key: int) -> int {
    first_failure(rows.len() as int, |i: int| rows[i]@[key] <= value)
}

proof fn lemma_insertion_point(rows: Seq<[u32; 6]>, value: u32, key: int, p: int)
    requires
        0 <= p <= rows.len(),
        forall|j: int| 0 <= j < p ==> #[trigger] rows[j]@[key] <= value,
        p < rows.len() ==> !(rows[p]@[key] <= value),
    ensures
        insertion_point(rows, value, key) == p,
{
    lemma_first_failure(rows.len() as int, |i: int| rows[i]@[key] <= value, p);
}

/// `rows` with `block` inserted at `p`.
pub open spec fn insert_at(rows: Seq<[u32; 6]>, p: int, block: Seq<[u32; 6]>) -> Seq<[u32; 6]> {
    rows.take(p) + block + rows.skip(p)
}

/// The rows of groups `gs` of category `category`, ordered stably by group code, or the first
/// problem among the groups.
pub open spec fn spec_group_rows(category: u8, gs: Seq<SeedGroup>) -> Result<
    Seq<[u32; 6]>,
    SeedErrorView,
>
    decreases gs.len(),
{
    if gs.len() == 0 {
        Ok(Seq::empty())
    } else {
        match spec_group_rows(category, gs.drop_last()) {
            Err(e) => Err(e),
            Ok(rows) => match spec_group_row(category, gs.last()) {
                Err(e) => Err(e),
                Ok(row) => Ok(insert_at(rows, insertion_point(rows, row[1], 1), seq![row])),
            },
        }
    }
}

/// The code of category `c` with the rows of its groups, or the first problem with it.
pub open spec fn spec_category_rows(c: SeedCategory) -> Result<(u8, Seq<[u32; 6]>), SeedErrorView> {
    match spec_single_letter(c.code@) {
        None => Err(SeedErrorView::NotALetter { field: SeedField::CategoryCode, found: c.code@ }),
        Some(code) => match spec_group_rows(code, c.groups@) {
            Err(e) => Err(e),
            Ok(rows) => Ok((code, rows)),
        },
    }
}

/// A category block: its code and the rows of its groups.
pub type Block = (u8, Seq<[u32; 6]>);

/// Where a block with category `code` goes among blocks sorted by code, after those with an
/// equal code: the first position whose code is larger.
pub open spec fn block_insertion_point(blocks: Seq<Block>, code: u8) -> int {
    first_failure(blocks.len() as int, |i: int| blocks[i].0 <= code)
}

/// The categories of the seed `cs` as blocks, ordered stably by code, each with its rows; or the
/// first problem in the seed.
pub open spec fn spec_seed_categories(cs: Seq<SeedCategory>) -> Result<Seq<Block>, SeedErrorView>
    decreases cs.len(),
{
    if cs.len() == 0 {
        Ok(Seq::empty())
    } else {
        match spec_seed_categories(cs.drop_last()) {
            Err(e) => Err(e),
            Ok(blocks) => match spec_category_rows(cs.last()) {
                Err(e) => Err(e),
                Ok(block) => Ok(blocks.insert(block_insertion_point(blocks, block.0), block)),
            },
        }
    }
}

/// The blocks held by a vector of category blocks.
pub open spec fn blocks_view(v: Seq<(u8, Vec<[u32; 6]>)>) -> Seq<Block> {
    Seq::new(v.len(), |i: int| (v[i].0, v[i].1@))
}

proof fn lemma_nonempty_mask(values: Seq<String>)
    requires
        values.len() > 0,
        first_non_letter_value(values) == values.len(),
        is_mask_of(mask_of(values), values),
    ensures
        mask_of(values) != 0,
{
    lemma_first_failure_bound(
        values.len() as int,
        |i: int| spec_single_letter(values[i]@) is Some,
        0,
    );
    let k = spec_single_letter(values[0]@)->0 - 65;
    assert(lists_letter(values, k));
    assert(has_bit(mask_of(values), k));
    lemma_zero_bits(k as u32);
}

/// Reads attribute `a` (0-based) of a group with code `group`: its bitmask, or what is wrong.
fn read_attribute(values: &Vec<String>, group: u8, a: u8) -> (r: Result<u32, SeedError>)
    requires
        a < 4,
    ensures
        match r {
            Ok(mask) => attribute_fault(values@, group, a as int) is None && mask == mask_of(
                values@,
            ) && mask != 0 && is_mask_of(mask, values@),
            Err(e) => attribute_fault(values@, group, a as int) == Some(e@),
        },
{
    if values.len() == 0 {
        return Err(SeedError::EmptyAttribute { group: group as char, attribute: a + 1 });
    }
    match attribute_mask(values) {
        Ok(mask) => {
            proof {
                lemma_nonempty_mask(values@);
            }
            Ok(mask)
        },
        Err(i) => Err(
            SeedError::NotALetter { field: SeedField::AttributeValueCode, found: values[i].clone() },
        ),
    }
}

/// Reads one group of category `category` into its taxonomy row.
pub fn group_row(category: u8, group: &SeedGroup) -> (r: Result<[u32; 6], SeedError>)
    ensures
        match r {
            Ok(row) => spec_group_row(category, *group) == Ok::<[u32; 6], SeedErrorView>(row),
            Err(e) => spec_group_row(category, *group) == Err::<[u32; 6], SeedErrorView>(e@),
        },
{
    let code = match single_letter(group.code.as_str()) {
        Some(code) => code,
        None => {
            return Err(SeedError::NotALetter { field: SeedField::GroupCode, found: group.code.clone() });
        },
    };
    let a1 = read_attribute(&group.attributes[0], code, 0)?;
    let a2 = read_attribute(&group.attributes[1], code, 1)?;
    let a3 = read_attribute(&group.attributes[2], code, 2)?;
    let a4 = read_attribute(&group.attributes[3], code, 3)?;
    Ok([category as u32, code as u32, a1, a2, a3, a4])
}

/// Inserts `block` into `rows`, which are sorted by column `key`, after every row whose key is
/// at most `block_key`.
fn insert_sorted(rows: &mut Vec<[u32; 6]>, block: &Vec<[u32; 6]>, block_key: u32, key: usize)
    requires
        key < 6,
    ensures
        final(rows)@ == insert_at(old(rows)@, insertion_point(old(rows)@, block_key, key as int), block@),
{
    let ghost old_rows = rows@;
    let mut p: usize = 0;
    while p < rows.len() && rows[p][key] <= block_key
        invariant
            p <= rows@.len(),
            rows@ == old_rows,
            key < 6,
            forall|j: int| 0 <= j < p ==> #[trigger] rows@[j]@[key as int] <= block_key,
        decreases rows@.len() - p,
    {
        p = p + 1;
    }
    proof {
        lemma_insertion_point(old_rows, block_key, key as int, p as int);
    }
    let mut j: usize = 0;
    while j < block.len()
        invariant
            j <= block@.len(),
            p <= old_rows.len(),
            rows@.len() == old_rows.len() + j,
            rows@ == old_rows.take(p as int) + block@.take(j as int) + old_rows.skip(p as int),
        decreases block@.len() - j,
    {
        let len = rows.len();
        assert(p + j <= len);
        rows.insert(p + j, block[j]);
        assert(rows@ =~= old_rows.take(p as int) + block@.take(j + 1) + old_rows.skip(p as int));
        j = j + 1;
    }
    assert(block@.take(j as int) =~= block@);
}

proof fn lemma_group_rows_stop(category: u8, gs: Seq<SeedGroup>, i: int)
    requires
        0 <= i <= gs.len(),
        spec_group_rows(category, gs.take(i)) is Err,
    ensures
        spec_group_rows(category, gs) == spec_group_rows(category, gs.take(i)),
    decreases gs.len() - i,
{
    if i == gs.len() {
        assert(gs.take(i) =~= gs);
    } else {
        assert(gs.drop_last().take(i) =~= gs.take(i));
        lemma_group_rows_stop(category, gs.drop_last(), i);
    }
}

proof fn lemma_seed_categories_stop(cs: Seq<SeedCategory>, i: int)
    requires
        0 <= i <= cs.len(),
        spec_seed_categories(cs.take(i)) is Err,
    ensures
        spec_seed_categories(cs) == spec_seed_categories(cs.take(i)),
    decreases cs.len() - i,
{
    if i == cs.len() {
        assert(cs.take(i) =~= cs);
    } else {
        assert(cs.drop_last().take(i) =~= cs.take(i));
        lemma_seed_categories_stop(cs.drop_last(), i);
    }
}

/// Reads one category: its code and the rows of its groups, ordered stably by group code.
pub fn category_rows(category: &SeedCategory) -> (r: Result<(u8, Vec<[u32; 6]>), SeedError>)
    ensures
        match r {
            Ok((code, rows)) => spec_category_rows(*category) == Ok::<
                (u8, Seq<[u32; 6]>),
                SeedErrorView,
            >((code, rows@)),
            Err(e) => spec_category_rows(*category) == Err::<(u8, Seq<[u32; 6]>), SeedErrorView>(
                e@,
            ),
        },
{
    let code = match single_letter(category.code.as_str()) {
        Some(code) => code,
        None => {
            return Err(
                SeedError::NotALetter { field: SeedField::CategoryCode, found: category.code.clone() },
            );
        },
    };
    let groups = &category.groups;
    let mut rows: Vec<[u32; 6]> = Vec::new();
    let mut i: usize = 0;
    assert(groups@.take(0) =~= Seq::<SeedGroup>::empty());
    while i < groups.len()
        invariant
            i <= groups@.len(),
            groups@ == category.groups@,
            spec_single_letter(category.code@) == Some(code),
            spec_group_rows(code, groups@.take(i as int)) == Ok::<Seq<[u32; 6]>, SeedErrorView>(
                rows@,
            ),
        decreases groups@.len() - i,
    {
        assert(groups@.take(i + 1).drop_last() =~= groups@.take(i as int));
        assert(groups@.take(i + 1).last() == groups@[i as int]);
        let row = match group_row(code, &groups[i]) {
            Ok(row) => row,
            Err(e) => {
                proof {
                    lemma_group_rows_stop(code, groups@, i + 1);
                }
                return Err(e);
            },
        };
        let single = vec![row];
        assert(single@ =~= seq![row]);
        insert_sorted(&mut rows, &single, row[1], 1);
        i = i + 1;
    }
    assert(groups@.take(i as int) =~= groups@);
    Ok((code, rows))
}

/// Builds the category blocks of a seed: each category's rows, ordered stably by group code,
/// with the categories ordered stably by code; or the first problem found, in seed order.
pub fn seed_categories(categories: &Vec<SeedCategory>) -> (r: Result<
    Vec<(u8, Vec<[u32; 6]>)>,
    SeedError,
>)
    ensures
        match r {
            Ok(blocks) => spec_seed_categories(categories@) == Ok::<Seq<Block>, SeedErrorView>(
                blocks_view(blocks@),
            ),
            Err(e) => spec_seed_categories(categories@) == Err::<Seq<Block>, SeedErrorView>(e@),
        },
        r matches Ok(blocks) ==> blocks_well_formed(blocks_view(blocks@)),
{
    let mut blocks: Vec<(u8, Vec<[u32; 6]>)> = Vec::new();
    let mut i: usize = 0;
    assert(categories@.take(0) =~= Seq::<SeedCategory>::empty());
    assert(blocks_view(blocks@) =~= Seq::<Block>::empty());
    while i < categories.len()
        invariant
            i <= categories@.len(),
            spec_seed_categories(categories@.take(i as int)) == Ok::<Seq<Block>, SeedErrorView>(
                blocks_view(blocks@),
            ),
        decreases categories@.len() - i,
    {
        assert(categories@.take(i + 1).drop_last() =~= categories@.take(i as int));
        assert(categories@.take(i + 1).last() == categories@[i as int]);
        let (code, rows) = match category_rows(&categories[i]) {
            Ok(pair) => pair,
            Err(e) => {
                proof {
                    lemma_seed_categories_stop(categories@, i + 1);
                }
                return Err(e);
            },
        };
        let ghost old_blocks = blocks@;
        let mut p: usize = 0;
        while p < blocks.len() && blocks[p].0 <= code
            invariant
                p <= blocks@.len(),
                blocks@ == old_blocks,
                forall|j: int| 0 <= j < p ==> #[trigger] blocks@[j].0 <= code,
            decreases blocks@.len() - p,
        {
            p = p + 1;
        }
        proof {
            lemma_block_insertion_point(blocks_view(old_blocks), code, p as int);
        }
        blocks.insert(p, (code, rows));
        proof {
            assert(blocks_view(blocks@) =~= blocks_view(old_blocks).insert(p as int, (code, rows@)));
        }
        i = i + 1;
    }
    assert(categories@.take(i as int) =~= categories@);
    proof {
        lemma_seed_categories_well_formed(categories@);
    }
    Ok(blocks)
}

proof fn lemma_block_insertion_point(blocks: Seq<Block>, code: u8, p: int)
    requires
        0 <= p <= blocks.len(),
        forall|j: int| 0 <= j < p ==> #[trigger] blocks[j].0 <= code,
        p < blocks.len() ==> !(blocks[p].0 <= code),
    ensures
        block_insertion_point(blocks, code) == p,
{
    lemma_first_failure(blocks.len() as int, |i: int| blocks[i].0 <= code, p);
}

/// The uppercase hexadecimal digit of `d` (below 16).
pub open spec fn hex_char(d: nat) -> char {
    if d < 10 {
        (d + 48) as char
    } else {
        (d + 55) as char
    }
}

/// The `count` lowest hexadecimal digits of `n`, most significant first.
pub open spec fn hex_digits(n: nat, count: nat) -> Seq<char>
    decreases count,
{
    if count == 0 {
        Seq::empty()
    } else {
        hex_digits(n / 16, (count - 1) as nat).push(hex_char(n % 16))
    }
}

/// The text that opens the table source: the definitions of the entry types.
pub open spec fn table_header() -> Seq<char> {
    "// @generated by `just cfi-generate` from data/cfi.json — DO NOT EDIT BY HAND.\n//\n// Derived from the ISO 10962 (CFI) classification *code* structure only: the category, group,\n// and attribute-value code letters and which combinations are valid. No ISO descriptive text is\n// reproduced here. Regenerate with `just cfi-generate`; `just cfi-check` verifies there is no drift.\n\n/// A single group within a category: its code, plus a bitmask of the permitted code letters for\n/// each of the four CFI attribute positions.\n///\n/// In `attrs[i]`, bit `n` (from the least-significant) is set when the letter `b'A' + n` is a\n/// valid code for attribute `i + 1`. Every mask has at least one bit set.\npub(crate) struct GroupEntry {\n    pub code: u8,\n    pub attrs: [u32; 4],\n}\n\n/// One ISO 10962 category: its code and the groups defined under it, both sorted by `code` so the\n/// lookup in `super::validation` can binary-search them.\npub(crate) struct CategoryEntry {\n    pub code: u8,\n    pub groups: &'static [GroupEntry],\n}\n\n"@
}

/// The source of one group entry: a comment spelling out the letters each attribute permits,
/// then the entry with its code and the four masks as eight hexadecimal digits.
pub open spec fn group_text(r: [u32; 6]) -> Seq<char> {
    "            // group "@ + seq![r[1] as char] + ": a1="@ + ascii_chars(permitted_letters(r[2]))
        + " a2="@ + ascii_chars(permitted_letters(r[3])) + " a3="@ + ascii_chars(
        permitted_letters(r[4]),
    ) + " a4="@ + ascii_chars(permitted_letters(r[5])) + "\n            GroupEntry { code: b'"@
        + seq![r[1] as char] + "', attrs: [0x"@ + hex_digits(r[2] as nat, 8) + ", 0x"@
        + hex_digits(r[3] as nat, 8) + ", 0x"@ + hex_digits(r[4] as nat, 8) + ", 0x"@
        + hex_digits(r[5] as nat, 8) + "] },\n"@
}

/// The source of the group entries of `rows`, in order.
pub open spec fn groups_text(rows: Seq<[u32; 6]>) -> Seq<char>
    decreases rows.len(),
{
    if rows.len() == 0 {
        Seq::empty()
    } else {
        groups_text(rows.drop_last()) + group_text(rows.last())
    }
}

/// The source of one category entry with its groups.
pub open spec fn category_text(b: Block) -> Seq<char> {
    "    CategoryEntry {\n        code: b'"@ + seq![b.0 as char] + "',\n        groups: &[\n"@
        + groups_text(b.1) + "        ],\n    },\n"@
}

/// The source of the category entries of `blocks`, in order.
pub open spec fn categories_text(blocks: Seq<Block>) -> Seq<char>
    decreases blocks.len(),
{
    if blocks.len() == 0 {
        Seq::empty()
    } else {
        categories_text(blocks.drop_last()) + category_text(blocks.last())
    }
}

/// The table source: the entry type definitions, then the static holding every category.
pub open spec fn table_text(blocks: Seq<Block>) -> Seq<char> {
    table_header() + "pub(crate) static CATEGORIES: &[CategoryEntry] = &[\n"@ + categories_text(blocks)
        + "];\n"@
}

fn hex_bytes(n: u32, count: usize) -> (v: Vec<u8>)
    requires
        count <= 8,
    ensures
        ascii_chars(v@) == hex_digits(n as nat, count as nat),
        forall|i: int| 0 <= i < v@.len() ==> #[trigger] v@[i] < 128,
    decreases count,
{
    if count == 0 {
        let v: Vec<u8> = Vec::new();
        assert(ascii_chars(v@) =~= Seq::<char>::empty());
        v
    } else {
        let mut v = hex_bytes(n / 16, count - 1);
        let d = n % 16;
        let c: u8 = if d < 10 {
            d as u8 + 48
        } else {
            d as u8 + 55
        };
        let ghost before = v@;
        v.push(c);
        assert(ascii_chars(v@) =~= ascii_chars(before).push(hex_char(n as nat % 16)));
        v
    }
}

/// The eight hexadecimal digits of `n`.
fn hex_string(n: u32) -> (s: String)
    ensures
        s@ == hex_digits(n as nat, 8),
{
    let v = hex_bytes(n, 8);
    String::from_str(ascii_str(v.as_slice()))
}

/// The letters a non-empty mask permits, in alphabetical order.
fn letters_string(mask: u32) -> (s: String)
    ensures
        s@ == ascii_chars(permitted_letters(mask)),
{
    let mut v: Vec<u8> = Vec::new();
    let mut k: u32 = 0;
    while k < 26
        invariant
            k <= 26,
            v@ + letters_from(mask, k as int) == permitted_letters(mask),
            forall|i: int| 0 <= i < v@.len() ==> 65 <= #[trigger] v@[i] <= 90,
        decreases 26 - k,
    {
        if (mask >> k) & 1 == 1 {
            let ghost before = v@;
            v.push(65 + k as u8);
            assert(before + letters_from(mask, k as int) =~= v@ + letters_from(mask, k + 1));
        }
        k = k + 1;
    }
    assert(v@ + letters_from(mask, 26) =~= v@);
    String::from_str(ascii_str(v.as_slice()))
}

/// One letter as a string.
fn letter_string(c: u32) -> (s: String)
    requires
        65 <= c <= 90,
    ensures
        s@ == seq![c as char],
{
    let b: [u8; 1] = [c as u8];
    assert(ascii_chars(b@) =~= seq![c as char]);
    String::from_str(ascii_str(b.as_slice()))
}

/// The source of one group entry.
fn group_string(r: [u32; 6]) -> (s: String)
    requires
        65 <= r[1] <= 90,
    ensures
        s@ == group_text(r),
{
    let code = letter_string(r[1]);
    let mut s = String::from_str("            // group ");
    s.append(code.as_str());
    s.append(": a1=");
    s.append(letters_string(r[2]).as_str());
    s.append(" a2=");
    s.append(letters_string(r[3]).as_str());
    s.append(" a3=");
    s.append(letters_string(r[4]).as_str());
    s.append(" a4=");
    s.append(letters_string(r[5]).as_str());
    s.append("\n            GroupEntry { code: b'");
    s.append(code.as_str());
    s.append("', attrs: [0x");
    s.append(hex_string(r[2]).as_str());
    s.append(", 0x");
    s.append(hex_string(r[3]).as_str());
    s.append(", 0x");
    s.append(hex_string(r[4]).as_str());
    s.append(", 0x");
    s.append(hex_string(r[5]).as_str());
    s.append("] },\n");
    assert(s@ =~= group_text(r));
    s
}

/// The source of one category entry.
fn category_string(code: u8, rows: &Vec<[u32; 6]>) -> (s: String)
    requires
        65 <= code <= 90,
        rows_well_formed(rows@),
    ensures
        s@ == category_text((code, rows@)),
{
    let mut body = String::new();
    let mut i: usize = 0;
    while i < rows.len()
        invariant
            i <= rows@.len(),
            rows_well_formed(rows@),
            body@ == groups_text(rows@.take(i as int)),
        decreases rows@.len() - i,
    {
        assert(row_well_formed(rows@[i as int]));
        body.append(group_string(rows[i]).as_str());
        assert(rows@.take(i + 1).drop_last() =~= rows@.take(i as int));
        i = i + 1;
    }
    assert(rows@.take(i as int) =~= rows@);
    let mut s = String::from_str("    CategoryEntry {\n        code: b'");
    s.append(letter_string(code as u32).as_str());
    s.append("',\n        groups: &[\n");
    s.append(body.as_str());
    s.append("        ],\n    },\n");
    assert(s@ =~= category_text((code, rows@)));
    s
}

/// Renders category blocks as the table source: the entry type definitions, then a static
/// holding each category with its groups, in order.
pub fn render_table(categories: &Vec<(u8, Vec<[u32; 6]>)>) -> (s: String)
    requires
        blocks_well_formed(blocks_view(categories@)),
    ensures
        s@ == table_text(blocks_view(categories@)),
{
    let ghost blocks = blocks_view(categories@);
    let mut body = String::new();
    let mut i: usize = 0;
    while i < categories.len()
        invariant
            i <= categories@.len(),
            blocks == blocks_view(categories@),
            blocks_well_formed(blocks),
            body@ == categories_text(blocks.take(i as int)),
        decreases categories@.len() - i,
    {
        assert(65 <= blocks[i as int].0 <= 90 && rows_well_formed(blocks[i as int].1));
        let (code, rows) = &categories[i];
        body.append(category_string(*code, rows).as_str());
        assert(blocks.take(i + 1).drop_last() =~= blocks.take(i as int));
        assert(blocks.take(i + 1).last() == blocks[i as int]);
        i = i + 1;
    }
    assert(blocks.take(i as int) =~= blocks);
    let mut s = String::from_str("// @generated by `just cfi-generate` from data/cfi.json — DO NOT EDIT BY HAND.\n//\n// Derived from the ISO 10962 (CFI) classification *code* structure only: the category, group,\n// and attribute-value code letters and which combinations are valid. No ISO descriptive text is\n// reproduced here. Regenerate with `just cfi-generate`; `just cfi-check` verifies there is no drift.\n\n/// A single group within a category: its code, plus a bitmask of the permitted code letters for\n/// each of the four CFI attribute positions.\n///\n/// In `attrs[i]`, bit `n` (from the least-significant) is set when the letter `b'A' + n` is a\n/// valid code for attribute `i + 1`. Every mask has at least one bit set.\npub(crate) struct GroupEntry {\n    pub code: u8,\n    pub attrs: [u32; 4],\n}\n\n/// One ISO 10962 category: its code and the groups defined under it, both sorted by `code` so the\n/// lookup in `super::validation` can binary-search them.\npub(crate) struct CategoryEntry {\n    pub code: u8,\n    pub groups: &'static [GroupEntry],\n}\n\n");
    s.append("pub(crate) static CATEGORIES: &[CategoryEntry] = &[\n");
    s.append(body.as_str());
    s.append("];\n");
    s
}

proof fn lemma_all_letters(values: Seq<String>)
    requires
        first_non_letter_value(values) == values.len(),
    ensures
        forall|j: int| 0 <= j < values.len() ==> #[trigger] spec_single_letter(values[j]@) is Some,
{
    assert forall|j: int| 0 <= j < values.len() implies #[trigger] spec_single_letter(
        values[j]@,
    ) is Some by {
        lemma_first_failure_bound(
            values.len() as int,
            |i: int| spec_single_letter(values[i]@) is Some,
            j,
        );
    }
}

proof fn lemma_first_non_letter_range(values: Seq<String>)
    ensures
        0 <= first_non_letter_value(values) <= values.len(),
{
    lemma_first_failure_range(values.len() as int, |i: int| spec_single_letter(values[i]@) is Some);
}

proof fn lemma_letters_all(values: Seq<String>)
    requires
        forall|j: int| 0 <= j < values.len() ==> #[trigger] spec_single_letter(values[j]@) is Some,
    ensures
        first_non_letter_value(values) == values.len(),
{
    lemma_first_failure(
        values.len() as int,
        |i: int| spec_single_letter(values[i]@) is Some,
        values.len() as int,
    );
}

/// For values that are all single letters, `mask_of` permits exactly the listed letters.
proof fn lemma_mask_of(values: Seq<String>)
    requires
        first_non_letter_value(values) == values.len(),
    ensures
        is_mask_of(mask_of(values), values),
    decreases values.len(),
{
    if values.len() == 0 {
        assert forall|k: int| 0 <= k < 26 implies !#[trigger] has_bit(mask_of(values), k) by {
            lemma_zero_bits(k as u32);
        }
    } else {
        let prefix = values.drop_last();
        lemma_all_letters(values);
        assert forall|j: int| 0 <= j < prefix.len() implies #[trigger] spec_single_letter(
            prefix[j]@,
        ) is Some by {
            assert(prefix[j] == values[j]);
        }
        lemma_letters_all(prefix);
        lemma_mask_of(prefix);
        let m = mask_of(prefix);
        let last = spec_single_letter(values.last()@)->0;
        assert(spec_single_letter(values[values.len() - 1]@) is Some);
        let bit = (last - 65) as u32;
        assert(65 <= last <= 90);
        assert(bit < 26);
        assert(mask_of(values) == m | (1u32 << bit));
        assert forall|k: int| 0 <= k < 26 implies (#[trigger] has_bit(mask_of(values), k)
            <==> lists_letter(values, k)) by {
            lemma_set_bit(m, bit, k as u32);
            assert(has_bit(m, k) <==> lists_letter(prefix, k));
            if lists_letter(prefix, k) {
                let j = choose|j: int|
                    0 <= j < prefix.len() && spec_single_letter(prefix[j]@) == Some((65 + k) as u8);
                assert(values[j] == prefix[j]);
                assert(0 <= j < values.len() && spec_single_letter(values[j]@) == Some(
                    (65 + k) as u8,
                ));
            }
            if lists_letter(values, k) {
                let j = choose|j: int|
                    0 <= j < values.len() && spec_single_letter(values[j]@) == Some((65 + k) as u8);
                if j < prefix.len() {
                    assert(values[j] == prefix[j]);
                    assert(lists_letter(prefix, k));
                } else {
                    assert(values[j] == values.last());
                    assert(k == bit as int);
                }
            }
            if k == bit as int {
                assert(spec_single_letter(values[values.len() - 1]@) == Some((65 + k) as u8));
                assert(lists_letter(values, k));
            }
        }
        lemma_set_bit(m, bit, 0);
    }
}

/// Every row of `rows` holds letter codes and non-empty attribute masks.
pub open spec fn rows_well_formed(rows: Seq<[u32; 6]>) -> bool {
    forall|i: int| 0 <= i < rows.len() ==> row_well_formed(#[trigger] rows[i])
}

proof fn lemma_insert_well_formed(rows: Seq<[u32; 6]>, p: int, block: Seq<[u32; 6]>)
    requires
        0 <= p <= rows.len(),
        rows_well_formed(rows),
        rows_well_formed(block),
    ensures
        rows_well_formed(insert_at(rows, p, block)),
{
    let r = insert_at(rows, p, block);
    assert forall|i: int| 0 <= i < r.len() implies row_well_formed(#[trigger] r[i]) by {
        if i < p {
            assert(r[i] == rows[i]);
        } else if i < p + block.len() {
            assert(r[i] == block[i - p]);
        } else {
            assert(r[i] == rows[i - block.len()]);
        }
    }
}

proof fn lemma_attribute_mask_nonempty(values: Seq<String>, group: u8, a: int)
    requires
        attribute_fault(values, group, a) is None,
    ensures
        0 < mask_of(values) < 0x400_0000,
{
    lemma_first_non_letter_range(values);
    lemma_mask_of(values);
    lemma_nonempty_mask(values);
}

proof fn lemma_group_row_well_formed(category: u8, g: SeedGroup)
    requires
        65 <= category <= 90,
        spec_group_row(category, g) is Ok,
    ensures
        row_well_formed(spec_group_row(category, g)->Ok_0),
{
    let a = g.attributes@;
    let code = spec_single_letter(g.code@)->0;
    lemma_attribute_mask_nonempty(a[0]@, code, 0);
    lemma_attribute_mask_nonempty(a[1]@, code, 1);
    lemma_attribute_mask_nonempty(a[2]@, code, 2);
    lemma_attribute_mask_nonempty(a[3]@, code, 3);
    let row = spec_group_row(category, g)->Ok_0;
    assert forall|k: int| 2 <= k < 6 implies 0 < #[trigger] row[k] < 0x400_0000 by {
        assert(k == 2 || k == 3 || k == 4 || k == 5);
    }
}

proof fn lemma_group_rows_well_formed(category: u8, gs: Seq<SeedGroup>)
    requires
        65 <= category <= 90,
        spec_group_rows(category, gs) is Ok,
    ensures
        rows_well_formed(spec_group_rows(category, gs)->Ok_0),
    decreases gs.len(),
{
    if gs.len() > 0 {
        lemma_group_rows_well_formed(category, gs.drop_last());
        let rows = spec_group_rows(category, gs.drop_last())->Ok_0;
        let row = spec_group_row(category, gs.last())->Ok_0;
        lemma_group_row_well_formed(category, gs.last());
        lemma_first_failure_range(rows.len() as int, |i: int| rows[i]@[1] <= row[1]);
        lemma_insert_well_formed(rows, insertion_point(rows, row[1], 1), seq![row]);
    }
}

/// Every block has a letter for its code and well-formed rows.
pub open spec fn blocks_well_formed(blocks: Seq<Block>) -> bool {
    forall|i: int|
        0 <= i < blocks.len() ==> 65 <= #[trigger] blocks[i].0 <= 90 && rows_well_formed(
            blocks[i].1,
        )
}

/// The blocks built from a seed all have letter codes and rows with letter codes and non-empty
/// attribute masks.
pub proof fn lemma_seed_categories_well_formed(cs: Seq<SeedCategory>)
    requires
        spec_seed_categories(cs) is Ok,
    ensures
        blocks_well_formed(spec_seed_categories(cs)->Ok_0),
    decreases cs.len(),
{
    if cs.len() > 0 {
        lemma_seed_categories_well_formed(cs.drop_last());
        let blocks = spec_seed_categories(cs.drop_last())->Ok_0;
        let c = cs.last();
        let code = spec_single_letter(c.code@)->0;
        lemma_group_rows_well_formed(code, c.groups@);
        let block = spec_category_rows(c)->Ok_0;
        let p = block_insertion_point(blocks, code);
        lemma_first_failure_range(blocks.len() as int, |i: int| blocks[i].0 <= code);
        let r = blocks.insert(p, block);
        assert forall|i: int| 0 <= i < r.len() implies 65 <= #[trigger] r[i].0 <= 90
            && rows_well_formed(r[i].1) by {
            if i < p {
                assert(r[i] == blocks[i]);
            } else if i > p {
                assert(r[i] == blocks[i - 1]);
            }
        }
    }
}

} // verus!
