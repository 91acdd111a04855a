//! The ISO 10962 (CFI) classification code structure: which category, group and attribute code
//! letters exist, and which combinations are valid. Only the codes are held, no descriptive text.
//!
//! Each row of [`TAXONOMY`] is one group: `[category, group, a1, a2, a3, a4]`, where the category
//! and group are ASCII letter codes and `a1..a4` are letter bitmasks for the four attribute
//! positions (bit `n`, counting from the least significant, permits the letter `'A' + n`). The
//! comment above each row spells the masks out. Rows are sorted by category, then group.

use crate::text::{first_failure, is_upper};
use vstd::prelude::*;

verus! {

/// The number of groups in the taxonomy.
pub const GROUP_COUNT: usize = 78;

/// The groups of the taxonomy, sorted by `(category, group)`.
pub const TAXONOMY: [[u32; 6]; 78] = [
    // CB: a1=CMO a2=GIJ a3=X a4=QSUY
    [67, 66, 0x00005004, 0x00000340, 0x00800000, 0x01150000],
    // CE: a1=CMO a2=GIJ a3=CDMRS a4=SU
    [67, 69, 0x00005004, 0x00000340, 0x0006100C, 0x00140000],
    // CF: a1=CMO a2=GIJ a3=BEFHIMP a4=QSUY
    [67, 70, 0x00005004, 0x00000340, 0x000091B2, 0x01150000],
    // CH: a1=ADELMNRS a2=X a3=X a4=X
    [67, 72, 0x00063819, 0x00800000, 0x00800000, 0x00800000],
    // CI: a1=CMO a2=GIJ a3=CDMRS a4=QSUY
    [67, 73, 0x00005004, 0x00000340, 0x0006100C, 0x01150000],
    // CM: a1=X a2=X a3=X a4=QSUY
    [67, 77, 0x00800000, 0x00800000, 0x00800000, 0x01150000],
    // CP: a1=CMO a2=GIJ a3=CDMRS a4=QSUY
    [67, 80, 0x00005004, 0x00000340, 0x0006100C, 0x01150000],
    // CS: a1=CMO a2=BGLM a3=BMR a4=SU
    [67, 83, 0x00005004, 0x00001842, 0x00021002, 0x00140000],
    // DA: a1=FVZ a2=CGJNOPQSTU a3=ABCDEFGLPQRT a4=BMNR
    [68, 65, 0x02200020, 0x001DE244, 0x000B887F, 0x00023002],
    // DB: a1=CFKVZ a2=CGJNOPQSTU a3=ABCDEFGLPQRT a4=BMNR
    [68, 66, 0x02200424, 0x001DE244, 0x000B887F, 0x00023002],
    // DC: a1=CFKVZ a2=CGJNOPQSTU a3=ABCDEFGLPQRT a4=BMNR
    [68, 67, 0x02200424, 0x001DE244, 0x000B887F, 0x00023002],
    // DD: a1=ABCGMNTWY a2=CFVZ a3=CGJNOPQSTU a4=ABCDEFGLPQRT
    [68, 68, 0x01483047, 0x02200024, 0x001DE244, 0x000B887F],
    // DE: a1=ABCDEM a2=DFMVY a3=CMRST a4=BCDIMNST
    [68, 69, 0x0000101F, 0x01201028, 0x000E1004, 0x000C310E],
    // DG: a1=FVZ a2=CGJNOPQSTU a3=ABCDEFGLPQRT a4=BMNR
    [68, 71, 0x02200020, 0x001DE244, 0x000B887F, 0x00023002],
    // DM: a1=BMP a2=X a3=X a4=BMNR
    [68, 77, 0x00009002, 0x00800000, 0x00800000, 0x00023002],
    // DN: a1=FVZ a2=CGJNOPQSTU a3=ABCDEFGLPQRT a4=BMNR
    [68, 78, 0x02200020, 0x001DE244, 0x000B887F, 0x00023002],
    // DS: a1=ABCDM a2=DFMVY a3=FMV a4=BCDIMNST
    [68, 83, 0x0000100F, 0x01201028, 0x00201020, 0x000C310E],
    // DT: a1=CFKVZ a2=CGJNOPQSTU a3=ABCDEFGLPQRT a4=BMNR
    [68, 84, 0x02200424, 0x001DE244, 0x000B887F, 0x00023002],
    // DW: a1=CFKVZ a2=CGJNOPQSTU a3=ABCDEFGLPQRT a4=BMNR
    [68, 87, 0x02200424, 0x001DE244, 0x000B887F, 0x00023002],
    // DY: a1=FKVZ a2=CGJNOPQSTU a3=X a4=BMNR
    [68, 89, 0x02200420, 0x001DE244, 0x00800000, 0x00023002],
    // EC: a1=ENRV a2=TU a3=FOP a4=BMNR
    [69, 67, 0x00222010, 0x00180000, 0x0000C020, 0x00023002],
    // ED: a1=CFLMPS a2=BDNRX a3=ACDFNPQU a4=BMNR
    [69, 68, 0x00049824, 0x0082200A, 0x0011A02D, 0x00023002],
    // EF: a1=ENRV a2=ACEGNRT a3=ACDFNPQU a4=BMNR
    [69, 70, 0x00222010, 0x000A2055, 0x0011A02D, 0x00023002],
    // EL: a1=ENRV a2=TU a3=FOP a4=BMNR
    [69, 76, 0x00222010, 0x00180000, 0x0000C020, 0x00023002],
    // EM: a1=X a2=X a3=X a4=BMNR
    [69, 77, 0x00800000, 0x00800000, 0x00800000, 0x00023002],
    // EP: a1=ENRV a2=ACEGNRT a3=ACDFNPQU a4=BMNR
    [69, 80, 0x00222010, 0x000A2055, 0x0011A02D, 0x00023002],
    // ES: a1=ENRV a2=TU a3=FOP a4=BMNR
    [69, 83, 0x00222010, 0x00180000, 0x0000C020, 0x00023002],
    // EY: a1=ABCDEM a2=DMY a3=EFMV a4=BCDGIMNST
    [69, 89, 0x0000101F, 0x01001008, 0x00201030, 0x000C314E],
    // FC: a1=AEHIMNPS a2=CNP a3=NS a4=X
    [70, 67, 0x0004B191, 0x0000A004, 0x00042000, 0x00800000],
    // FF: a1=BCDFIMNOSVW a2=CNP a3=NS a4=X
    [70, 70, 0x0064712E, 0x0000A004, 0x00042000, 0x00800000],
    // HC: a1=IMUVW a2=ABCDEFGHI a3=ABDGLMPV a4=CEP
    [72, 67, 0x00701100, 0x000001FF, 0x0020984B, 0x00008014],
    // HE: a1=BFIMORS a2=ABCDEFGHI a3=ABDGLMPV a4=CEP
    [72, 69, 0x00065122, 0x000001FF, 0x0020984B, 0x00008014],
    // HF: a1=FMRTV a2=ABCDEFGHI a3=ABDGLMPV a4=CEP
    [72, 70, 0x002A1020, 0x000001FF, 0x0020984B, 0x00008014],
    // HM: a1=MP a2=ABCDEFGHI a3=ABDGLMPV a4=CEP
    [72, 77, 0x00009000, 0x000001FF, 0x0020984B, 0x00008014],
    // HR: a1=ACDFGHMORZ a2=ABCDEFGHI a3=ABDGLMPV a4=CEP
    [72, 82, 0x020250ED, 0x000001FF, 0x0020984B, 0x00008014],
    // HT: a1=AGIJKMNPQST a2=ABCDEFGHI a3=ABDGLMPV a4=CEP
    [72, 84, 0x000DB741, 0x000001FF, 0x0020984B, 0x00008014],
    // IF: a1=X a2=X a3=X a4=P
    [73, 70, 0x00800000, 0x00800000, 0x00800000, 0x00008000],
    // IT: a1=AJKMNPST a2=X a3=X a4=X
    [73, 84, 0x000CB601, 0x00800000, 0x00800000, 0x00800000],
    // JC: a1=ABCDI a2=X a3=CFS a4=CP
    [74, 67, 0x0000010F, 0x00800000, 0x00040024, 0x00008004],
    // JE: a1=BFIOS a2=X a3=CFS a4=CP
    [74, 69, 0x00044122, 0x00800000, 0x00040024, 0x00008004],
    // JF: a1=FMRTV a2=X a3=CFS a4=CNP
    [74, 70, 0x002A1020, 0x00800000, 0x00040024, 0x0000A004],
    // JR: a1=IMO a2=X a3=CFS a4=CP
    [74, 82, 0x00005100, 0x00800000, 0x00040024, 0x00008004],
    // JT: a1=AGIJKMNPQST a2=X a3=CFS a4=CEP
    [74, 84, 0x000DB741, 0x00800000, 0x00040024, 0x00008014],
    // KC: a1=X a2=X a3=X a4=X
    [75, 67, 0x00800000, 0x00800000, 0x00800000, 0x00800000],
    // KE: a1=X a2=X a3=X a4=X
    [75, 69, 0x00800000, 0x00800000, 0x00800000, 0x00800000],
    // KF: a1=X a2=X a3=X a4=X
    [75, 70, 0x00800000, 0x00800000, 0x00800000, 0x00800000],
    // KM: a1=X a2=X a3=X a4=X
    [75, 77, 0x00800000, 0x00800000, 0x00800000, 0x00800000],
    // KR: a1=X a2=X a3=X a4=X
    [75, 82, 0x00800000, 0x00800000, 0x00800000, 0x00800000],
    // KT: a1=X a2=X a3=X a4=X
    [75, 84, 0x00800000, 0x00800000, 0x00800000, 0x00800000],
    // KY: a1=X a2=X a3=X a4=X
    [75, 89, 0x00800000, 0x00800000, 0x00800000, 0x00800000],
    // LL: a1=ABJKMNPST a2=X a3=X a4=CP
    [76, 76, 0x000CB603, 0x00800000, 0x00800000, 0x00008004],
    // LR: a1=CGS a2=FNOT a3=X a4=DHT
    [76, 82, 0x00040044, 0x00086020, 0x00800000, 0x00080088],
    // LS: a1=CDEGKLMPTW a2=NOT a3=X a4=DFHT
    [76, 83, 0x00489C5C, 0x00086000, 0x00800000, 0x000800A8],
    // MC: a1=ABHMSUW a2=TU a3=X a4=BMNR
    [77, 67, 0x00541083, 0x00180000, 0x00800000, 0x00023002],
    // MM: a1=EIMNPRST a2=X a3=X a4=X
    [77, 77, 0x000EB110, 0x00800000, 0x00800000, 0x00800000],
    // OC: a1=ABE a2=BCDFIMNOSTW a3=CENP a4=NS
    [79, 67, 0x00000013, 0x004C712E, 0x0000A014, 0x00042000],
    // OM: a1=X a2=X a3=X a4=X
    [79, 77, 0x00800000, 0x00800000, 0x00800000, 0x00800000],
    // OP: a1=ABE a2=BCDFIMNOSTW a3=CENP a4=NS
    [79, 80, 0x00000013, 0x004C712E, 0x0000A014, 0x00042000],
    // RA: a1=X a2=X a3=X a4=BMNR
    [82, 65, 0x00800000, 0x00800000, 0x00800000, 0x00023002],
    // RD: a1=AMPSW a2=X a3=X a4=BMNR
    [82, 68, 0x00449001, 0x00800000, 0x00800000, 0x00023002],
    // RF: a1=BCDIMNST a2=MNT a3=CMP a4=ABEM
    [82, 70, 0x000C310E, 0x00083000, 0x00009004, 0x00001013],
    // RM: a1=X a2=X a3=X a4=X
    [82, 77, 0x00800000, 0x00800000, 0x00800000, 0x00800000],
    // RP: a1=BCFIMPS a2=X a3=X a4=BMNR
    [82, 80, 0x00049126, 0x00800000, 0x00800000, 0x00023002],
    // RS: a1=BCFIMPS a2=X a3=X a4=BMNR
    [82, 83, 0x00049126, 0x00800000, 0x00800000, 0x00023002],
    // RW: a1=BCDIMST a2=CNT a3=BCP a4=ABE
    [82, 87, 0x000C110E, 0x00082004, 0x00008006, 0x00000013],
    // SC: a1=BIMUV a2=CMT a3=CLS a4=ACP
    [83, 67, 0x00301102, 0x00081004, 0x00040804, 0x00008005],
    // SE: a1=BIMS a2=CDLMPTV a3=X a4=CEP
    [83, 69, 0x00041102, 0x0028980C, 0x00800000, 0x00008014],
    // SF: a1=ACM a2=X a3=X a4=NP
    [83, 70, 0x00001005, 0x00800000, 0x00800000, 0x0000A000],
    // SM: a1=MP a2=X a3=X a4=CEP
    [83, 77, 0x00009000, 0x00800000, 0x00800000, 0x00008014],
    // SR: a1=ACDGHMZ a2=CDIY a3=CS a4=CP
    [83, 82, 0x020010CD, 0x0100010C, 0x00040004, 0x00008004],
    // ST: a1=AGIJKMNPQST a2=CT a3=X a4=CEP
    [83, 84, 0x000DB741, 0x00080004, 0x00800000, 0x00008014],
    // TB: a1=CDEFIMT a2=X a3=X a4=X
    [84, 66, 0x0008113C, 0x00800000, 0x00800000, 0x00800000],
    // TC: a1=CLMN a2=X a3=X a4=X
    [84, 67, 0x00003804, 0x00800000, 0x00800000, 0x00800000],
    // TD: a1=CFKLMPS a2=X a3=X a4=X
    [84, 68, 0x00049C24, 0x00800000, 0x00800000, 0x00800000],
    // TI: a1=CDEFMRT a2=CEFMP a3=GMNP a4=X
    [84, 73, 0x000A103C, 0x00009034, 0x0000B040, 0x00800000],
    // TM: a1=X a2=X a3=X a4=X
    [84, 77, 0x00800000, 0x00800000, 0x00800000, 0x00800000],
    // TR: a1=FMNRV a2=ADMNQSW a3=X a4=X
    [84, 82, 0x00223020, 0x00453009, 0x00800000, 0x00800000],
    // TT: a1=AEHIMNPS a2=X a3=X a4=X
    [84, 84, 0x0004B191, 0x00800000, 0x00800000, 0x00800000],
];

/// The first row of table `t` whose category is `code` (`t.len()` if there is none).
pub open spec fn category_row_in(t: Seq<[u32; 6]>, code: u8) -> int {
    first_failure(t.len() as int, |i: int| t[i][0] != code as u32)
}

/// The first row of table `t` holding group `code` of category `category` (`t.len()` if none).
pub open spec fn group_row_in(t: Seq<[u32; 6]>, category: u8, code: u8) -> int {
    first_failure(t.len() as int, |i: int| !(t[i][0] == category as u32 && t[i][1] == code as u32))
}

/// The table row of the first group of category `code` (`GROUP_COUNT` if the category is
/// unknown).
pub open spec fn category_row(code: u8) -> int {
    category_row_in(TAXONOMY@, code)
}

/// The table row of group `code` of category `category` (`GROUP_COUNT` if there is none).
pub open spec fn group_row(category: u8, code: u8) -> int {
    group_row_in(TAXONOMY@, category, code)
}

proof fn lemma_category_row_in(t: Seq<[u32; 6]>, code: u8, k: int)
    requires
        0 <= k <= t.len(),
        forall|j: int| 0 <= j < k ==> #[trigger] t[j][0] != code,
        k < t.len() ==> t[k][0] == code,
    ensures
        category_row_in(t, code) == k,
{
    crate::text::lemma_first_failure(t.len() as int, |i: int| t[i][0] != code as u32, k);
}

proof fn lemma_group_row_in(t: Seq<[u32; 6]>, category: u8, code: u8, k: int)
    requires
        0 <= k <= t.len(),
        forall|j: int| 0 <= j < k ==> !(#[trigger] t[j][0] == category && t[j][1] == code),
        k < t.len() ==> t[k][0] == category && t[k][1] == code,
    ensures
        group_row_in(t, category, code) == k,
{
    crate::text::lemma_first_failure(
        t.len() as int,
        |i: int| !(t[i][0] == category as u32 && t[i][1] == code as u32),
        k,
    );
}

/// `category_row` is the first row whose category is `code`.
pub proof fn lemma_category_row(code: u8, k: int)
    requires
        0 <= k <= 78,
        forall|j: int| 0 <= j < k ==> #[trigger] TAXONOMY@[j][0] != code,
        k < 78 ==> TAXONOMY@[k][0] == code,
    ensures
        category_row(code) == k,
{
    lemma_category_row_in(TAXONOMY@, code, k);
}

/// `group_row` is the first row holding group `code` of category `category`.
pub proof fn lemma_group_row(category: u8, code: u8, k: int)
    requires
        0 <= k <= 78,
        forall|j: int|
            0 <= j < k ==> !(#[trigger] TAXONOMY@[j][0] == category && TAXONOMY@[j][1] == code),
        k < 78 ==> TAXONOMY@[k][0] == category && TAXONOMY@[k][1] == code,
    ensures
        group_row(category, code) == k,
{
    lemma_group_row_in(TAXONOMY@, category, code, k);
}

/// The attribute bitmask `mask` permits the letter `code`.
pub open spec fn spec_attr_allows(mask: u32, code: u8) -> bool {
    (mask >> ((code - 65) as u32)) & 1 == 1
}

/// A row's codes are uppercase letters and its four masks are non-empty sets of letters.
pub open spec fn row_well_formed(row: [u32; 6]) -> bool {
    &&& 65 <= row[0] <= 90
    &&& 65 <= row[1] <= 90
    &&& forall|a: int| 2 <= a < 6 ==> 0 < #[trigger] row[a] < 0x400_0000
}

/// Every row is well formed, and the rows are strictly ascending by `(category, group)`, so a
/// group appears once.
pub open spec fn taxonomy_well_formed(t: Seq<[u32; 6]>) -> bool {
    &&& forall|i: int| 0 <= i < t.len() ==> row_well_formed(#[trigger] t[i])
    &&& forall|i: int|
        0 < i < t.len() ==> t[i - 1][0] < #[trigger] t[i][0] || (t[i - 1][0] == t[i][0]
            && t[i - 1][1] < t[i][1])
}

/// The embedded taxonomy is well formed.
pub proof fn lemma_taxonomy_well_formed()
    ensures
        taxonomy_well_formed(TAXONOMY@),
{
    assert(taxonomy_well_formed(TAXONOMY@));
}

/// A row's `(category, group)` pair as one number, ordered as the pairs are.
pub open spec fn row_key(r: [u32; 6]) -> int {
    r[0] * 256 + r[1]
}

proof fn lemma_keys_increasing(t: Seq<[u32; 6]>, i: int, j: int)
    requires
        taxonomy_well_formed(t),
        0 <= i < j < t.len(),
    ensures
        row_key(t[i]) < row_key(t[j]),
    decreases j - i,
{
    assert(row_well_formed(t[j - 1]));
    assert(row_well_formed(t[j]));
    if i < j - 1 {
        lemma_keys_increasing(t, i, j - 1);
    }
}

proof fn lemma_row_found_in(t: Seq<[u32; 6]>, row: int)
    requires
        taxonomy_well_formed(t),
        0 <= row < t.len(),
    ensures
        category_row_in(t, t[row][0] as u8) < t.len(),
        group_row_in(t, t[row][0] as u8, t[row][1] as u8) == row,
{
    assert(row_well_formed(t[row]));
    let c = t[row][0] as u8;
    let g = t[row][1] as u8;
    crate::text::lemma_first_failure_range(t.len() as int, |i: int| t[i][0] != c as u32);
    if category_row_in(t, c) > row {
        crate::text::lemma_first_failure_bound(t.len() as int, |i: int| t[i][0] != c as u32, row);
    }
    assert forall|j: int| 0 <= j < row implies !(#[trigger] t[j][0] == c && t[j][1] == g) by {
        lemma_keys_increasing(t, j, row);
        assert(row_well_formed(t[j]));
    }
    lemma_group_row_in(t, c, g, row);
}

/// Every row is found again by looking up its own category and group codes.
pub proof fn lemma_row_found(row: int)
    requires
        0 <= row < 78,
    ensures
        65 <= TAXONOMY@[row][0] <= 90,
        65 <= TAXONOMY@[row][1] <= 90,
        category_row(TAXONOMY@[row][0] as u8) < 78,
        group_row(TAXONOMY@[row][0] as u8, TAXONOMY@[row][1] as u8) == row,
        forall|a: int| 2 <= a < 6 ==> 0 < #[trigger] TAXONOMY@[row][a] < 0x400_0000,
{
    lemma_taxonomy_well_formed();
    assert(row_well_formed(TAXONOMY@[row]));
    lemma_row_found_in(TAXONOMY@, row);
}

/// The rows are strictly ascending by `(category, group)`, so by category they never decrease.
pub proof fn lemma_taxonomy_sorted(i: int, j: int)
    requires
        0 <= i < j < 78,
    ensures
        row_key(TAXONOMY@[i]) < row_key(TAXONOMY@[j]),
        TAXONOMY@[i][0] <= TAXONOMY@[j][0],
        TAXONOMY@[i][0] == TAXONOMY@[j][0] ==> TAXONOMY@[i][1] < TAXONOMY@[j][1],
{
    lemma_taxonomy_well_formed();
    lemma_sorted_in(TAXONOMY@, i, j);
}

proof fn lemma_sorted_in(t: Seq<[u32; 6]>, i: int, j: int)
    requires
        taxonomy_well_formed(t),
        0 <= i < j < t.len(),
    ensures
        row_key(t[i]) < row_key(t[j]),
        t[i][0] <= t[j][0],
        t[i][0] == t[j][0] ==> t[i][1] < t[j][1],
{
    lemma_keys_increasing(t, i, j);
    assert(row_well_formed(t[i]));
    assert(row_well_formed(t[j]));
}

} // verus!
