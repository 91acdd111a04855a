use ftracker_identifiers::cfi::seed::{
    attribute_mask, group_row, render_table, seed_categories, single_letter, SeedCategory, SeedError,
    SeedField, SeedGroup,
};
use ftracker_identifiers::cfi::table::TAXONOMY;

fn codes(letters: &str) -> Vec<String> {
    letters.chars().map(|c| c.to_string()).collect()
}

fn group(code: &str, a1: &str, a2: &str, a3: &str, a4: &str) -> SeedGroup {
    SeedGroup { code: code.to_string(), attributes: [codes(a1), codes(a2), codes(a3), codes(a4)] }
}

fn letters_of(mask: u32) -> String {
    (0..26u32).filter(|k| (mask >> k) & 1 == 1).map(|k| (b'A' + k as u8) as char).collect()
}

/// The seed that describes the embedded table, with categories and groups in reverse order.
fn seed_of_table() -> Vec<SeedCategory> {
    let mut categories: Vec<SeedCategory> = Vec::new();
    for row in TAXONOMY.iter().rev() {
        let cat = (row[0] as u8 as char).to_string();
        let g = group(
            &(row[1] as u8 as char).to_string(),
            &letters_of(row[2]),
            &letters_of(row[3]),
            &letters_of(row[4]),
            &letters_of(row[5]),
        );
        match categories.iter_mut().find(|c| c.code == cat) {
            Some(c) => c.groups.push(g),
            None => categories.push(SeedCategory { code: cat, groups: vec![g] }),
        }
    }
    categories
}

#[test]
fn single_letter_accepts_exactly_one_uppercase_letter() {
    assert_eq!(single_letter("E"), Some(b'E'));
    assert_eq!(single_letter("e"), None);
    assert_eq!(single_letter("EE"), None);
    assert_eq!(single_letter(""), None);
    assert_eq!(single_letter("1"), None);
    assert_eq!(single_letter("É"), None);
}

#[test]
fn attribute_mask_sets_one_bit_per_letter() {
    assert_eq!(attribute_mask(&codes("AC")), Ok(0b101));
    assert_eq!(attribute_mask(&codes("CA")), Ok(0b101));
    assert_eq!(attribute_mask(&codes("ZZ")), Ok(1 << 25));
    assert_eq!(attribute_mask(&codes("")), Ok(0));
    let bad = vec!["A".to_string(), "b".to_string(), "C".to_string()];
    assert_eq!(attribute_mask(&bad), Err(1));
}

#[test]
fn group_row_reads_codes_and_masks() {
    let row = group_row(b'E', &group("S", "VNRE", "TU", "OPF", "BRNM")).ok().unwrap();
    assert_eq!(row, TAXONOMY[26]);
    assert!(matches!(
        group_row(b'E', &group("s", "V", "T", "O", "B")),
        Err(SeedError::NotALetter { field: SeedField::GroupCode, ref found }) if found == "s"
    ));
    assert!(matches!(
        group_row(b'E', &group("S", "V", "", "O", "B")),
        Err(SeedError::EmptyAttribute { group: 'S', attribute: 2 })
    ));
    let mut bad = group("S", "V", "T", "O", "B");
    bad.attributes[2].push("OP".to_string());
    assert!(matches!(
        group_row(b'E', &bad),
        Err(SeedError::NotALetter { field: SeedField::AttributeValueCode, ref found }) if found == "OP"
    ));
}

fn flatten(blocks: &[(u8, Vec<[u32; 6]>)]) -> Vec<[u32; 6]> {
    blocks.iter().flat_map(|(_, rows)| rows.iter().copied()).collect()
}

#[test]
fn seed_rows_rebuild_the_embedded_table_in_order() {
    let blocks = seed_categories(&seed_of_table()).ok().unwrap();
    assert_eq!(flatten(&blocks), TAXONOMY.to_vec());
    let codes: Vec<u8> = blocks.iter().map(|(c, _)| *c).collect();
    assert_eq!(codes, b"CDEFHIJKLMORST".to_vec());
}

#[test]
fn seed_rows_sort_stably_by_category_then_group() {
    let seed = vec![
        SeedCategory { code: "E".to_string(), groups: vec![group("S", "A", "B", "C", "D"), group("C", "A", "B", "C", "D")] },
        SeedCategory { code: "D".to_string(), groups: vec![group("B", "A", "A", "A", "A")] },
    ];
    let rows = flatten(&seed_categories(&seed).ok().unwrap());
    let keys: Vec<(u32, u32)> = rows.iter().map(|r| (r[0], r[1])).collect();
    assert_eq!(keys, vec![(68, 66), (69, 67), (69, 83)]);
}

#[test]
fn seed_rows_report_the_first_problem() {
    let seed = vec![
        SeedCategory { code: "E".to_string(), groups: vec![group("S", "A", "", "C", "D")] },
        SeedCategory { code: "dd".to_string(), groups: vec![] },
    ];
    assert!(matches!(seed_categories(&seed), Err(SeedError::EmptyAttribute { group: 'S', attribute: 2 })));
    let seed = vec![SeedCategory { code: "dd".to_string(), groups: vec![] }];
    assert!(matches!(
        seed_categories(&seed),
        Err(SeedError::NotALetter { field: SeedField::CategoryCode, ref found }) if found == "dd"
    ));
}

#[test]
fn render_table_writes_the_entry_table() {
    let seed = vec![SeedCategory { code: "E".to_string(), groups: vec![group("S", "A", "B", "C", "D")] }];
    let blocks = seed_categories(&seed).ok().unwrap();
    let text = render_table(&blocks);
    let body = "pub(crate) static CATEGORIES: &[CategoryEntry] = &[\n    CategoryEntry {\n        code: b'E',\n        groups: &[\n            // group S: a1=A a2=B a3=C a4=D\n            GroupEntry { code: b'S', attrs: [0x00000001, 0x00000002, 0x00000004, 0x00000008] },\n        ],\n    },\n];\n";
    assert!(text.ends_with(body));
    let header = &text[..text.len() - body.len()];
    assert!(header.starts_with("// @generated by `just cfi-generate` from data/cfi.json"));
    assert!(header.contains("pub(crate) struct GroupEntry {\n    pub code: u8,\n    pub attrs: [u32; 4],\n}"));
    assert!(header.ends_with("    pub groups: &'static [GroupEntry],\n}\n\n"));
    let full = render_table(&seed_categories(&seed_of_table()).ok().unwrap());
    assert_eq!(full.matches("GroupEntry { code").count(), 78);
    assert_eq!(full.matches("    CategoryEntry {").count(), 14);
    assert!(full.contains("            // group S: a1=ENRV a2=TU a3=FOP a4=BMNR\n            GroupEntry { code: b'S', attrs: [0x00222010, 0x00180000, 0x0000C020, 0x00023002] },\n"));
}
