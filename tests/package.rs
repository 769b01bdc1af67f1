use rust_xlsxwriter::content_types::ContentTypes;
use rust_xlsxwriter::package::{
    package_parts, part_paths, root_relationships, sheet_path_string, validate_targets,
    workbook_relationships,
};
use rust_xlsxwriter::relationships::Relationships;
use rust_xlsxwriter::strings::SharedStringTable;
use rust_xlsxwriter::xml::decimal_string;

#[test]
fn identifiers_start_at_one_per_scope() {
    let mut sheet1 = Relationships::new();
    let mut sheet2 = Relationships::new();
    let drawing = "http://schemas.openxmlformats.org/officeDocument/2006/relationships/drawing";
    assert_eq!(sheet1.add_relationship("xl/drawings/drawing1.xml", drawing), 1);
    assert_eq!(sheet1.len(), 1);
    assert_eq!(sheet1.target(1), "xl/drawings/drawing1.xml");
    assert_eq!(sheet1.rel_type(1), drawing);
    assert_eq!(sheet2.add_relationship("xl/drawings/drawing2.xml", drawing), 1);
}

#[test]
fn identical_relationships_are_not_merged() {
    let mut rels = Relationships::new();
    let link = "http://schemas.openxmlformats.org/officeDocument/2006/relationships/hyperlink";
    assert_eq!(rels.add_relationship("https://example.com", link), 1);
    assert_eq!(rels.add_relationship("https://example.com", link), 2);
    assert_eq!(rels.len(), 2);
}

#[test]
fn content_types_collapse_by_key() {
    let mut types = ContentTypes::new();
    types.declare_content_type("png", "image/png");
    types.declare_content_type("xml", "application/xml");
    types.declare_content_type("png", "image/other");
    assert_eq!(types.len(), 2);
    assert_eq!(types.entry(0), ("png", "image/png"));
    assert_eq!(types.entry(1), ("xml", "application/xml"));
}

#[test]
fn parts_without_strings() {
    let parts = part_paths(2, false, false);
    assert_eq!(
        parts,
        vec![
            "[Content_Types].xml",
            "_rels/.rels",
            "docProps/app.xml",
            "docProps/core.xml",
            "xl/workbook.xml",
            "xl/_rels/workbook.xml.rels",
            "xl/worksheets/sheet1.xml",
            "xl/worksheets/sheet2.xml",
            "xl/theme/theme1.xml",
            "xl/styles.xml",
        ]
    );
}

#[test]
fn shared_strings_part_only_with_strings() {
    let mut table = SharedStringTable::new();
    let empty = package_parts(1, &table, false);
    assert!(!empty.iter().any(|p| p == "xl/sharedStrings.xml"));
    table.shared_string_index("Total");
    let parts = package_parts(1, &table, true);
    assert_eq!(parts[parts.len() - 2], "xl/sharedStrings.xml");
    assert_eq!(parts[parts.len() - 1], "xl/metadata.xml");
}

#[test]
fn relationship_targets_are_parts() {
    let parts = part_paths(3, true, true);
    assert_eq!(validate_targets(&parts, &root_relationships()), Ok(()));
    let wb = workbook_relationships(3, true, true);
    assert_eq!(wb.len(), 7);
    assert_eq!(wb.target(1), "xl/worksheets/sheet1.xml");
    assert_eq!(wb.target(6), "xl/sharedStrings.xml");
    assert_eq!(validate_targets(&parts, &wb), Ok(()));
}

#[test]
fn missing_target_is_reported() {
    let parts = part_paths(1, false, false);
    let wb = workbook_relationships(1, true, false);
    assert_eq!(validate_targets(&parts, &wb), Err(4));
    let mut rels = Relationships::new();
    rels.add_relationship("xl/styles.xml", "styles");
    rels.add_relationship("xl/charts/chart1.xml", "chart");
    rels.add_relationship("xl/charts/chart2.xml", "chart");
    assert_eq!(validate_targets(&parts, &rels), Err(2));
}

#[test]
fn sheet_paths_and_numbers() {
    assert_eq!(sheet_path_string(10), "xl/worksheets/sheet10.xml");
    assert_eq!(decimal_string(0), "0");
    assert_eq!(decimal_string(4294967295), "4294967295");
    assert_eq!(decimal_string(1200), "1200");
}

use rust_xlsxwriter::package::validate_reachable;

fn strings(v: &[&str]) -> Vec<String> {
    v.iter().map(|s| s.to_string()).collect()
}

#[test]
fn parts_reached_through_chains() {
    let root = root_relationships();
    let wb = workbook_relationships(1, false, false);
    let mut sheet = Relationships::new();
    sheet.add_relationship("xl/drawings/drawing1.xml", "drawing");
    let mut drawing = Relationships::new();
    drawing.add_relationship("xl/charts/chart1.xml", "chart");
    let scopes = vec![
        ("xl/workbook.xml".to_string(), wb),
        ("xl/worksheets/sheet1.xml".to_string(), sheet),
        ("xl/drawings/drawing1.xml".to_string(), drawing),
    ];
    let parts = strings(&[
        "docProps/app.xml",
        "docProps/core.xml",
        "xl/workbook.xml",
        "xl/worksheets/sheet1.xml",
        "xl/theme/theme1.xml",
        "xl/styles.xml",
        "xl/drawings/drawing1.xml",
        "xl/charts/chart1.xml",
    ]);
    assert_eq!(validate_reachable(&parts, &root, &scopes), Ok(()));
}

#[test]
fn orphan_part_is_reported() {
    let root = root_relationships();
    let mut drawing = Relationships::new();
    drawing.add_relationship("xl/charts/chart1.xml", "chart");
    let scopes = vec![
        ("xl/workbook.xml".to_string(), workbook_relationships(1, false, false)),
        ("xl/drawings/drawing1.xml".to_string(), drawing),
    ];
    let parts = strings(&["xl/workbook.xml", "xl/styles.xml", "xl/charts/chart1.xml"]);
    assert_eq!(validate_reachable(&parts, &root, &scopes), Err(2));
}
