use rust_xlsxwriter::content_types::ContentTypes;
use rust_xlsxwriter::package::{root_relationships, workbook_relationships};
use rust_xlsxwriter::relationships::Relationships;
use rust_xlsxwriter::xml::write_escaped;

const HEADER: &str = "<?xml version=\"1.0\" encoding=\"UTF-8\" standalone=\"yes\"?>\n";

#[test]
fn attribute_values_are_escaped() {
    let mut w = String::from("x=");
    write_escaped(&mut w, "a&b<c>\"d\"\ne é");
    assert_eq!(w, "x=a&amp;b&lt;c&gt;&quot;d&quot;&#xA;e é");
}

#[test]
fn plain_values_are_unchanged() {
    let mut w = String::new();
    write_escaped(&mut w, "http://example.com/path?q=1");
    assert_eq!(w, "http://example.com/path?q=1");
}

#[test]
fn root_relationship_part() {
    let xml = root_relationships().assemble_xml_file("");
    let expected = format!(
        "{HEADER}<Relationships xmlns=\"http://schemas.openxmlformats.org/package/2006/relationships\"><Relationship Id=\"rId1\" Type=\"http://schemas.openxmlformats.org/officeDocument/2006/relationships/officeDocument\" Target=\"xl/workbook.xml\"/><Relationship Id=\"rId2\" Type=\"http://schemas.openxmlformats.org/package/2006/relationships/metadata/core-properties\" Target=\"docProps/core.xml\"/><Relationship Id=\"rId3\" Type=\"http://schemas.openxmlformats.org/officeDocument/2006/relationships/extended-properties\" Target=\"docProps/app.xml\"/></Relationships>"
    );
    assert_eq!(xml, expected);
}

#[test]
fn workbook_relationship_part() {
    let xml = workbook_relationships(1, true, false).assemble_xml_file("xl/");
    let expected = format!(
        "{HEADER}<Relationships xmlns=\"http://schemas.openxmlformats.org/package/2006/relationships\"><Relationship Id=\"rId1\" Type=\"http://schemas.openxmlformats.org/officeDocument/2006/relationships/worksheet\" Target=\"worksheets/sheet1.xml\"/><Relationship Id=\"rId2\" Type=\"http://schemas.openxmlformats.org/officeDocument/2006/relationships/theme\" Target=\"theme/theme1.xml\"/><Relationship Id=\"rId3\" Type=\"http://schemas.openxmlformats.org/officeDocument/2006/relationships/styles\" Target=\"styles.xml\"/><Relationship Id=\"rId4\" Type=\"http://schemas.openxmlformats.org/officeDocument/2006/relationships/sharedStrings\" Target=\"sharedStrings.xml\"/></Relationships>"
    );
    assert_eq!(xml, expected);
}

#[test]
fn worksheet_targets_go_up_a_folder() {
    let mut rels = Relationships::new();
    rels.add_relationship(
        "xl/drawings/drawing1.xml",
        "http://schemas.openxmlformats.org/officeDocument/2006/relationships/drawing",
    );
    rels.add_relationship("xl/worksheets/extra&more.xml", "t");
    rels.add_relationship("docProps/app.xml", "t");
    let xml = rels.assemble_xml_file("xl/worksheets/");
    let expected = format!(
        "{HEADER}<Relationships xmlns=\"http://schemas.openxmlformats.org/package/2006/relationships\"><Relationship Id=\"rId1\" Type=\"http://schemas.openxmlformats.org/officeDocument/2006/relationships/drawing\" Target=\"../drawings/drawing1.xml\"/><Relationship Id=\"rId2\" Type=\"t\" Target=\"extra&amp;more.xml\"/><Relationship Id=\"rId3\" Type=\"t\" Target=\"/docProps/app.xml\"/></Relationships>"
    );
    assert_eq!(xml, expected);
}

#[test]
fn empty_relationship_part() {
    let xml = Relationships::new().assemble_xml_file("xl/");
    assert_eq!(
        xml,
        format!("{HEADER}<Relationships xmlns=\"http://schemas.openxmlformats.org/package/2006/relationships\"></Relationships>")
    );
}

#[test]
fn manifest_lists_defaults_then_overrides() {
    let mut types = ContentTypes::new();
    types.declare_content_type("rels", "application/vnd.openxmlformats-package.relationships+xml");
    types.declare_content_type(
        "/xl/workbook.xml",
        "application/vnd.openxmlformats-officedocument.spreadsheetml.sheet.main+xml",
    );
    types.declare_content_type("xml", "application/xml");
    types.declare_content_type("png", "image/png");
    types.declare_content_type("png", "image/png");
    let xml = types.assemble_xml_file();
    let expected = format!(
        "{HEADER}<Types xmlns=\"http://schemas.openxmlformats.org/package/2006/content-types\"><Default Extension=\"rels\" ContentType=\"application/vnd.openxmlformats-package.relationships+xml\"/><Default Extension=\"xml\" ContentType=\"application/xml\"/><Default Extension=\"png\" ContentType=\"image/png\"/><Override PartName=\"/xl/workbook.xml\" ContentType=\"application/vnd.openxmlformats-officedocument.spreadsheetml.sheet.main+xml\"/></Types>"
    );
    assert_eq!(xml, expected);
}

use rust_xlsxwriter::package::{assemble_package, part_paths};

fn generated_parts(has_strings: bool) -> Vec<(String, String)> {
    let wb = workbook_relationships(1, has_strings, false);
    part_paths(1, has_strings, false)
        .into_iter()
        .filter(|p| p != "[Content_Types].xml" && p != "_rels/.rels")
        .map(|p| {
            let text = if p == "xl/_rels/workbook.xml.rels" {
                wb.assemble_xml_file("xl/")
            } else {
                format!("<{p}/>")
            };
            (p, text)
        })
        .collect()
}

#[test]
fn package_entries_in_fixed_order() {
    let parts = generated_parts(true);
    let mut types = ContentTypes::new();
    types.declare_content_type("xml", "application/xml");
    let root = root_relationships();
    let scopes = vec![workbook_relationships(1, true, false)];
    let entries = assemble_package(&parts, &root, &scopes, &types).unwrap();
    assert_eq!(entries.len(), parts.len() + 2);
    assert_eq!(entries[0].0, "[Content_Types].xml");
    assert_eq!(entries[0].1, types.assemble_xml_file());
    assert_eq!(entries[1].0, "_rels/.rels");
    assert_eq!(entries[1].1, root.assemble_xml_file(""));
    assert_eq!(&entries[2..], &parts[..]);
    let again = assemble_package(&parts, &root, &scopes, &types).unwrap();
    assert_eq!(entries, again);
}

#[test]
fn package_with_missing_part_is_refused() {
    let parts = generated_parts(false);
    let types = ContentTypes::new();
    let root = root_relationships();
    let scopes = vec![Relationships::new(), workbook_relationships(1, true, false)];
    assert_eq!(assemble_package(&parts, &root, &scopes, &types), Err((2, 4)));
    let mut bad_root = Relationships::new();
    bad_root.add_relationship("xl/workbook.xml", "t");
    bad_root.add_relationship("docProps/custom.xml", "t");
    assert_eq!(assemble_package(&parts, &bad_root, &vec![], &types), Err((0, 2)));
}
