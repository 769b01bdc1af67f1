use rust_xlsxwriter::metadata::Metadata;

const HEADER: &str = "<?xml version=\"1.0\" encoding=\"UTF-8\" standalone=\"yes\"?>\n";

const CELL_TYPE: &str = "<metadataType name=\"XLDAPR\" minSupportedVersion=\"120000\" copy=\"1\" pasteAll=\"1\" pasteValues=\"1\" merge=\"1\" splitFirst=\"1\" rowColShift=\"1\" clearFormats=\"1\" clearComments=\"1\" assign=\"1\" coerce=\"1\" cellMeta=\"1\"/>";

const VALUE_TYPE: &str = "<metadataType name=\"XLRICHVALUE\" minSupportedVersion=\"120000\" copy=\"1\" pasteAll=\"1\" pasteValues=\"1\" merge=\"1\" splitFirst=\"1\" rowColShift=\"1\" clearFormats=\"1\" clearComments=\"1\" assign=\"1\" coerce=\"1\"/>";

const CELL_FUTURE: &str = "<futureMetadata name=\"XLDAPR\" count=\"1\"><bk><extLst><ext uri=\"{bdbb8cdc-fa1e-496e-a857-3c3f30c029c3}\"><xda:dynamicArrayProperties fDynamic=\"1\" fCollapsed=\"0\"/></ext></extLst></bk></futureMetadata>";

fn value_block(i: u32) -> String {
    format!(
        "<bk><extLst><ext uri=\"{{3e2802c4-a4d2-4d8b-9148-e3be6c30e623}}\"><xlrd:rvb i=\"{i}\"/></ext></extLst></bk>"
    )
}

fn assembled(dynamic: bool, images: bool, n: u32) -> String {
    let mut m = Metadata::new();
    m.has_dynamic_functions = dynamic;
    m.has_embedded_images = images;
    m.num_embedded_images = n;
    m.assemble_xml_file();
    m.writer
}

#[test]
fn metadata_dynamic_functions() {
    let expected = format!(
        "{HEADER}<metadata xmlns=\"http://schemas.openxmlformats.org/spreadsheetml/2006/main\" xmlns:xda=\"http://schemas.microsoft.com/office/spreadsheetml/2017/dynamicarray\"><metadataTypes count=\"1\">{CELL_TYPE}</metadataTypes>{CELL_FUTURE}<cellMetadata count=\"1\"><bk><rc t=\"1\" v=\"0\"/></bk></cellMetadata></metadata>"
    );
    assert_eq!(assembled(true, false, 0), expected);
}

#[test]
fn metadata_embedded_images() {
    let expected = format!(
        "{HEADER}<metadata xmlns=\"http://schemas.openxmlformats.org/spreadsheetml/2006/main\" xmlns:xlrd=\"http://schemas.microsoft.com/office/spreadsheetml/2017/richdata\"><metadataTypes count=\"1\">{VALUE_TYPE}</metadataTypes><futureMetadata name=\"XLRICHVALUE\" count=\"2\">{}{}</futureMetadata><valueMetadata count=\"2\"><bk><rc t=\"1\" v=\"0\"/></bk><bk><rc t=\"1\" v=\"1\"/></bk></valueMetadata></metadata>",
        value_block(0),
        value_block(1)
    );
    assert_eq!(assembled(false, true, 2), expected);
}

#[test]
fn metadata_both_kinds() {
    let expected = format!(
        "{HEADER}<metadata xmlns=\"http://schemas.openxmlformats.org/spreadsheetml/2006/main\" xmlns:xlrd=\"http://schemas.microsoft.com/office/spreadsheetml/2017/richdata\" xmlns:xda=\"http://schemas.microsoft.com/office/spreadsheetml/2017/dynamicarray\"><metadataTypes count=\"2\">{CELL_TYPE}{VALUE_TYPE}</metadataTypes>{CELL_FUTURE}<futureMetadata name=\"XLRICHVALUE\" count=\"1\">{}</futureMetadata><cellMetadata count=\"1\"><bk><rc t=\"1\" v=\"0\"/></bk></cellMetadata><valueMetadata count=\"1\"><bk><rc t=\"2\" v=\"0\"/></bk></valueMetadata></metadata>",
        value_block(0)
    );
    assert_eq!(assembled(true, true, 1), expected);
}

#[test]
fn metadata_no_flags() {
    let expected = format!(
        "{HEADER}<metadata xmlns=\"http://schemas.openxmlformats.org/spreadsheetml/2006/main\"><metadataTypes count=\"0\"></metadataTypes></metadata>"
    );
    assert_eq!(assembled(false, false, 0), expected);
}

#[test]
fn metadata_twelve_images_index_text() {
    let text = assembled(false, true, 12);
    assert!(text.contains("<futureMetadata name=\"XLRICHVALUE\" count=\"12\">"));
    assert!(text.contains("<xlrd:rvb i=\"11\"/>"));
    assert!(text.contains("<rc t=\"1\" v=\"11\"/>"));
    assert!(!text.contains("v=\"12\""));
}

#[test]
fn metadata_assembly_is_deterministic() {
    assert_eq!(assembled(true, true, 3), assembled(true, true, 3));
}

#[test]
fn metadata_appends_to_buffer() {
    let mut m = Metadata::new();
    m.has_dynamic_functions = true;
    m.assemble_xml_file();
    let once = m.writer.clone();
    m.assemble_xml_file();
    assert_eq!(m.writer, format!("{once}{once}"));
}
