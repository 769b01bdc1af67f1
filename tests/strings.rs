use rust_xlsxwriter::strings::SharedStringTable;

fn cells(v: &[&str]) -> Vec<String> {
    v.iter().map(|s| s.to_string()).collect()
}

#[test]
fn equal_cells_share_one_entry() {
    let (table, indices) = SharedStringTable::from_cells(&cells(&["Total", "Total"]));
    assert_eq!(table.len(), 1);
    assert_eq!(table.get(0), "Total");
    assert_eq!(indices, vec![0, 0]);
}

#[test]
fn indices_follow_first_occurrence() {
    let (table, indices) =
        SharedStringTable::from_cells(&cells(&["b", "a", "b", "c", "a", "c", "d"]));
    assert_eq!(table.len(), 4);
    assert_eq!(
        (0..table.len()).map(|i| table.get(i)).collect::<Vec<_>>(),
        vec!["b", "a", "c", "d"]
    );
    assert_eq!(indices, vec![0, 1, 0, 2, 1, 2, 3]);
}

#[test]
fn intern_returns_existing_index() {
    let mut table = SharedStringTable::new();
    assert!(table.is_empty());
    assert_eq!(table.shared_string_index("x"), 0);
    assert_eq!(table.shared_string_index("y"), 1);
    assert_eq!(table.shared_string_index("x"), 0);
    assert_eq!(table.len(), 2);
}

#[test]
fn differently_formatted_runs_are_distinct() {
    let plain = "<r><t>Hi</t></r>";
    let bold = "<r><rPr><b/></rPr><t>Hi</t></r>";
    let (table, indices) = SharedStringTable::from_cells(&cells(&[plain, bold, plain]));
    assert_eq!(table.len(), 2);
    assert_eq!(indices, vec![0, 1, 0]);
}

#[test]
fn case_and_empty_strings_are_their_own_entries() {
    let (table, indices) = SharedStringTable::from_cells(&cells(&["", "A", "a", ""]));
    assert_eq!(table.len(), 3);
    assert_eq!(indices, vec![0, 1, 2, 0]);
}

#[test]
fn no_cells_no_strings() {
    let (table, indices) = SharedStringTable::from_cells(&Vec::new());
    assert!(table.is_empty());
    assert!(indices.is_empty());
}

fn row(v: &[Option<&str>]) -> Vec<Option<String>> {
    v.iter().map(|c| c.map(|s| s.to_string())).collect()
}

#[test]
fn worksheets_scanned_sheet_row_column() {
    let sheet1 = vec![
        row(&[Some("Total"), None, Some("Total")]),
        row(&[None, Some("b")]),
    ];
    let sheet2 = vec![row(&[]), row(&[Some("c"), Some("b"), Some("a")])];
    let table = SharedStringTable::from_worksheets(&vec![sheet1, sheet2]);
    assert_eq!(
        (0..table.len()).map(|i| table.get(i)).collect::<Vec<_>>(),
        vec!["Total", "b", "c", "a"]
    );
}

#[test]
fn worksheets_without_text_give_an_empty_table() {
    let sheet = vec![row(&[None, None]), row(&[None])];
    let table = SharedStringTable::from_worksheets(&vec![sheet, vec![]]);
    assert!(table.is_empty());
}
