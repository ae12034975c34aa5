use loadfire::data::{data_format_of, row_from_record, rows_from_grid, rows_from_records, DataFormat};

#[test]
fn csv_extension_is_csv() {
    assert_eq!(data_format_of("data.csv"), DataFormat::Csv);
    assert_eq!(data_format_of("dir/sub/data.csv"), DataFormat::Csv);
}

#[test]
fn extension_case_is_ignored() {
    assert_eq!(data_format_of("DATA.CSV"), DataFormat::Csv);
    assert_eq!(data_format_of("Book1.XLSX"), DataFormat::Excel);
    assert_eq!(data_format_of("Book1.Xls"), DataFormat::Excel);
}

#[test]
fn spreadsheet_extensions_are_excel() {
    assert_eq!(data_format_of("rows.xls"), DataFormat::Excel);
    assert_eq!(data_format_of("rows.xlsx"), DataFormat::Excel);
}

#[test]
fn other_extensions_are_unsupported() {
    assert_eq!(data_format_of("rows.txt"), DataFormat::Unsupported);
    assert_eq!(data_format_of("rows.json"), DataFormat::Unsupported);
    assert_eq!(data_format_of("rows"), DataFormat::Unsupported);
    assert_eq!(data_format_of(""), DataFormat::Unsupported);
}

#[test]
fn hidden_file_has_no_extension() {
    assert_eq!(data_format_of(".csv"), DataFormat::Unsupported);
    assert_eq!(data_format_of("dir/.csv"), DataFormat::Unsupported);
    assert_eq!(data_format_of("dir.csv/file"), DataFormat::Unsupported);
}

#[test]
fn trailing_separators_are_ignored() {
    assert_eq!(data_format_of("data.csv/"), DataFormat::Csv);
    assert_eq!(data_format_of("dir/rows.xlsx//"), DataFormat::Excel);
    assert_eq!(data_format_of("/"), DataFormat::Unsupported);
}

fn strings(v: &[&str]) -> Vec<String> {
    v.iter().map(|s| s.to_string()).collect()
}

#[test]
fn records_are_paired_with_headers() {
    let headers = strings(&["name", "id"]);
    let records = vec![strings(&["Ann", "7"]), strings(&["Bob", "8"])];
    let rows = rows_from_records(&headers, &records);
    assert_eq!(rows.len(), 2);
    assert_eq!(rows[0].pairs, vec![("name".to_string(), "Ann".to_string()), ("id".to_string(), "7".to_string())]);
    assert_eq!(rows[1].pairs, vec![("name".to_string(), "Bob".to_string()), ("id".to_string(), "8".to_string())]);
}

#[test]
fn extra_cells_are_ignored_and_missing_cells_stay_unset() {
    let headers = strings(&["a", "b"]);
    let long = row_from_record(&headers, &strings(&["1", "2", "3"]));
    assert_eq!(long.pairs.len(), 2);
    let short = row_from_record(&headers, &strings(&["1"]));
    assert_eq!(short.pairs, vec![("a".to_string(), "1".to_string())]);
}

#[test]
fn grid_uses_first_row_as_headers() {
    let grid = vec![
        strings(&["city", "code"]),
        strings(&["Oslo", "NO"]),
        strings(&["Turin", "IT"]),
    ];
    let rows = rows_from_grid(&grid);
    assert_eq!(rows.len(), 2);
    assert_eq!(rows[0].pairs, vec![("city".to_string(), "Oslo".to_string()), ("code".to_string(), "NO".to_string())]);
    assert_eq!(rows[1].pairs, vec![("city".to_string(), "Turin".to_string()), ("code".to_string(), "IT".to_string())]);
}

#[test]
fn empty_grid_has_no_rows() {
    let rows = rows_from_grid(&Vec::new());
    assert_eq!(rows.len(), 0);
    let only_headers = rows_from_grid(&vec![strings(&["a"])]);
    assert_eq!(only_headers.len(), 0);
}
