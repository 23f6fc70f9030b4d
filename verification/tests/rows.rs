use bdat_toolset::error::Error;
use bdat_toolset::row::normalize;

fn fields(texts: &[&str]) -> Vec<String> {
    texts.iter().map(|text| text.to_string()).collect()
}

#[test]
fn row_with_a_field_for_each_column_is_kept() {
    let raw = fields(&["1", "1", "Alice"]);
    let row = normalize(&raw, 3, 0).unwrap();
    assert_eq!(row.fields, &raw[..]);
}

#[test]
fn row_with_too_few_fields_is_incomplete() {
    let raw = fields(&["1", "1"]);
    assert_eq!(normalize(&raw, 3, 0), Err(Error::DeserIncompleteRow(0)));
    assert_eq!(normalize(&raw, 3, 7), Err(Error::DeserIncompleteRow(7)));
    assert_eq!(normalize(&[], 1, 2), Err(Error::DeserIncompleteRow(2)));
}

#[test]
fn fields_beyond_the_columns_are_dropped() {
    let raw = fields(&["1", "1", "Alice", "extra", "more"]);
    let row = normalize(&raw, 3, 4).unwrap();
    assert_eq!(row.fields, &raw[..3]);
    assert_eq!(normalize(&raw, 0, 0).unwrap().fields.len(), 0);
}

#[test]
fn fields_are_not_read() {
    let raw = fields(&["not a number", ""]);
    let row = normalize(&raw, 2, 0).unwrap();
    assert_eq!(row.fields, &raw[..]);
}

#[test]
fn table_without_columns_takes_any_row() {
    assert_eq!(normalize(&[], 0, 0).unwrap().fields.len(), 0);
}
