use bdat_toolset::error::Error;
use bdat_toolset::label::{Label, OptLabel};
use bdat_toolset::reconcile::ColumnGroup;
use bdat_toolset::schema::{Column, Schema, SchemaStore};
use bdat_toolset::table::{
    deserialize, read_row, resolve_columns, Cell, CoercionError, DeserError, HeaderColumn, RawTable,
    Table,
};
use bdat_toolset::value::{Value, ValueType};

fn named(text: &str) -> OptLabel {
    OptLabel::from(Label::String(text.to_string()))
}

fn column(text: &str, value_type: ValueType) -> Column {
    Column { label: named(text), value_type }
}

fn stated(text: &str, value_type: Option<ValueType>) -> HeaderColumn {
    HeaderColumn { label: named(text), value_type }
}

fn raw(table: &str, header: Vec<HeaderColumn>, rows: &[&[&str]]) -> RawTable {
    RawTable {
        label: named(table),
        header,
        rows: rows
            .iter()
            .map(|row| row.iter().map(|field| field.to_string()).collect())
            .collect(),
    }
}

fn people(version: usize, second: ValueType) -> SchemaStore {
    let mut store = SchemaStore::new(3);
    store.insert(Schema {
        table: named("People"),
        version,
        columns: vec![
            column("Id", ValueType::SignedInt),
            column("Id", second),
            column("Name", ValueType::String),
        ],
    });
    store
}

fn text(value: &str) -> Value {
    Value::String(value.to_string())
}

#[test]
fn duplicate_columns_of_one_type_are_grouped() {
    let store = people(3, ValueType::SignedInt);
    let table = deserialize(&store, &raw("People", vec![], &[&["1", "1", "Alice"]]), false).unwrap();
    assert_eq!(
        table,
        Table {
            label: named("People"),
            columns: vec![
                column("Id", ValueType::SignedInt),
                column("Id", ValueType::SignedInt),
                column("Name", ValueType::String),
            ],
            groups: vec![
                ColumnGroup {
                    label: named("Id"),
                    value_type: ValueType::SignedInt,
                    members: vec![0, 1]
                },
                ColumnGroup { label: named("Name"), value_type: ValueType::String, members: vec![2] },
            ],
            rows: vec![vec![Value::SignedInt(1), Value::SignedInt(1), text("Alice")]],
        }
    );
    assert_eq!(
        table.cell(0, 0),
        Some(Cell::List(vec![Value::SignedInt(1), Value::SignedInt(1)]))
    );
    assert_eq!(table.cell(0, 1), Some(Cell::Single(text("Alice"))));
    assert_eq!(table.cell(0, 2), None);
    assert_eq!(table.cell(1, 0), None);
}

#[test]
fn duplicate_columns_of_two_types_are_refused() {
    let store = people(3, ValueType::String);
    let result = deserialize(&store, &raw("People", vec![], &[&["1", "1", "Alice"]]), false);
    assert_eq!(
        result,
        Err(DeserError::Defect(Error::DeserDuplicateMismatch(Box::new((
            named("People"),
            named("Id"),
            ValueType::SignedInt,
            ValueType::String
        )))))
    );
}

#[test]
fn table_has_the_columns_of_its_schema() {
    let store = people(3, ValueType::SignedInt);
    let rows: &[&[&str]] = &[&["1", "2", "Alice"], &["-3", "4", ""], &["5", "6", "Bob", "extra"]];
    let table = deserialize(&store, &raw("People", vec![], rows), false).unwrap();
    assert_eq!(table.label, named("People"));
    assert_eq!(table.columns, store.schemas[0].columns);
    assert_eq!(
        table.rows,
        vec![
            vec![Value::SignedInt(1), Value::SignedInt(2), text("Alice")],
            vec![Value::SignedInt(-3), Value::SignedInt(4), text("")],
            vec![Value::SignedInt(5), Value::SignedInt(6), text("Bob")],
        ]
    );
}

#[test]
fn header_is_not_read_where_a_schema_is_used() {
    let store = people(3, ValueType::SignedInt);
    let header = vec![stated("Other", None)];
    let table = deserialize(&store, &raw("People", header, &[]), false).unwrap();
    assert_eq!(table.columns, store.schemas[0].columns);
    assert!(table.rows.is_empty());
}

#[test]
fn outdated_schema_is_refused() {
    let store = people(2, ValueType::SignedInt);
    let result = deserialize(&store, &raw("People", vec![], &[&["1", "1", "Alice"]]), false);
    assert_eq!(
        result,
        Err(DeserError::Defect(Error::DeserOutdatedSchema(Box::new((
            "People".to_string(),
            2,
            3
        )))))
    );
}

#[test]
fn outdated_schema_is_refused_before_its_columns_are_checked() {
    let store = people(4, ValueType::String);
    let result = deserialize(&store, &raw("People", vec![], &[&["1"]]), false);
    assert_eq!(
        result,
        Err(DeserError::Defect(Error::DeserOutdatedSchema(Box::new((
            "People".to_string(),
            4,
            3
        )))))
    );
}

#[test]
fn missing_schema_is_refused() {
    let store = people(3, ValueType::SignedInt);
    let header = vec![stated("Id", Some(ValueType::SignedInt))];
    let result = deserialize(&store, &raw("Places", header, &[&["1"]]), false);
    assert_eq!(result, Err(DeserError::Defect(Error::DeserMissingSchema)));
}

#[test]
fn header_gives_the_columns_where_no_schema_is_used() {
    let store = people(2, ValueType::String);
    let header = vec![
        stated("Id", Some(ValueType::UnsignedByte)),
        stated("Share", Some(ValueType::Percent)),
    ];
    let table = deserialize(&store, &raw("People", header, &[&["7", "50%"]]), true).unwrap();
    assert_eq!(
        table.columns,
        vec![column("Id", ValueType::UnsignedByte), column("Share", ValueType::Percent)]
    );
    assert_eq!(table.rows, vec![vec![Value::UnsignedByte(7), Value::Percent(50)]]);
}

#[test]
fn header_without_types_is_refused_where_no_schema_is_used() {
    let store = people(3, ValueType::SignedInt);
    let header = vec![stated("Id", Some(ValueType::SignedInt)), stated("Name", None)];
    let result = deserialize(&store, &raw("People", header, &[&["1", "Alice"]]), true);
    assert_eq!(result, Err(DeserError::Defect(Error::DeserMissingTypeInfo(named("People")))));
    let table = RawTable {
        label: OptLabel::unnamed(),
        header: vec![stated("Id", None)],
        rows: Vec::new(),
    };
    assert_eq!(resolve_columns(&store, &table, true), Err(Error::DeserMissingTypeInfo(OptLabel::unnamed())));
}

#[test]
fn columns_are_resolved_by_the_mode() {
    let store = people(3, ValueType::SignedInt);
    let header = vec![stated("Only", Some(ValueType::Float))];
    let table = raw("People", header, &[]);
    assert_eq!(resolve_columns(&store, &table, true), Ok(vec![column("Only", ValueType::Float)]));
    assert_eq!(
        resolve_columns(&store, &table, false),
        Ok(vec![
            column("Id", ValueType::SignedInt),
            column("Id", ValueType::SignedInt),
            column("Name", ValueType::String),
        ])
    );
    assert_eq!(resolve_columns(&store, &raw("People", vec![], &[]), true), Ok(vec![]));
}

#[test]
fn short_row_is_incomplete() {
    let store = people(3, ValueType::SignedInt);
    let rows: &[&[&str]] = &[&["1", "1", "Alice"], &["2", "2"], &["3", "3", "Carol"]];
    let result = deserialize(&store, &raw("People", vec![], rows), false);
    assert_eq!(result, Err(DeserError::Defect(Error::DeserIncompleteRow(1))));
    let rows: &[&[&str]] = &[&[]];
    let result = deserialize(&store, &raw("People", vec![], rows), false);
    assert_eq!(result, Err(DeserError::Defect(Error::DeserIncompleteRow(0))));
}

#[test]
fn rows_after_the_first_that_fails_are_not_read() {
    let store = people(3, ValueType::SignedInt);
    let rows: &[&[&str]] = &[&["1", "1", "Alice"], &["2"], &["x", "y", "z"], &[]];
    let result = deserialize(&store, &raw("People", vec![], rows), false);
    assert_eq!(result, Err(DeserError::Defect(Error::DeserIncompleteRow(1))));
    let rows: &[&[&str]] = &[&["1", "1", "Alice"], &["2"]];
    let shorter = deserialize(&store, &raw("People", vec![], rows), false);
    assert_eq!(shorter, result);
}

#[test]
fn length_of_a_row_is_checked_before_its_fields() {
    let store = people(3, ValueType::SignedInt);
    let rows: &[&[&str]] = &[&["x", "1"]];
    let result = deserialize(&store, &raw("People", vec![], rows), false);
    assert_eq!(result, Err(DeserError::Defect(Error::DeserIncompleteRow(0))));
}

#[test]
fn malformed_field_is_a_coercion_error() {
    let store = people(3, ValueType::SignedInt);
    let rows: &[&[&str]] = &[&["1", "1", "Alice"], &["2", "two", "Bob"], &["x", "3"]];
    let result = deserialize(&store, &raw("People", vec![], rows), false);
    assert_eq!(
        result,
        Err(DeserError::Coercion(CoercionError {
            row: 1,
            column: 1,
            value_type: ValueType::SignedInt,
            text: "two".to_string()
        }))
    );
}

#[test]
fn first_malformed_field_of_a_row_is_named() {
    let columns = vec![
        column("A", ValueType::UnsignedByte),
        column("B", ValueType::UnsignedByte),
        column("C", ValueType::UnsignedByte),
    ];
    let fields: Vec<String> = ["1", "256", "-1"].iter().map(|f| f.to_string()).collect();
    assert_eq!(
        read_row(&columns, &fields, 5),
        Err(DeserError::Coercion(CoercionError {
            row: 5,
            column: 1,
            value_type: ValueType::UnsignedByte,
            text: "256".to_string()
        }))
    );
    let fields: Vec<String> = ["1", "2", "3", "x"].iter().map(|f| f.to_string()).collect();
    assert_eq!(
        read_row(&columns, &fields, 5),
        Ok(vec![Value::UnsignedByte(1), Value::UnsignedByte(2), Value::UnsignedByte(3)])
    );
    assert_eq!(
        read_row(&columns, &fields[..2], 5),
        Err(DeserError::Defect(Error::DeserIncompleteRow(5)))
    );
}

#[test]
fn columns_are_checked_before_rows_are_read() {
    let mut store = SchemaStore::new(1);
    store.insert(Schema {
        table: named("T"),
        version: 1,
        columns: vec![
            column("A", ValueType::SignedInt),
            column("A", ValueType::SignedInt),
            column("A", ValueType::SignedInt),
            column("A", ValueType::SignedInt),
            column("A", ValueType::SignedInt),
        ],
    });
    let rows: &[&[&str]] = &[&["x"]];
    let result = deserialize(&store, &raw("T", vec![], rows), false);
    assert_eq!(
        result,
        Err(DeserError::Defect(Error::DeserMaxDuplicateColumns(Box::new((named("T"), named("A"))))))
    );
}

fn sample() -> Table {
    let mut store = SchemaStore::new(1);
    store.insert(Schema {
        table: named("T"),
        version: 1,
        columns: vec![
            column("Id", ValueType::UnsignedInt),
            column("Ref", ValueType::HashRef),
            column("Id", ValueType::UnsignedInt),
            column("Scale", ValueType::Float),
            column("Share", ValueType::Percent),
            column("Delta", ValueType::SignedShort),
            column("Note", ValueType::DebugString),
            column("Gap", ValueType::Unknown),
        ],
    });
    let rows: &[&[&str]] = &[
        &["1", "beef", "2", "-0.50", "7", "-12", "first", ""],
        &["0003", "<0000BEEF>", "4", "10", "100%", "-0", "", ""],
    ];
    deserialize(&store, &raw("T", vec![], rows), false).unwrap()
}

#[test]
fn table_is_written_in_its_text_form() {
    let table = sample();
    assert_eq!(
        table.to_rows(),
        vec![
            vec!["1", "<0000BEEF>", "2", "-0.50", "7%", "-12", "first", ""],
            vec!["3", "<0000BEEF>", "4", "10", "100%", "0", "", ""],
        ]
    );
    let raw = table.to_raw();
    assert_eq!(raw.label, named("T"));
    assert_eq!(raw.rows, table.to_rows());
    assert_eq!(raw.header.len(), 8);
    assert_eq!(raw.header[1], stated("Ref", Some(ValueType::HashRef)));
}

#[test]
fn written_table_reads_back() {
    let table = sample();
    let store = SchemaStore::new(9);
    assert_eq!(deserialize(&store, &table.to_raw(), true), Ok(sample()));
    let mut store = SchemaStore::new(1);
    store.insert(Schema {
        table: named("T"),
        version: 1,
        columns: table.columns.iter().map(|c| c.clone()).collect(),
    });
    let again = RawTable { label: named("T"), header: Vec::new(), rows: table.to_rows() };
    assert_eq!(deserialize(&store, &again, false), Ok(sample()));
}

#[test]
fn cell_of_a_group_holds_the_values_of_its_columns() {
    let table = sample();
    assert_eq!(
        table.cell(1, 0),
        Some(Cell::List(vec![Value::UnsignedInt(3), Value::UnsignedInt(4)]))
    );
    assert_eq!(table.cell(0, 1), Some(Cell::Single(Value::HashRef(0xBEEF))));
    assert_eq!(table.cell(0, 6), Some(Cell::Single(Value::Unknown)));
    assert_eq!(table.cell(0, 7), None);
    assert_eq!(table.cell(2, 0), None);
    let broken = Table {
        label: OptLabel::unnamed(),
        columns: Vec::new(),
        groups: vec![ColumnGroup {
            label: OptLabel::unnamed(),
            value_type: ValueType::Unknown,
            members: vec![3],
        }],
        rows: vec![vec![Value::Unknown]],
    };
    assert_eq!(broken.cell(0, 0), None);
}
