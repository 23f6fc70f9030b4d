use bdat_toolset::error::Error;
use bdat_toolset::label::{Label, OptLabel};
use bdat_toolset::schema::{clone_columns, Column, Schema, SchemaStore};
use bdat_toolset::value::ValueType;

fn named(text: &str) -> OptLabel {
    OptLabel::from(Label::String(text.to_string()))
}

fn schema(table: OptLabel, version: usize, types: Vec<ValueType>) -> Schema {
    Schema {
        table,
        version,
        columns: types
            .into_iter()
            .map(|value_type| Column { label: named("Value"), value_type })
            .collect(),
    }
}

#[test]
fn empty_store_has_no_schema() {
    let store = SchemaStore::new(3);
    assert_eq!(store.expected_version, 3);
    assert!(store.schemas.is_empty());
    assert_eq!(store.load(&named("People")), Err(Error::DeserMissingSchema));
    assert_eq!(store.load(&OptLabel::unnamed()), Err(Error::DeserMissingSchema));
}

#[test]
fn stored_schema_of_the_expected_version_is_loaded() {
    let mut store = SchemaStore::new(3);
    store.insert(schema(named("Items"), 3, vec![ValueType::String]));
    store.insert(schema(named("People"), 3, vec![ValueType::SignedInt, ValueType::String]));
    let loaded = store.load(&named("People")).unwrap();
    assert_eq!(loaded, &schema(named("People"), 3, vec![ValueType::SignedInt, ValueType::String]));
    assert_eq!(store.load(&named("Places")), Err(Error::DeserMissingSchema));
}

#[test]
fn schema_of_another_version_is_outdated() {
    let mut store = SchemaStore::new(3);
    store.insert(schema(named("People"), 2, vec![ValueType::SignedInt]));
    store.insert(schema(OptLabel::from(Label::Hash(0xCAFE)), 4, vec![ValueType::SignedInt]));
    store.insert(schema(OptLabel::unnamed(), 0, vec![]));
    assert_eq!(
        store.load(&named("People")),
        Err(Error::DeserOutdatedSchema(Box::new(("People".to_string(), 2, 3))))
    );
    assert_eq!(
        store.load(&OptLabel::from(Label::Hash(0xCAFE))),
        Err(Error::DeserOutdatedSchema(Box::new(("<0000CAFE>".to_string(), 4, 3))))
    );
    assert_eq!(
        store.load(&OptLabel::unnamed()),
        Err(Error::DeserOutdatedSchema(Box::new(("<Unnamed>".to_string(), 0, 3))))
    );
}

#[test]
fn first_schema_stored_for_a_table_is_the_one_loaded() {
    let mut store = SchemaStore::new(3);
    store.insert(schema(named("People"), 3, vec![ValueType::SignedInt]));
    store.insert(schema(named("People"), 2, vec![ValueType::String]));
    assert_eq!(store.schemas.len(), 2);
    assert_eq!(
        store.load(&named("People")),
        Ok(&schema(named("People"), 3, vec![ValueType::SignedInt]))
    );
}

#[test]
fn tables_are_found_by_the_text_of_their_label() {
    let mut store = SchemaStore::new(1);
    store.insert(schema(OptLabel::from(Label::Unhashed("People".to_string())), 1, vec![]));
    assert!(store.load(&named("People")).is_ok());
    assert!(store.load(&named("people")).is_err());
}

#[test]
fn columns_are_copied_one_by_one() {
    let columns = vec![
        Column { label: named("Id"), value_type: ValueType::SignedInt },
        Column { label: OptLabel::unnamed(), value_type: ValueType::Float },
    ];
    assert_eq!(clone_columns(&columns), columns);
    assert_eq!(columns[0].clone(), columns[0]);
    assert_eq!(clone_columns(&Vec::new()), Vec::new());
}
