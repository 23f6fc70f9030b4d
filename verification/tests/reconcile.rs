use bdat_toolset::error::Error;
use bdat_toolset::label::{Label, OptLabel};
use bdat_toolset::reconcile::{group_columns, reconcile, ColumnGroup};
use bdat_toolset::schema::Column;
use bdat_toolset::value::ValueType;

fn named(text: &str) -> OptLabel {
    OptLabel::from(Label::String(text.to_string()))
}

fn columns(defs: &[(&str, ValueType)]) -> Vec<Column> {
    defs.iter().map(|(text, value_type)| Column { label: named(text), value_type: *value_type }).collect()
}

fn group(text: &str, value_type: ValueType, members: &[usize]) -> ColumnGroup {
    ColumnGroup { label: named(text), value_type, members: members.to_vec() }
}

const INT: ValueType = ValueType::SignedInt;
const STR: ValueType = ValueType::String;

#[test]
fn no_columns_give_no_groups() {
    assert_eq!(reconcile(&named("T"), &Vec::new()), Ok(Vec::new()));
}

#[test]
fn column_of_its_own_name_is_a_group_of_one() {
    let cols = columns(&[("Id", INT), ("Name", STR), ("Age", INT)]);
    assert_eq!(
        reconcile(&named("T"), &cols),
        Ok(vec![group("Id", INT, &[0]), group("Name", STR, &[1]), group("Age", INT, &[2])])
    );
}

#[test]
fn groups_come_in_the_order_of_their_first_column() {
    let cols = columns(&[("B", INT), ("A", STR), ("B", INT), ("C", INT), ("A", STR), ("B", INT)]);
    assert_eq!(
        reconcile(&named("T"), &cols),
        Ok(vec![group("B", INT, &[0, 2, 5]), group("A", STR, &[1, 4]), group("C", INT, &[3])])
    );
    assert_eq!(
        group_columns(&cols),
        vec![group("B", INT, &[0, 2, 5]), group("A", STR, &[1, 4]), group("C", INT, &[3])]
    );
}

#[test]
fn four_columns_of_one_name_are_accepted() {
    let cols = columns(&[("Id", INT), ("Id", INT), ("Id", INT), ("Id", INT)]);
    assert_eq!(reconcile(&named("T"), &cols), Ok(vec![group("Id", INT, &[0, 1, 2, 3])]));
}

#[test]
fn five_columns_of_one_name_are_refused() {
    let cols = columns(&[("Id", INT), ("Id", INT), ("Id", INT), ("Id", INT), ("Id", INT)]);
    assert_eq!(
        reconcile(&named("T"), &cols),
        Err(Error::DeserMaxDuplicateColumns(Box::new((named("T"), named("Id")))))
    );
    assert_eq!(
        reconcile(&OptLabel::unnamed(), &cols),
        Err(Error::DeserMaxDuplicateColumns(Box::new((OptLabel::unnamed(), named("Id")))))
    );
}

#[test]
fn first_group_that_is_too_large_is_named() {
    let cols = columns(&[
        ("A", INT), ("B", INT), ("B", INT), ("B", INT), ("B", INT), ("B", INT), ("A", INT),
        ("A", INT), ("A", INT), ("A", INT),
    ]);
    assert_eq!(
        reconcile(&named("T"), &cols),
        Err(Error::DeserMaxDuplicateColumns(Box::new((named("T"), named("A")))))
    );
}

#[test]
fn two_columns_of_one_name_and_two_types_are_refused() {
    let cols = columns(&[("Id", INT), ("Id", STR)]);
    assert_eq!(
        reconcile(&named("T"), &cols),
        Err(Error::DeserDuplicateMismatch(Box::new((named("T"), named("Id"), INT, STR))))
    );
    let cols = columns(&[("Id", STR), ("Id", INT)]);
    assert_eq!(
        reconcile(&named("T"), &cols),
        Err(Error::DeserDuplicateMismatch(Box::new((named("T"), named("Id"), STR, INT))))
    );
}

#[test]
fn members_are_held_against_the_first_of_their_name() {
    let cols = columns(&[("Id", INT), ("Id", INT), ("Id", STR), ("Id", ValueType::Float)]);
    assert_eq!(
        reconcile(&named("T"), &cols),
        Err(Error::DeserDuplicateMismatch(Box::new((named("T"), named("Id"), INT, STR))))
    );
}

#[test]
fn groups_are_checked_in_their_order() {
    let cols = columns(&[("A", INT), ("B", INT), ("B", STR), ("A", ValueType::Float)]);
    assert_eq!(
        reconcile(&named("T"), &cols),
        Err(Error::DeserDuplicateMismatch(Box::new((
            named("T"),
            named("A"),
            INT,
            ValueType::Float
        ))))
    );
}

#[test]
fn size_is_checked_before_types() {
    let cols = columns(&[
        ("A", INT), ("A", STR), ("B", INT), ("B", INT), ("B", INT), ("B", INT), ("B", INT),
    ]);
    assert_eq!(
        reconcile(&named("T"), &cols),
        Err(Error::DeserMaxDuplicateColumns(Box::new((named("T"), named("B")))))
    );
}

#[test]
fn columns_without_a_label_share_a_group() {
    let cols = vec![
        Column { label: OptLabel::unnamed(), value_type: INT },
        Column { label: named("<Unnamed>"), value_type: STR },
        Column { label: OptLabel::unnamed(), value_type: INT },
    ];
    assert_eq!(
        reconcile(&named("T"), &cols),
        Ok(vec![
            ColumnGroup { label: OptLabel::unnamed(), value_type: INT, members: vec![0, 2] },
            group("<Unnamed>", STR, &[1]),
        ])
    );
}

#[test]
fn hashed_and_plain_labels_of_one_text_share_a_group() {
    let cols = vec![
        Column { label: OptLabel::from(Label::Hash(0xABCD)), value_type: INT },
        Column { label: named("<0000ABCD>"), value_type: INT },
        Column { label: OptLabel::from(Label::Unhashed("Name".to_string())), value_type: STR },
        Column { label: named("Name"), value_type: INT },
    ];
    assert_eq!(
        group_columns(&cols),
        vec![
            ColumnGroup {
                label: OptLabel::from(Label::Hash(0xABCD)),
                value_type: INT,
                members: vec![0, 1]
            },
            ColumnGroup {
                label: OptLabel::from(Label::Unhashed("Name".to_string())),
                value_type: STR,
                members: vec![2, 3]
            },
        ]
    );
    assert_eq!(
        reconcile(&named("T"), &cols),
        Err(Error::DeserDuplicateMismatch(Box::new((
            named("T"),
            OptLabel::from(Label::Unhashed("Name".to_string())),
            STR,
            INT
        ))))
    );
}
