use bdat_toolset::error::{Error, MAX_DUPLICATE_COLUMNS};
use bdat_toolset::label::{Label, OptLabel};
use bdat_toolset::value::ValueType;

fn named(text: &str) -> OptLabel {
    OptLabel::from(Label::String(text.to_string()))
}

#[test]
fn at_most_four_columns_share_a_name() {
    assert_eq!(MAX_DUPLICATE_COLUMNS, 4);
}

#[test]
fn missing_argument_message() {
    assert_eq!(
        Error::MissingRequiredArgument("output").to_string(),
        "Missing required argument: output"
    );
}

#[test]
fn unknown_file_type_message() {
    assert_eq!(
        Error::UnknownFileType("xml".to_string()).to_string(),
        "Unsupported file type 'xml'"
    );
}

#[test]
fn layout_messages() {
    assert_eq!(Error::NotLegacy.to_string(), "Not a legacy BDAT file");
    assert_eq!(Error::NotModern.to_string(), "Not a modern BDAT file");
}

#[test]
fn missing_schema_message() {
    assert_eq!(
        Error::DeserMissingSchema.to_string(),
        "No schema files found, please run 'extract' without '--no-schema'"
    );
}

#[test]
fn outdated_schema_message() {
    assert_eq!(
        Error::DeserOutdatedSchema(Box::new(("common".to_string(), 2, 3))).to_string(),
        "Outdated schema for file 'common', found version 2, expected version 3, \
         please run 'extract' again without '--no-schema'"
    );
}

#[test]
fn missing_type_info_message() {
    assert_eq!(
        Error::DeserMissingTypeInfo(named("CHR_Dr")).to_string(),
        "Table CHR_Dr is missing type information, please run 'extract' without '-u', \
         or add types manually"
    );
    assert_eq!(
        Error::DeserMissingTypeInfo(OptLabel::unnamed()).to_string(),
        "Table <Unnamed> is missing type information, please run 'extract' without '-u', \
         or add types manually"
    );
}

#[test]
fn incomplete_row_message() {
    assert_eq!(
        Error::DeserIncompleteRow(12).to_string(),
        "Row 12 does not have entries for all columns"
    );
    assert_eq!(
        Error::DeserIncompleteRow(0).to_string(),
        "Row 0 does not have entries for all columns"
    );
}

#[test]
fn max_duplicate_columns_message() {
    assert_eq!(
        Error::DeserMaxDuplicateColumns(Box::new((named("People"), named("Id")))).to_string(),
        "Column Id in table People exceeds the maximum duplicate column count of 4. \
         Please avoid using multiple columns with the same name."
    );
    assert_eq!(
        Error::DeserMaxDuplicateColumns(Box::new((
            OptLabel::from(Label::Hash(0x2521_C473)),
            OptLabel::unnamed()
        )))
        .to_string(),
        "Column <Unnamed> in table <2521C473> exceeds the maximum duplicate column count of 4. \
         Please avoid using multiple columns with the same name."
    );
}

#[test]
fn duplicate_mismatch_message() {
    assert_eq!(
        Error::DeserDuplicateMismatch(Box::new((
            named("People"),
            named("Id"),
            ValueType::SignedInt,
            ValueType::String
        )))
        .to_string(),
        "Columns Id in table People differ in type (SignedInt / String). \
         Please avoid using multiple columns with the same name."
    );
}
