//! The ways in which reading a table can fail.

pub use crate::label::OptLabel;
use crate::label::{label_text, LabelView};
use crate::text::{decimal_text, render_unsigned};
use crate::value::ValueType;
use vstd::prelude::*;

verus! {

/// The largest number of columns of one table that may share a name.
pub const MAX_DUPLICATE_COLUMNS: usize = 4;

/// A failure of the toolset.
#[derive(Debug, PartialEq, Eq)]
pub enum Error {
    /// A required argument is missing; the field names it.
    MissingRequiredArgument(&'static str),
    /// The type of a file is not known; the field holds what was given.
    UnknownFileType(String),
    /// A file is not in the legacy binary layout.
    NotLegacy,
    /// A file is not in the modern binary layout.
    NotModern,
    /// No schema is stored, and the caller did not ask to read without one.
    DeserMissingSchema,
    /// A stored schema has another version than the one expected. The fields
    /// are the table's name, the version found, and the version expected.
    DeserOutdatedSchema(Box<(String, usize, usize)>),
    /// A table is read without a schema, and its columns do not all state
    /// their type. The field is the table's label.
    DeserMissingTypeInfo(OptLabel),
    /// A row has fewer fields than the table has columns. The field is the
    /// row's position, counted from 0.
    DeserIncompleteRow(usize),
    /// More than [`MAX_DUPLICATE_COLUMNS`] columns share a name. The fields
    /// are the table's label and the columns' label.
    DeserMaxDuplicateColumns(Box<(OptLabel, OptLabel)>),
    /// Two columns share a name and differ in type. The fields are the
    /// table's label, the columns' label, the type of the first column of
    /// that name, and the type of the column that differs from it.
    DeserDuplicateMismatch(Box<(OptLabel, OptLabel, ValueType, ValueType)>),
}

/// What an [`Error`] stands for in contracts.
pub enum ErrorView {
    MissingRequiredArgument(Seq<char>),
    UnknownFileType(Seq<char>),
    NotLegacy,
    NotModern,
    DeserMissingSchema,
    DeserOutdatedSchema { name: Seq<char>, found: usize, expected: usize },
    DeserMissingTypeInfo { table: Option<LabelView> },
    DeserIncompleteRow { row: usize },
    DeserMaxDuplicateColumns { table: Option<LabelView>, column: Option<LabelView> },
    DeserDuplicateMismatch {
        table: Option<LabelView>,
        column: Option<LabelView>,
        first: ValueType,
        second: ValueType,
    },
}

impl View for Error {
    type V = ErrorView;

    open spec fn view(&self) -> ErrorView {
        match self {
            Error::MissingRequiredArgument(name) => ErrorView::MissingRequiredArgument(name@),
            Error::UnknownFileType(given) => ErrorView::UnknownFileType(given@),
            Error::NotLegacy => ErrorView::NotLegacy,
            Error::NotModern => ErrorView::NotModern,
            Error::DeserMissingSchema => ErrorView::DeserMissingSchema,
            Error::DeserOutdatedSchema(fields) => ErrorView::DeserOutdatedSchema {
                name: fields.0@,
                found: fields.1,
                expected: fields.2,
            },
            Error::DeserMissingTypeInfo(table) => ErrorView::DeserMissingTypeInfo { table: table@ },
            Error::DeserIncompleteRow(row) => ErrorView::DeserIncompleteRow { row: *row },
            Error::DeserMaxDuplicateColumns(fields) => ErrorView::DeserMaxDuplicateColumns {
                table: fields.0@,
                column: fields.1@,
            },
            Error::DeserDuplicateMismatch(fields) => ErrorView::DeserDuplicateMismatch {
                table: fields.0@,
                column: fields.1@,
                first: fields.2,
                second: fields.3,
            },
        }
    }
}

impl ErrorView {
    /// The message that tells a user of the failure.
    pub open spec fn message(self) -> Seq<char> {
        match self {
            ErrorView::MissingRequiredArgument(name) => "Missing required argument: "@ + name,
            ErrorView::UnknownFileType(given) => "Unsupported file type '"@ + given + "'"@,
            ErrorView::NotLegacy => "Not a legacy BDAT file"@,
            ErrorView::NotModern => "Not a modern BDAT file"@,
            ErrorView::DeserMissingSchema =>
                "No schema files found, please run 'extract' without '--no-schema'"@,
            ErrorView::DeserOutdatedSchema { name, found, expected } =>
                "Outdated schema for file '"@ + name + "', found version "@ + decimal_text(
                    found as nat,
                ) + ", expected version "@ + decimal_text(expected as nat)
                    + ", please run 'extract' again without '--no-schema'"@,
            ErrorView::DeserMissingTypeInfo { table } => "Table "@ + label_text(table)
                + " is missing type information, please run 'extract' without '-u', or add types manually"@,
            ErrorView::DeserIncompleteRow { row } => "Row "@ + decimal_text(row as nat)
                + " does not have entries for all columns"@,
            ErrorView::DeserMaxDuplicateColumns { table, column } => "Column "@ + label_text(column)
                + " in table "@ + label_text(table)
                + " exceeds the maximum duplicate column count of "@ + decimal_text(
                MAX_DUPLICATE_COLUMNS as nat,
            ) + ". Please avoid using multiple columns with the same name."@,
            ErrorView::DeserDuplicateMismatch { table, column, first, second } => "Columns "@
                + label_text(column) + " in table "@ + label_text(table) + " differ in type ("@
                + first.spec_name() + " / "@ + second.spec_name()
                + "). Please avoid using multiple columns with the same name."@,
        }
    }
}

impl Error {
    /// Writes the message that tells a user of the failure.
    pub fn to_string(&self) -> (message: String)
        ensures
            message@ == self@.message(),
    {
        match self {
            Error::MissingRequiredArgument(name) => {
                let mut message = String::from_str("Missing required argument: ");
                message.append(name);
                message
            },
            Error::UnknownFileType(given) => {
                let mut message = String::from_str("Unsupported file type '");
                message.append(given.as_str());
                message.append("'");
                message
            },
            Error::NotLegacy => String::from_str("Not a legacy BDAT file"),
            Error::NotModern => String::from_str("Not a modern BDAT file"),
            Error::DeserMissingSchema => String::from_str(
                "No schema files found, please run 'extract' without '--no-schema'",
            ),
            Error::DeserOutdatedSchema(fields) => {
                let mut message = String::from_str("Outdated schema for file '");
                message.append(fields.0.as_str());
                message.append("', found version ");
                message.append(render_unsigned(fields.1 as u64).as_str());
                message.append(", expected version ");
                message.append(render_unsigned(fields.2 as u64).as_str());
                message.append(", please run 'extract' again without '--no-schema'");
                message
            },
            Error::DeserMissingTypeInfo(table) => {
                let mut message = String::from_str("Table ");
                message.append(table.to_string().as_str());
                message.append(
                    " is missing type information, please run 'extract' without '-u', or add types manually",
                );
                message
            },
            Error::DeserIncompleteRow(row) => {
                let mut message = String::from_str("Row ");
                message.append(render_unsigned(*row as u64).as_str());
                message.append(" does not have entries for all columns");
                message
            },
            Error::DeserMaxDuplicateColumns(fields) => {
                let mut message = String::from_str("Column ");
                message.append(fields.1.to_string().as_str());
                message.append(" in table ");
                message.append(fields.0.to_string().as_str());
                message.append(" exceeds the maximum duplicate column count of ");
                message.append(render_unsigned(MAX_DUPLICATE_COLUMNS as u64).as_str());
                message.append(". Please avoid using multiple columns with the same name.");
                message
            },
            Error::DeserDuplicateMismatch(fields) => {
                let mut message = String::from_str("Columns ");
                message.append(fields.1.to_string().as_str());
                message.append(" in table ");
                message.append(fields.0.to_string().as_str());
                message.append(" differ in type (");
                message.append(fields.2.name().as_str());
                message.append(" / ");
                message.append(fields.3.name().as_str());
                message.append("). Please avoid using multiple columns with the same name.");
                message
            },
        }
    }
}

} // verus!
