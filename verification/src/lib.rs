//! Schema-reconciling reader for the text form of BDAT tables.
//!
//! A table arrives as rows of raw text fields, together with the column
//! definitions of a stored, versioned schema or of the table's own header.
//! [`deserialize`] finds the columns, groups those that share a name and checks
//! the groups, checks that every row is complete, turns each field into a
//! typed value, and returns the typed [`Table`] or the first defect that it
//! met. Nothing else results: no table is returned in part.
//!
//! The modules, from the leaves up:
//!
//! - [`text`]: the notations of numbers and hashes in fields;
//! - [`label`]: names of tables and columns;
//! - [`value`]: column types and typed values, read from and written to fields;
//! - [`error`]: the failures and their messages;
//! - [`schema`]: column definitions and the store of versioned schemas;
//! - [`row`]: the check that a row has a field for each column;
//! - [`reconcile`]: the grouping of columns that share a name;
//! - [`table`]: the typed table and the reader;
//! - [`laws`]: what holds of the reader on every input.

pub mod error;
pub mod label;
pub mod laws;
pub mod reconcile;
pub mod row;
pub mod schema;
pub mod table;
pub mod text;
pub mod value;

pub use error::{Error, MAX_DUPLICATE_COLUMNS};
pub use label::{Label, OptLabel};
pub use reconcile::{reconcile, ColumnGroup};
pub use row::{normalize, RawRow};
pub use schema::{Column, Schema, SchemaStore};
pub use table::{deserialize, Cell, CoercionError, DeserError, HeaderColumn, RawTable, Table};
pub use value::{Value, ValueType};
