//! Column definitions, stored schemas, and the store that holds them.

use crate::error::{Error, ErrorView};
use crate::label::{label_name, label_text, LabelView, OptLabel};
use crate::value::ValueType;
use vstd::prelude::*;

verus! {

/// A column of a table: its label and the type of its values.
#[derive(Debug, PartialEq, Eq)]
pub struct Column {
    pub label: OptLabel,
    pub value_type: ValueType,
}

/// What a [`Column`] stands for in contracts.
pub struct ColumnView {
    pub label: Option<LabelView>,
    pub value_type: ValueType,
}

impl View for Column {
    type V = ColumnView;

    open spec fn view(&self) -> ColumnView {
        ColumnView { label: self.label@, value_type: self.value_type }
    }
}

impl DeepView for Column {
    type V = ColumnView;

    open spec fn deep_view(&self) -> ColumnView {
        self@
    }
}

impl Clone for Column {
    fn clone(&self) -> (copy: Self)
        ensures
            copy@ == self@,
    {
        Column { label: self.label.clone(), value_type: self.value_type }
    }
}

/// Copies a list of columns.
pub fn clone_columns(columns: &Vec<Column>) -> (copy: Vec<Column>)
    ensures
        copy.deep_view() == columns.deep_view(),
{
    let mut copy: Vec<Column> = Vec::new();
    let mut i: usize = 0;
    while i < columns.len()
        invariant
            i <= columns.len(),
            copy.len() == i,
            forall|j: int| 0 <= j < i ==> (#[trigger] copy[j])@ == columns[j]@,
        decreases columns.len() - i,
    {
        copy.push(columns[i].clone());
        i += 1;
    }
    assert(copy.deep_view() =~= columns.deep_view());
    copy
}

/// The columns of a table as they were written down when the table was
/// extracted, with the version of the schema format.
#[derive(Debug, PartialEq, Eq)]
pub struct Schema {
    pub table: OptLabel,
    pub version: usize,
    pub columns: Vec<Column>,
}

/// What a [`Schema`] stands for in contracts.
pub struct SchemaView {
    pub table: Option<LabelView>,
    pub version: usize,
    pub columns: Seq<ColumnView>,
}

impl View for Schema {
    type V = SchemaView;

    open spec fn view(&self) -> SchemaView {
        SchemaView {
            table: self.table@,
            version: self.version,
            columns: self.columns.deep_view(),
        }
    }
}

impl DeepView for Schema {
    type V = SchemaView;

    open spec fn deep_view(&self) -> SchemaView {
        self@
    }
}

/// The schemas that were found for the tables of a file, and the version of
/// the schema format that this build reads.
#[derive(Debug)]
pub struct SchemaStore {
    pub expected_version: usize,
    pub schemas: Vec<Schema>,
}

/// What a [`SchemaStore`] stands for in contracts.
pub struct SchemaStoreView {
    pub expected_version: usize,
    pub schemas: Seq<SchemaView>,
}

impl View for SchemaStore {
    type V = SchemaStoreView;

    open spec fn view(&self) -> SchemaStoreView {
        SchemaStoreView {
            expected_version: self.expected_version,
            schemas: self.schemas.deep_view(),
        }
    }
}

/// The schema that is stored for `table`: the first of `schemas` whose table
/// has the same name.
pub open spec fn stored_schema(schemas: Seq<SchemaView>, table: Option<LabelView>) -> Option<
    SchemaView,
>
    decreases schemas.len(),
{
    if schemas.len() == 0 {
        None
    } else if label_name(schemas[0].table) == label_name(table) {
        Some(schemas[0])
    } else {
        stored_schema(schemas.drop_first(), table)
    }
}

/// What loading the schema of `table` yields: the stored schema where there is
/// one of the expected version, and else the reason why there is none.
pub open spec fn loaded(store: SchemaStoreView, table: Option<LabelView>) -> Result<
    SchemaView,
    ErrorView,
> {
    match stored_schema(store.schemas, table) {
        None => Err(ErrorView::DeserMissingSchema),
        Some(schema) => if schema.version != store.expected_version {
            Err(
                ErrorView::DeserOutdatedSchema {
                    name: label_text(table),
                    found: schema.version,
                    expected: store.expected_version,
                },
            )
        } else {
            Ok(schema)
        },
    }
}

impl SchemaStore {
    /// A store without schemas, for a build that reads schemas of
    /// `expected_version`.
    pub fn new(expected_version: usize) -> (store: SchemaStore)
        ensures
            store@.expected_version == expected_version,
            store@.schemas.len() == 0,
    {
        SchemaStore { expected_version, schemas: Vec::new() }
    }

    /// Adds a schema. Where the store already holds one for the same table,
    /// that one stays the one that is loaded.
    pub fn insert(&mut self, schema: Schema)
        ensures
            final(self)@.expected_version == old(self)@.expected_version,
            final(self)@.schemas == old(self)@.schemas.push(schema@),
    {
        self.schemas.push(schema);
        assert(self.schemas.deep_view() =~= old(self).schemas.deep_view().push(schema@));
    }

    /// Loads the schema of `table`.
    ///
    /// Fails with `DeserMissingSchema` where none is stored for the table, and
    /// with `DeserOutdatedSchema` where the one stored does not have the
    /// expected version.
    pub fn load(&self, table: &OptLabel) -> (result: Result<&Schema, Error>)
        ensures
            match result {
                Ok(schema) => loaded(self@, table@) == Ok::<SchemaView, ErrorView>(schema@),
                Err(e) => loaded(self@, table@) == Err::<SchemaView, ErrorView>(e@),
            },
    {
        let ghost all = self.schemas.deep_view();
        let mut i: usize = 0;
        proof {
            assert(all.skip(0) =~= all);
        }
        while i < self.schemas.len()
            invariant
                i <= self.schemas.len(),
                all == self.schemas.deep_view(),
                stored_schema(all, table@) == stored_schema(all.skip(i as int), table@),
            decreases self.schemas.len() - i,
        {
            let schema = &self.schemas[i];
            proof {
                assert(all.skip(i as int)[0] == schema@);
                assert(all.skip(i as int).drop_first() =~= all.skip(i + 1));
            }
            if schema.table.same_name(table) {
                if schema.version != self.expected_version {
                    let name = table.to_string();
                    return Err(
                        Error::DeserOutdatedSchema(
                            Box::new((name, schema.version, self.expected_version)),
                        ),
                    );
                }
                return Ok(schema);
            }
            i += 1;
        }
        Err(Error::DeserMissingSchema)
    }
}

} // verus!
