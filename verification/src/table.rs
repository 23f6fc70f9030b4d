//! The typed table, and the reader that builds it from raw rows.

use crate::error::{Error, ErrorView};
use crate::label::{LabelView, OptLabel};
use crate::reconcile::{reconcile, reconciled, ColumnGroup, ColumnGroupView};
use crate::row::{normalize, normalized};
use crate::schema::{clone_columns, loaded, Column, ColumnView, SchemaStore, SchemaStoreView};
use crate::value::{coerced, lemma_coerced_type, Value, ValueType, ValueView};
use vstd::prelude::*;

verus! {

/// A column as the header of a raw table states it: its label, and its type
/// where the header gives one.
#[derive(Debug, PartialEq, Eq)]
pub struct HeaderColumn {
    pub label: OptLabel,
    pub value_type: Option<ValueType>,
}

/// What a [`HeaderColumn`] stands for in contracts.
pub struct HeaderColumnView {
    pub label: Option<LabelView>,
    pub value_type: Option<ValueType>,
}

impl View for HeaderColumn {
    type V = HeaderColumnView;

    open spec fn view(&self) -> HeaderColumnView {
        HeaderColumnView { label: self.label@, value_type: self.value_type }
    }
}

impl DeepView for HeaderColumn {
    type V = HeaderColumnView;

    open spec fn deep_view(&self) -> HeaderColumnView {
        self@
    }
}

/// A table in its text form: its label, its header, and its rows of raw
/// fields.
#[derive(Debug, PartialEq, Eq)]
pub struct RawTable {
    pub label: OptLabel,
    pub header: Vec<HeaderColumn>,
    pub rows: Vec<Vec<String>>,
}

/// What a [`RawTable`] stands for in contracts.
pub struct RawTableView {
    pub label: Option<LabelView>,
    pub header: Seq<HeaderColumnView>,
    pub rows: Seq<Seq<Seq<char>>>,
}

impl View for RawTable {
    type V = RawTableView;

    open spec fn view(&self) -> RawTableView {
        RawTableView {
            label: self.label@,
            header: self.header.deep_view(),
            rows: self.rows.deep_view(),
        }
    }
}

/// A field that does not hold a value of the type of its column.
#[derive(Debug, PartialEq, Eq)]
pub struct CoercionError {
    /// The position of the row, counted from 0.
    pub row: usize,
    /// The position of the column, counted from 0.
    pub column: usize,
    /// The type of the column.
    pub value_type: ValueType,
    /// The field as it was given.
    pub text: String,
}

/// What a [`CoercionError`] stands for in contracts.
pub struct CoercionErrorView {
    pub row: usize,
    pub column: usize,
    pub value_type: ValueType,
    pub text: Seq<char>,
}

impl View for CoercionError {
    type V = CoercionErrorView;

    open spec fn view(&self) -> CoercionErrorView {
        CoercionErrorView {
            row: self.row,
            column: self.column,
            value_type: self.value_type,
            text: self.text@,
        }
    }
}

/// Why a table could not be read.
#[derive(Debug, PartialEq, Eq)]
pub enum DeserError {
    /// The schema, the columns or a row's length is at fault.
    Defect(Error),
    /// A field is at fault.
    Coercion(CoercionError),
}

/// What a [`DeserError`] stands for in contracts.
pub enum DeserErrorView {
    Defect(ErrorView),
    Coercion(CoercionErrorView),
}

impl View for DeserError {
    type V = DeserErrorView;

    open spec fn view(&self) -> DeserErrorView {
        match self {
            DeserError::Defect(e) => DeserErrorView::Defect(e@),
            DeserError::Coercion(e) => DeserErrorView::Coercion(e@),
        }
    }
}

/// The columns that a header states, where it gives the type of each.
pub open spec fn inline_columns(header: Seq<HeaderColumnView>) -> Option<Seq<ColumnView>> {
    if forall|i: int| 0 <= i < header.len() ==> (#[trigger] header[i]).value_type is Some {
        Some(
            Seq::new(
                header.len(),
                |i: int| ColumnView { label: header[i].label, value_type: header[i].value_type->0 },
            ),
        )
    } else {
        None
    }
}

/// The columns by which a raw table is read.
///
/// Without a schema they are those of the table's header, and
/// `DeserMissingTypeInfo` results where the header leaves a type out. With a
/// schema they are those of the schema that is stored for the table, and what
/// loading that schema fails with results where it fails.
pub open spec fn resolved_columns(
    store: SchemaStoreView,
    raw: RawTableView,
    schema_less: bool,
) -> Result<Seq<ColumnView>, ErrorView> {
    if schema_less {
        match inline_columns(raw.header) {
            Some(columns) => Ok(columns),
            None => Err(ErrorView::DeserMissingTypeInfo { table: raw.label }),
        }
    } else {
        match loaded(store, raw.label) {
            Ok(schema) => Ok(schema.columns),
            Err(e) => Err(e),
        }
    }
}

/// Whether field `j` is the first that does not hold a value of the type of
/// its column.
pub open spec fn is_first_malformed(
    columns: Seq<ColumnView>,
    fields: Seq<Seq<char>>,
    j: int,
) -> bool {
    &&& 0 <= j < columns.len()
    &&& coerced(fields[j], columns[j].value_type) is None
    &&& forall|i: int| 0 <= i < j ==> (#[trigger] coerced(fields[i], columns[i].value_type)) is Some
}

/// What reading the raw row at `row_index` yields.
///
/// A row with fewer fields than there are columns yields
/// `DeserIncompleteRow`. Else the first field that does not hold a value of
/// the type of its column yields a coercion error. Else the row yields the
/// value of each column's field; fields beyond the columns are left out.
pub open spec fn typed_row(
    columns: Seq<ColumnView>,
    raw_fields: Seq<Seq<char>>,
    row_index: usize,
) -> Result<Seq<ValueView>, DeserErrorView> {
    match normalized(raw_fields, columns.len(), row_index) {
        Err(e) => Err(DeserErrorView::Defect(e)),
        Ok(fields) => if exists|j: int| is_first_malformed(columns, fields, j) {
            let j = choose|j: int| is_first_malformed(columns, fields, j);
            Err(
                DeserErrorView::Coercion(
                    CoercionErrorView {
                        row: row_index,
                        column: j as usize,
                        value_type: columns[j].value_type,
                        text: fields[j],
                    },
                ),
            )
        } else {
            Ok(Seq::new(columns.len(), |j: int| coerced(fields[j], columns[j].value_type)->0))
        },
    }
}

/// Whether row `r` is the first that cannot be read.
pub open spec fn is_first_failing_row(
    columns: Seq<ColumnView>,
    rows: Seq<Seq<Seq<char>>>,
    r: int,
) -> bool {
    &&& 0 <= r < rows.len()
    &&& typed_row(columns, rows[r], r as usize) is Err
    &&& forall|q: int| 0 <= q < r ==> (#[trigger] typed_row(columns, rows[q], q as usize)) is Ok
}

/// What reading the raw rows yields: what the first row that cannot be read
/// fails with, or the typed rows.
pub open spec fn typed_rows(columns: Seq<ColumnView>, rows: Seq<Seq<Seq<char>>>) -> Result<
    Seq<Seq<ValueView>>,
    DeserErrorView,
> {
    if exists|r: int| is_first_failing_row(columns, rows, r) {
        let r = choose|r: int| is_first_failing_row(columns, rows, r);
        Err(typed_row(columns, rows[r], r as usize)->Err_0)
    } else {
        Ok(Seq::new(rows.len(), |r: int| typed_row(columns, rows[r], r as usize)->Ok_0))
    }
}

/// Where no field is the first malformed one, every field of a column holds
/// a value of the column's type.
pub proof fn lemma_all_fields_coerce(columns: Seq<ColumnView>, fields: Seq<Seq<char>>, j: int)
    requires
        forall|i: int| !is_first_malformed(columns, fields, i),
        0 <= j < columns.len(),
    ensures
        coerced(fields[j], columns[j].value_type) is Some,
    decreases j,
{
    assert forall|i: int| 0 <= i < j implies (#[trigger] coerced(
        fields[i],
        columns[i].value_type,
    )) is Some by {
        lemma_all_fields_coerce(columns, fields, i);
    }
    assert(!is_first_malformed(columns, fields, j));
}

/// A row that is read has a field for each column, and yields for each column
/// the value that its field holds.
pub proof fn lemma_typed_row_ok(
    columns: Seq<ColumnView>,
    raw_fields: Seq<Seq<char>>,
    row_index: usize,
)
    requires
        typed_row(columns, raw_fields, row_index) is Ok,
    ensures
        raw_fields.len() >= columns.len(),
        typed_row(columns, raw_fields, row_index)->Ok_0.len() == columns.len(),
        forall|j: int|
            0 <= j < columns.len() ==> coerced(raw_fields[j], columns[j].value_type) == Some(
                #[trigger] typed_row(columns, raw_fields, row_index)->Ok_0[j],
            ),
{
    let fields = raw_fields.take(columns.len() as int);
    assert forall|j: int| 0 <= j < columns.len() implies coerced(
        raw_fields[j],
        columns[j].value_type,
    ) == Some(#[trigger] typed_row(columns, raw_fields, row_index)->Ok_0[j]) by {
        lemma_all_fields_coerce(columns, fields, j);
    }
}

/// Where no row is the first failing one, every row is read.
pub proof fn lemma_all_rows_read(columns: Seq<ColumnView>, rows: Seq<Seq<Seq<char>>>, r: int)
    requires
        forall|q: int| !is_first_failing_row(columns, rows, q),
        0 <= r < rows.len(),
    ensures
        typed_row(columns, rows[r], r as usize) is Ok,
    decreases r,
{
    assert forall|q: int| 0 <= q < r implies (#[trigger] typed_row(
        columns,
        rows[q],
        q as usize,
    )) is Ok by {
        lemma_all_rows_read(columns, rows, q);
    }
    assert(!is_first_failing_row(columns, rows, r));
}

/// Only one row can be the first that fails.
pub proof fn lemma_first_failing_row_unique(
    columns: Seq<ColumnView>,
    rows: Seq<Seq<Seq<char>>>,
    r: int,
)
    requires
        is_first_failing_row(columns, rows, r),
    ensures
        typed_rows(columns, rows) == Err::<Seq<Seq<ValueView>>, DeserErrorView>(
            typed_row(columns, rows[r], r as usize)->Err_0,
        ),
{
    let chosen = choose|q: int| is_first_failing_row(columns, rows, q);
    if chosen < r {
        assert(typed_row(columns, rows[chosen], chosen as usize) is Ok);
    } else if chosen > r {
        assert(typed_row(columns, rows[r], r as usize) is Ok);
    }
}

/// A typed table: its label, its columns, the groups of columns that share a
/// name, and its rows, each with one value for each column.
#[derive(Debug, PartialEq, Eq)]
pub struct Table {
    pub label: OptLabel,
    pub columns: Vec<Column>,
    pub groups: Vec<ColumnGroup>,
    pub rows: Vec<Vec<Value>>,
}

/// What a [`Table`] stands for in contracts.
pub struct TableView {
    pub label: Option<LabelView>,
    pub columns: Seq<ColumnView>,
    pub groups: Seq<ColumnGroupView>,
    pub rows: Seq<Seq<ValueView>>,
}

impl View for Table {
    type V = TableView;

    open spec fn view(&self) -> TableView {
        TableView {
            label: self.label@,
            columns: self.columns.deep_view(),
            groups: self.groups.deep_view(),
            rows: self.rows.deep_view(),
        }
    }
}

impl TableView {
    /// Whether the table is one that reading can yield: its groups are those
    /// of its columns and pass the checks on groups, and each row holds, for
    /// each column, a value of the column's type that a field can hold.
    pub open spec fn well_formed(self) -> bool {
        &&& reconciled(self.label, self.columns) == Ok::<Seq<ColumnGroupView>, ErrorView>(
            self.groups,
        )
        &&& forall|r: int|
            0 <= r < self.rows.len() ==> (#[trigger] self.rows[r]).len() == self.columns.len()
        &&& forall|r: int, j: int|
            0 <= r < self.rows.len() && 0 <= j < self.columns.len() ==> {
                &&& (#[trigger] self.rows[r][j]).value_type() == self.columns[j].value_type
                &&& self.rows[r][j].well_formed()
            }
    }
}

/// What reading a raw table yields.
///
/// The columns are resolved, then grouped and checked, then the rows are read
/// in order. The first of these steps that fails gives the result; where none
/// fails, the result is the table with the label of the raw table, the
/// resolved columns, their groups and the typed rows.
pub open spec fn deserialized(store: SchemaStoreView, raw: RawTableView, schema_less: bool) -> Result<
    TableView,
    DeserErrorView,
> {
    match resolved_columns(store, raw, schema_less) {
        Err(e) => Err(DeserErrorView::Defect(e)),
        Ok(columns) => match reconciled(raw.label, columns) {
            Err(e) => Err(DeserErrorView::Defect(e)),
            Ok(groups) => match typed_rows(columns, raw.rows) {
                Err(e) => Err(e),
                Ok(rows) => Ok(TableView { label: raw.label, columns, groups, rows }),
            },
        },
    }
}

/// A table that results from reading is well formed, has the label of the raw
/// table, and has a row for each raw row.
pub proof fn lemma_deserialized_well_formed(
    store: SchemaStoreView,
    raw: RawTableView,
    schema_less: bool,
)
    ensures
        deserialized(store, raw, schema_less) matches Ok(table) ==> {
            &&& table.well_formed()
            &&& table.label == raw.label
            &&& resolved_columns(store, raw, schema_less) == Ok::<Seq<ColumnView>, ErrorView>(
                table.columns,
            )
            &&& table.rows.len() == raw.rows.len()
        },
{
    if deserialized(store, raw, schema_less) is Ok {
        let table = deserialized(store, raw, schema_less)->Ok_0;
        let columns = table.columns;
        assert forall|r: int| 0 <= r < table.rows.len() implies (#[trigger] table.rows[r]).len()
            == columns.len() && forall|j: int|
            0 <= j < columns.len() ==> {
                &&& (#[trigger] table.rows[r][j]).value_type() == columns[j].value_type
                &&& table.rows[r][j].well_formed()
            } by {
            lemma_all_rows_read(columns, raw.rows, r);
            lemma_typed_row_ok(columns, raw.rows[r], r as usize);
            assert forall|j: int| 0 <= j < columns.len() implies {
                &&& (#[trigger] table.rows[r][j]).value_type() == columns[j].value_type
                &&& table.rows[r][j].well_formed()
            } by {
                lemma_coerced_type(raw.rows[r][j], columns[j].value_type);
            }
        }
    }
}

/// Finds the columns by which `raw` is to be read: those of its header where
/// `schema_less` is set, and else those of the schema stored for it.
///
/// Fails with `DeserMissingTypeInfo` where `schema_less` is set and the header
/// leaves a type out; with `DeserMissingSchema` where it is not set and no
/// schema is stored for the table; and with `DeserOutdatedSchema` where the
/// stored schema does not have the expected version.
pub fn resolve_columns(store: &SchemaStore, raw: &RawTable, schema_less: bool) -> (result: Result<
    Vec<Column>,
    Error,
>)
    ensures
        match result {
            Ok(columns) => resolved_columns(store@, raw@, schema_less) == Ok::<
                Seq<ColumnView>,
                ErrorView,
            >(columns.deep_view()),
            Err(e) => resolved_columns(store@, raw@, schema_less) == Err::<
                Seq<ColumnView>,
                ErrorView,
            >(e@),
        },
{
    if schema_less {
        let ghost header = raw.header.deep_view();
        let mut columns: Vec<Column> = Vec::new();
        let mut i: usize = 0;
        while i < raw.header.len()
            invariant
                schema_less,
                i <= raw.header.len(),
                header == raw.header.deep_view(),
                columns.len() == i,
                forall|j: int| 0 <= j < i ==> (#[trigger] header[j]).value_type is Some,
                forall|j: int|
                    0 <= j < i ==> (#[trigger] columns[j])@ == (ColumnView {
                        label: header[j].label,
                        value_type: header[j].value_type->0,
                    }),
            decreases raw.header.len() - i,
        {
            let stated = &raw.header[i];
            assert(header[i as int] == stated@);
            match stated.value_type {
                Some(value_type) => {
                    columns.push(Column { label: stated.label.clone(), value_type });
                },
                None => {
                    assert(header[i as int].value_type is None);
                    assert(inline_columns(header) is None);
                    return Err(Error::DeserMissingTypeInfo(raw.label.clone()));
                },
            }
            i += 1;
        }
        assert(columns.deep_view() =~= inline_columns(header)->0);
        Ok(columns)
    } else {
        match store.load(&raw.label) {
            Ok(schema) => Ok(clone_columns(&schema.columns)),
            Err(e) => Err(e),
        }
    }
}

/// Reads the raw row at `row_index`, counted from 0: checks that it has a
/// field for each column, and turns the field of each column into a value of
/// the column's type.
///
/// Fails with `DeserIncompleteRow(row_index)` where the row has fewer fields
/// than there are columns, and else with a coercion error for the first field
/// that does not hold a value of the type of its column.
pub fn read_row(columns: &Vec<Column>, raw_fields: &[String], row_index: usize) -> (result: Result<
    Vec<Value>,
    DeserError,
>)
    ensures
        match result {
            Ok(values) => typed_row(columns.deep_view(), raw_fields.deep_view(), row_index) == Ok::<
                Seq<ValueView>,
                DeserErrorView,
            >(values.deep_view()),
            Err(e) => typed_row(columns.deep_view(), raw_fields.deep_view(), row_index) == Err::<
                Seq<ValueView>,
                DeserErrorView,
            >(e@),
        },
{
    let ghost all = columns.deep_view();
    let row = match normalize(raw_fields, columns.len(), row_index) {
        Ok(row) => row,
        Err(e) => {
            return Err(DeserError::Defect(e));
        },
    };
    let ghost fields = row@;
    let mut values: Vec<Value> = Vec::new();
    let mut j: usize = 0;
    while j < columns.len()
        invariant
            j <= columns.len(),
            all == columns.deep_view(),
            fields == row@,
            fields.len() == columns.len(),
            normalized(raw_fields.deep_view(), all.len(), row_index) == Ok::<
                Seq<Seq<char>>,
                ErrorView,
            >(fields),
            values.len() == j,
            forall|i: int|
                0 <= i < j ==> (#[trigger] coerced(fields[i], all[i].value_type)) == Some(
                    values[i]@,
                ),
        decreases columns.len() - j,
    {
        let value_type = columns[j].value_type;
        let field = &row.fields[j];
        assert(all[j as int] == columns[j as int]@);
        assert(fields[j as int] == field@);
        match Value::coerce(field.as_str(), value_type) {
            Some(value) => {
                values.push(value);
            },
            None => {
                proof {
                    assert(is_first_malformed(all, fields, j as int));
                    assert forall|i: int| is_first_malformed(all, fields, i) implies i == j by {
                        if i < j {
                            assert(coerced(fields[i], all[i].value_type) is Some);
                        } else if i > j {
                            assert(coerced(fields[j as int], all[j as int].value_type) is None);
                        }
                    }
                    let chosen = choose|i: int| is_first_malformed(all, fields, i);
                    assert(chosen == j);
                }
                return Err(
                    DeserError::Coercion(
                        CoercionError {
                            row: row_index,
                            column: j,
                            value_type,
                            text: field.clone(),
                        },
                    ),
                );
            },
        }
        j += 1;
    }
    proof {
        assert forall|i: int| !is_first_malformed(all, fields, i) by {
            if 0 <= i < all.len() {
                assert(coerced(fields[i], all[i].value_type) is Some);
            }
        }
        assert(values.deep_view() =~= Seq::new(
            all.len(),
            |i: int| coerced(fields[i], all[i].value_type)->0,
        ));
    }
    Ok(values)
}

/// Reads a raw table.
///
/// The columns are those of the table's header where `schema_less` is set,
/// and else those of the schema that `store` holds for the table. They are
/// grouped by name and the groups are checked before any row is read. Then
/// the rows are read in order. The first step that fails ends the reading
/// with its error, and no table results.
pub fn deserialize(store: &SchemaStore, raw: &RawTable, schema_less: bool) -> (result: Result<
    Table,
    DeserError,
>)
    ensures
        match result {
            Ok(table) => deserialized(store@, raw@, schema_less) == Ok::<TableView, DeserErrorView>(
                table@,
            ),
            Err(e) => deserialized(store@, raw@, schema_less) == Err::<TableView, DeserErrorView>(
                e@,
            ),
        },
        result matches Ok(table) ==> table@.well_formed(),
{
    proof {
        lemma_deserialized_well_formed(store@, raw@, schema_less);
    }
    let columns = match resolve_columns(store, raw, schema_less) {
        Ok(columns) => columns,
        Err(e) => {
            return Err(DeserError::Defect(e));
        },
    };
    let groups = match reconcile(&raw.label, &columns) {
        Ok(groups) => groups,
        Err(e) => {
            return Err(DeserError::Defect(e));
        },
    };
    let ghost all = columns.deep_view();
    let ghost raw_rows = raw.rows.deep_view();
    let mut rows: Vec<Vec<Value>> = Vec::new();
    let mut r: usize = 0;
    while r < raw.rows.len()
        invariant
            r <= raw.rows.len(),
            all == columns.deep_view(),
            raw_rows == raw.rows.deep_view(),
            resolved_columns(store@, raw@, schema_less) == Ok::<Seq<ColumnView>, ErrorView>(all),
            reconciled(raw@.label, all) == Ok::<Seq<ColumnGroupView>, ErrorView>(
                groups.deep_view(),
            ),
            rows.len() == r,
            forall|q: int|
                0 <= q < r ==> (#[trigger] typed_row(all, raw_rows[q], q as usize)) == Ok::<
                    Seq<ValueView>,
                    DeserErrorView,
                >(rows[q].deep_view()),
        decreases raw.rows.len() - r,
    {
        let raw_fields = raw.rows[r].as_slice();
        assert(raw_fields.deep_view() =~= raw_rows[r as int]);
        match read_row(&columns, raw_fields, r) {
            Ok(values) => {
                rows.push(values);
            },
            Err(e) => {
                proof {
                    assert(is_first_failing_row(all, raw_rows, r as int));
                    assert forall|q: int| is_first_failing_row(all, raw_rows, q) implies q == r by {
                        if q < r {
                            assert(typed_row(all, raw_rows[q], q as usize) is Ok);
                        } else if q > r {
                            assert(typed_row(all, raw_rows[r as int], r) is Err);
                        }
                    }
                    let chosen = choose|q: int| is_first_failing_row(all, raw_rows, q);
                    assert(chosen == r);
                }
                return Err(e);
            },
        }
        r += 1;
    }
    proof {
        assert forall|q: int| !is_first_failing_row(all, raw_rows, q) by {
            if 0 <= q < raw_rows.len() {
                assert(typed_row(all, raw_rows[q], q as usize) is Ok);
            }
        }
        assert(rows.deep_view() =~= Seq::new(
            raw_rows.len(),
            |q: int| typed_row(all, raw_rows[q], q as usize)->Ok_0,
        ));
    }
    Ok(Table { label: raw.label.clone(), columns, groups, rows })
}

/// The text form of typed rows: for each value the field that holds it.
pub open spec fn rendered_rows(rows: Seq<Seq<ValueView>>) -> Seq<Seq<Seq<char>>> {
    Seq::new(rows.len(), |r: int| Seq::new(rows[r].len(), |j: int| rows[r][j].text()))
}

/// The text form of a table: its label, a header that states the label and
/// the type of each column, and the text form of its rows.
pub open spec fn raw_of(table: TableView) -> RawTableView {
    RawTableView {
        label: table.label,
        header: Seq::new(
            table.columns.len(),
            |j: int|
                HeaderColumnView {
                    label: table.columns[j].label,
                    value_type: Some(table.columns[j].value_type),
                },
        ),
        rows: rendered_rows(table.rows),
    }
}

/// What a row holds for a group of columns: one value, or a list of values.
#[derive(Debug, PartialEq, Eq)]
pub enum Cell {
    /// The value of the only column of the group.
    Single(Value),
    /// The values of the columns of the group, in the order of the columns.
    List(Vec<Value>),
}

/// What a [`Cell`] stands for in contracts.
pub enum CellView {
    Single(ValueView),
    List(Seq<ValueView>),
}

impl View for Cell {
    type V = CellView;

    open spec fn view(&self) -> CellView {
        match self {
            Cell::Single(value) => CellView::Single(value@),
            Cell::List(values) => CellView::List(values.deep_view()),
        }
    }
}

impl TableView {
    /// Whether the table has a row `row` and a group `group`, and the row a
    /// value for each member of the group. A well-formed table has such a
    /// value for each of its rows and groups.
    pub open spec fn has_cell(self, row: int, group: int) -> bool {
        &&& 0 <= row < self.rows.len()
        &&& 0 <= group < self.groups.len()
        &&& forall|m: int|
            0 <= m < self.groups[group].members.len() ==> 0 <= (
            #[trigger] self.groups[group].members[m]) < self.rows[row].len()
    }

    /// What row `row` holds for group `group`: the value of the group's
    /// column where it has one column, and else the values of its columns.
    pub open spec fn cell(self, row: int, group: int) -> CellView {
        let members = self.groups[group].members;
        if members.len() == 1 {
            CellView::Single(self.rows[row][members[0]])
        } else {
            CellView::List(Seq::new(members.len(), |m: int| self.rows[row][members[m]]))
        }
    }
}

/// Writes the fields that hold the values of a row.
fn render_row(values: &Vec<Value>) -> (fields: Vec<String>)
    ensures
        fields.deep_view() == Seq::new(values.len() as nat, |j: int| values[j]@.text()),
{
    let mut fields: Vec<String> = Vec::new();
    let mut j: usize = 0;
    while j < values.len()
        invariant
            j <= values.len(),
            fields.len() == j,
            forall|i: int| 0 <= i < j ==> (#[trigger] fields[i])@ == values[i]@.text(),
        decreases values.len() - j,
    {
        fields.push(values[j].to_text());
        j += 1;
    }
    assert(fields.deep_view() =~= Seq::new(values.len() as nat, |j: int| values[j]@.text()));
    fields
}

impl Table {
    /// Writes the rows of the table in their text form.
    pub fn to_rows(&self) -> (rows: Vec<Vec<String>>)
        ensures
            rows.deep_view() == rendered_rows(self@.rows),
    {
        let ghost typed = self.rows.deep_view();
        let mut rows: Vec<Vec<String>> = Vec::new();
        let mut r: usize = 0;
        while r < self.rows.len()
            invariant
                r <= self.rows.len(),
                typed == self.rows.deep_view(),
                rows.len() == r,
                forall|q: int|
                    0 <= q < r ==> (#[trigger] rows[q]).deep_view() == rendered_rows(typed)[q],
            decreases self.rows.len() - r,
        {
            let fields = render_row(&self.rows[r]);
            assert(fields.deep_view() =~= rendered_rows(typed)[r as int]);
            rows.push(fields);
            r += 1;
        }
        assert(rows.deep_view() =~= rendered_rows(typed));
        rows
    }

    /// Writes the table in its text form, with a header that states the type
    /// of each column.
    pub fn to_raw(&self) -> (raw: RawTable)
        ensures
            raw@ == raw_of(self@),
    {
        let mut header: Vec<HeaderColumn> = Vec::new();
        let mut j: usize = 0;
        while j < self.columns.len()
            invariant
                j <= self.columns.len(),
                header.len() == j,
                forall|i: int|
                    0 <= i < j ==> (#[trigger] header[i])@ == (HeaderColumnView {
                        label: self.columns[i]@.label,
                        value_type: Some(self.columns[i]@.value_type),
                    }),
            decreases self.columns.len() - j,
        {
            let column = &self.columns[j];
            header.push(
                HeaderColumn { label: column.label.clone(), value_type: Some(column.value_type) },
            );
            j += 1;
        }
        assert(header.deep_view() =~= raw_of(self@).header);
        RawTable { label: self.label.clone(), header, rows: self.to_rows() }
    }

    /// What row `row` holds for group `group`, both counted from 0: the value
    /// of the group's column where it has one column, and else the values of
    /// its columns in order. Returns `None` where the table has no such row
    /// or group, or the row lacks a value of the group.
    pub fn cell(&self, row: usize, group: usize) -> (cell: Option<Cell>)
        ensures
            match cell {
                Some(c) => self@.has_cell(row as int, group as int) && c@ == self@.cell(
                    row as int,
                    group as int,
                ),
                None => !self@.has_cell(row as int, group as int),
            },
    {
        if row >= self.rows.len() || group >= self.groups.len() {
            return None;
        }
        let values = &self.rows[row];
        let members = &self.groups[group].members;
        let ghost typed = self@.rows[row as int];
        let ghost positions = self@.groups[group as int].members;
        assert(typed == values.deep_view());
        assert(positions == self.groups[group as int]@.members);
        assert(positions.len() == members.len());
        let mut picked: Vec<Value> = Vec::new();
        let mut m: usize = 0;
        while m < members.len()
            invariant
                m <= members.len(),
                row < self.rows.len(),
                group < self.groups.len(),
                typed == self@.rows[row as int],
                typed == values.deep_view(),
                positions == self@.groups[group as int].members,
                positions.len() == members.len(),
                forall|n: int| 0 <= n < members.len() ==> #[trigger] positions[n] == members[n],
                picked.len() == m,
                forall|n: int| 0 <= n < m ==> 0 <= #[trigger] positions[n] < typed.len(),
                forall|n: int| 0 <= n < m ==> (#[trigger] picked[n])@ == typed[positions[n]],
            decreases members.len() - m,
        {
            let position = members[m];
            if position >= values.len() {
                assert(!(0 <= positions[m as int] < typed.len()));
                return None;
            }
            picked.push(values[position].clone());
            m += 1;
        }
        assert(self@.has_cell(row as int, group as int));
        if picked.len() == 1 {
            let only = picked.pop();
            match only {
                Some(value) => Some(Cell::Single(value)),
                None => None,
            }
        } else {
            assert(picked.deep_view() =~= Seq::new(
                positions.len(),
                |n: int| typed[positions[n]],
            ));
            Some(Cell::List(picked))
        }
    }
}

} // verus!
