//! What holds of reading a table, whatever the schema, the columns and the
//! rows are.

use crate::error::{ErrorView, MAX_DUPLICATE_COLUMNS};
use crate::label::{label_name, label_text, LabelView};
use crate::reconcile::{
    column_name, differs, grouping, is_first_mismatch, is_first_oversize, is_leader, leaders_upto,
    lemma_leader_is_first_member, lemma_leader_of, lemma_leaders, lemma_leaders_differ,
    lemma_members, members_upto, reconciled, ColumnGroupView,
};
use crate::schema::{stored_schema, ColumnView, SchemaStoreView, SchemaView};
use crate::table::{
    deserialized, inline_columns, is_first_failing_row, is_first_malformed, lemma_all_rows_read,
    lemma_deserialized_well_formed, lemma_first_failing_row_unique, raw_of, rendered_rows,
    resolved_columns, typed_row, typed_rows, DeserErrorView, RawTableView, TableView,
};
use crate::value::{coerced, lemma_text_round_trip, ValueView};
use vstd::prelude::*;

verus! {

/// The positions of the columns that have the name of the column at `i`.
pub open spec fn namesakes(columns: Seq<ColumnView>, i: int) -> Seq<int> {
    members_upto(columns, column_name(columns, i), columns.len())
}

/// With a stored schema of the expected version, reading yields a table with
/// the label of the raw table and the columns of the schema, in their order
/// and with their types, or it fails with `DeserIncompleteRow`,
/// `DeserMaxDuplicateColumns` or `DeserDuplicateMismatch`. This is stated of
/// the inputs on which reading does not end in a coercion error.
pub proof fn law_valid_schema_outcome(store: SchemaStoreView, raw: RawTableView, schema: SchemaView)
    requires
        stored_schema(store.schemas, raw.label) == Some(schema),
        schema.version == store.expected_version,
        !(deserialized(store, raw, false) matches Err(DeserErrorView::Coercion(_))),
    ensures
        match deserialized(store, raw, false) {
            Ok(table) => {
                &&& table.label == raw.label
                &&& table.columns == schema.columns
                &&& table.rows.len() == raw.rows.len()
                &&& table.well_formed()
            },
            Err(DeserErrorView::Defect(e)) => {
                ||| e is DeserIncompleteRow
                ||| e is DeserMaxDuplicateColumns
                ||| e is DeserDuplicateMismatch
            },
            Err(DeserErrorView::Coercion(_)) => false,
        },
{
    lemma_deserialized_well_formed(store, raw, false);
    let columns = schema.columns;
    if reconciled(raw.label, columns) is Ok {
        if typed_rows(columns, raw.rows) is Err {
            let r = choose|r: int| is_first_failing_row(columns, raw.rows, r);
            assert(typed_row(columns, raw.rows[r], r as usize) is Err);
        }
    }
}

/// A coercion error names a field that does not hold a value of the type of
/// its column, in a row that has a field for each column.
pub proof fn law_coercion_error_names_malformed_field(
    store: SchemaStoreView,
    raw: RawTableView,
    schema_less: bool,
)
    requires
        raw.rows.len() <= usize::MAX,
        resolved_columns(store, raw, schema_less) matches Ok(columns) ==> columns.len()
            <= usize::MAX,
        deserialized(store, raw, schema_less) matches Err(DeserErrorView::Coercion(_)),
    ensures
        ({
            let e = deserialized(store, raw, schema_less)->Err_0->Coercion_0;
            let columns = resolved_columns(store, raw, schema_less)->Ok_0;
            &&& resolved_columns(store, raw, schema_less) is Ok
            &&& 0 <= e.row < raw.rows.len()
            &&& 0 <= e.column < columns.len() <= raw.rows[e.row as int].len()
            &&& e.value_type == columns[e.column as int].value_type
            &&& e.text == raw.rows[e.row as int][e.column as int]
            &&& coerced(e.text, e.value_type) is None
        }),
{
    let columns = resolved_columns(store, raw, schema_less)->Ok_0;
    let r = choose|r: int| is_first_failing_row(columns, raw.rows, r);
    let fields = raw.rows[r].take(columns.len() as int);
    let j = choose|j: int| is_first_malformed(columns, fields, j);
    assert(typed_rows(columns, raw.rows) is Err);
    assert(is_first_failing_row(columns, raw.rows, r));
    assert(typed_row(columns, raw.rows[r], r as usize) matches Err(DeserErrorView::Coercion(_)));
    assert(is_first_malformed(columns, fields, j));
    assert(fields[j] == raw.rows[r][j]);
}

/// Where a schema is to be used and none is stored for the table, reading
/// fails with `DeserMissingSchema`.
pub proof fn law_missing_schema(store: SchemaStoreView, raw: RawTableView)
    requires
        stored_schema(store.schemas, raw.label) is None,
    ensures
        deserialized(store, raw, false) == Err::<TableView, DeserErrorView>(
            DeserErrorView::Defect(ErrorView::DeserMissingSchema),
        ),
{
}

/// Where no schema is to be used and the header leaves the type of a column
/// out, reading fails with `DeserMissingTypeInfo`, which holds the table's
/// label, whatever the store holds.
pub proof fn law_missing_type_info(store: SchemaStoreView, raw: RawTableView, j: int)
    requires
        0 <= j < raw.header.len(),
        raw.header[j].value_type is None,
    ensures
        deserialized(store, raw, true) == Err::<TableView, DeserErrorView>(
            DeserErrorView::Defect(ErrorView::DeserMissingTypeInfo { table: raw.label }),
        ),
{
}

/// With a stored schema of another version than the expected one, reading
/// fails with `DeserOutdatedSchema`, which holds the name of the table, the
/// version found and the version expected.
pub proof fn law_outdated_schema(store: SchemaStoreView, raw: RawTableView, schema: SchemaView)
    requires
        stored_schema(store.schemas, raw.label) == Some(schema),
        schema.version != store.expected_version,
    ensures
        deserialized(store, raw, false) == Err::<TableView, DeserErrorView>(
            DeserErrorView::Defect(
                ErrorView::DeserOutdatedSchema {
                    name: label_text(raw.label),
                    found: schema.version,
                    expected: store.expected_version,
                },
            ),
        ),
{
}

/// Where the columns are resolved and pass the checks on groups, and the rows
/// before row `r` are read, a row `r` with fewer fields than there are columns
/// makes reading fail with `DeserIncompleteRow(r)`.
pub proof fn law_incomplete_row(
    store: SchemaStoreView,
    raw: RawTableView,
    schema_less: bool,
    columns: Seq<ColumnView>,
    r: int,
)
    requires
        resolved_columns(store, raw, schema_less) == Ok::<Seq<ColumnView>, ErrorView>(columns),
        reconciled(raw.label, columns) is Ok,
        0 <= r < raw.rows.len() <= usize::MAX,
        raw.rows[r].len() < columns.len(),
        forall|q: int| 0 <= q < r ==> (#[trigger] typed_row(columns, raw.rows[q], q as usize)) is Ok,
    ensures
        deserialized(store, raw, schema_less) == Err::<TableView, DeserErrorView>(
            DeserErrorView::Defect(ErrorView::DeserIncompleteRow { row: r as usize }),
        ),
{
    assert(is_first_failing_row(columns, raw.rows, r));
    lemma_first_failing_row_unique(columns, raw.rows, r);
}

/// Where the columns are resolved, a row with fewer fields than there are
/// columns makes reading fail.
pub proof fn law_short_row_fails(
    store: SchemaStoreView,
    raw: RawTableView,
    schema_less: bool,
    r: int,
)
    requires
        resolved_columns(store, raw, schema_less) is Ok,
        0 <= r < raw.rows.len(),
        raw.rows[r].len() < resolved_columns(store, raw, schema_less)->Ok_0.len(),
    ensures
        deserialized(store, raw, schema_less) is Err,
{
    let columns = resolved_columns(store, raw, schema_less)->Ok_0;
    if forall|q: int| !is_first_failing_row(columns, raw.rows, q) {
        lemma_all_rows_read(columns, raw.rows, r);
    }
}

/// Reading stops at the first row that fails: two raw tables with the same
/// label and header, and the same rows up to and with that row, fail alike,
/// whatever rows follow.
pub proof fn law_rows_after_failure_are_not_read(
    store: SchemaStoreView,
    raw: RawTableView,
    other: RawTableView,
    schema_less: bool,
    r: int,
)
    requires
        resolved_columns(store, raw, schema_less) is Ok,
        is_first_failing_row(
            resolved_columns(store, raw, schema_less)->Ok_0,
            raw.rows,
            r,
        ),
        other.label == raw.label,
        other.header == raw.header,
        r < other.rows.len(),
        other.rows.take(r + 1) == raw.rows.take(r + 1),
    ensures
        deserialized(store, other, schema_less) == deserialized(store, raw, schema_less),
        deserialized(store, raw, schema_less) is Err,
{
    let columns = resolved_columns(store, raw, schema_less)->Ok_0;
    assert(resolved_columns(store, other, schema_less) == resolved_columns(
        store,
        raw,
        schema_less,
    ));
    assert forall|q: int| 0 <= q <= r implies other.rows[q] == raw.rows[q] by {
        assert(other.rows.take(r + 1)[q] == other.rows[q]);
        assert(raw.rows.take(r + 1)[q] == raw.rows[q]);
    }
    assert(is_first_failing_row(columns, other.rows, r));
    lemma_first_failing_row_unique(columns, raw.rows, r);
    lemma_first_failing_row_unique(columns, other.rows, r);
}

/// The group of the leader at position `i` is the group at the position that
/// `i` has among the leaders.
proof fn lemma_group_of_leader(columns: Seq<ColumnView>, i: int) -> (k: int)
    requires
        0 <= i < columns.len(),
        is_leader(columns, i),
    ensures
        0 <= k < grouping(columns).len(),
        leaders_upto(columns, columns.len())[k] == i,
        grouping(columns)[k].label == columns[i].label,
        grouping(columns)[k].value_type == columns[i].value_type,
        grouping(columns)[k].members == namesakes(columns, i),
{
    lemma_leaders(columns, columns.len());
    let leaders = leaders_upto(columns, columns.len());
    assert(leaders.contains(i));
    choose|k: int| 0 <= k < leaders.len() && leaders[k] == i
}

/// Whether the column at position `i` is a member of one of the groups.
pub open spec fn is_grouped(groups: Seq<ColumnGroupView>, i: int) -> bool {
    exists|k: int, m: int|
        0 <= k < groups.len() && 0 <= m < groups[k].members.len() && #[trigger] groups[k].members[m]
            == i
}

/// The groups that reconciling yields part the columns: each column is a
/// member of the one group of its name. A group has between one and
/// [`MAX_DUPLICATE_COLUMNS`] members, in rising order, the first of which
/// gives the group its label and type, and all of which have that type.
/// Groups come in the order of their first members.
pub proof fn law_reconciled_groups(
    table: Option<LabelView>,
    columns: Seq<ColumnView>,
    groups: Seq<ColumnGroupView>,
)
    requires
        reconciled(table, columns) == Ok::<Seq<ColumnGroupView>, ErrorView>(groups),
    ensures
        forall|k: int|
            0 <= k < groups.len() ==> {
                let group = #[trigger] groups[k];
                &&& 1 <= group.members.len() <= MAX_DUPLICATE_COLUMNS
                &&& group.label == columns[group.members[0]].label
                &&& forall|m: int|
                    0 <= m < group.members.len() ==> {
                        let position = #[trigger] group.members[m];
                        &&& 0 <= position < columns.len()
                        &&& column_name(columns, position) == label_name(group.label)
                        &&& columns[position].value_type == group.value_type
                    }
                &&& forall|l: int, m: int|
                    0 <= l < m < group.members.len() ==> group.members[l] < group.members[m]
            },
        forall|j: int, k: int|
            0 <= j < k < groups.len() ==> groups[j].members[0] < groups[k].members[0]
                && label_name(groups[j].label) != label_name(groups[k].label),
        forall|i: int| 0 <= i < columns.len() ==> #[trigger] is_grouped(groups, i),
{
    let leaders = leaders_upto(columns, columns.len());
    lemma_leaders(columns, columns.len());
    assert(groups == grouping(columns));
    assert forall|k: int| 0 <= k < groups.len() implies {
        let group = #[trigger] groups[k];
        &&& 1 <= group.members.len() <= MAX_DUPLICATE_COLUMNS
        &&& group.members[0] == leaders[k]
        &&& group.label == columns[group.members[0]].label
        &&& forall|m: int|
            0 <= m < group.members.len() ==> {
                let position = #[trigger] group.members[m];
                &&& 0 <= position < columns.len()
                &&& column_name(columns, position) == label_name(group.label)
                &&& columns[position].value_type == group.value_type
            }
        &&& forall|l: int, m: int|
            0 <= l < m < group.members.len() ==> group.members[l] < group.members[m]
    } by {
        let group = groups[k];
        lemma_leader_is_first_member(columns, columns.len(), k);
        lemma_members(columns, column_name(columns, leaders[k]), columns.len());
        lemma_no_first_oversize(groups, k);
        assert forall|m: int| 0 <= m < group.members.len() implies columns[group.members[m]].value_type
            == group.value_type by {
            lemma_no_first_mismatch(columns, groups, k, m);
        }
    }
    assert forall|j: int, k: int| 0 <= j < k < groups.len() implies groups[j].members[0]
        < groups[k].members[0] && label_name(groups[j].label) != label_name(groups[k].label) by {
        assert(groups[j].members[0] == leaders[j]);
        assert(groups[k].members[0] == leaders[k]);
        lemma_leaders_differ(columns, columns.len(), j, k);
    }
    assert forall|i: int| 0 <= i < columns.len() implies #[trigger] is_grouped(groups, i) by {
        lemma_leader_of(columns, columns.len(), i);
        let k = choose|k: int|
            0 <= k < leaders.len() && column_name(columns, #[trigger] leaders[k]) == column_name(
                columns,
                i,
            );
        lemma_members(columns, column_name(columns, leaders[k]), columns.len());
        let members = groups[k].members;
        assert(members.contains(i));
        let m = choose|m: int| 0 <= m < members.len() && members[m] == i;
        assert(groups[k].members[m] == i);
    }
}

/// Where no group is the first that is too large, none is too large.
proof fn lemma_no_first_oversize(groups: Seq<ColumnGroupView>, k: int)
    requires
        forall|j: int| !is_first_oversize(groups, j),
        0 <= k < groups.len(),
    ensures
        groups[k].members.len() <= MAX_DUPLICATE_COLUMNS,
    decreases k,
{
    assert forall|j: int| 0 <= j < k implies (#[trigger] groups[j]).members.len()
        <= MAX_DUPLICATE_COLUMNS by {
        lemma_no_first_oversize(groups, j);
    }
    assert(!is_first_oversize(groups, k));
}

/// Where no member is the first that differs in type from its group, none
/// differs.
proof fn lemma_no_first_mismatch(
    columns: Seq<ColumnView>,
    groups: Seq<ColumnGroupView>,
    k: int,
    m: int,
)
    requires
        forall|j: int, n: int| !is_first_mismatch(columns, groups, j, n),
        0 <= k < groups.len(),
    ensures
        !differs(columns, groups[k], m),
    decreases k, (if m < 0 { 0 } else { m }),
{
    if differs(columns, groups[k], m) {
        assert forall|n: int| 0 <= n < m implies !#[trigger] differs(columns, groups[k], n) by {
            lemma_no_first_mismatch(columns, groups, k, n);
        }
        assert forall|j: int, n: int| 0 <= j < k implies !#[trigger] differs(
            columns,
            groups[j],
            n,
        ) by {
            if 0 <= n < groups[j].members.len() {
                lemma_no_first_mismatch(columns, groups, j, n);
            }
        }
        assert(is_first_mismatch(columns, groups, k, m));
    }
}

/// Where no name is borne by more than [`MAX_DUPLICATE_COLUMNS`] columns, and
/// columns of one name have one type, reconciling yields the groups.
pub proof fn law_uniform_groups_reconcile(table: Option<LabelView>, columns: Seq<ColumnView>)
    requires
        forall|i: int|
            0 <= i < columns.len() ==> (#[trigger] namesakes(columns, i)).len()
                <= MAX_DUPLICATE_COLUMNS,
        forall|i: int, j: int|
            0 <= i < columns.len() && 0 <= j < columns.len() && #[trigger] column_name(columns, i)
                == #[trigger] column_name(columns, j) ==> columns[i].value_type
                == columns[j].value_type,
    ensures
        reconciled(table, columns) == Ok::<Seq<ColumnGroupView>, ErrorView>(grouping(columns)),
{
    let groups = grouping(columns);
    let leaders = leaders_upto(columns, columns.len());
    lemma_leaders(columns, columns.len());
    assert forall|k: int| !is_first_oversize(groups, k) by {
        if 0 <= k < groups.len() {
            assert(groups[k].members == namesakes(columns, leaders[k]));
        }
    }
    assert forall|k: int, m: int| !is_first_mismatch(columns, groups, k, m) by {
        if 0 <= k < groups.len() && 0 <= m < groups[k].members.len() {
            let name = column_name(columns, leaders[k]);
            lemma_members(columns, name, columns.len());
            let position = groups[k].members[m];
            assert(column_name(columns, position) == column_name(columns, leaders[k]));
        }
    }
}

/// Where the column at position `i` is the first of a name that more than
/// [`MAX_DUPLICATE_COLUMNS`] columns bear, and no name that occurs before it
/// is borne by so many, reconciling fails with `DeserMaxDuplicateColumns`,
/// which holds the table's label and the label of that column.
pub proof fn law_oversize_group_is_refused(
    table: Option<LabelView>,
    columns: Seq<ColumnView>,
    i: int,
)
    requires
        0 <= i < columns.len(),
        is_leader(columns, i),
        namesakes(columns, i).len() > MAX_DUPLICATE_COLUMNS,
        forall|j: int|
            0 <= j < i ==> (#[trigger] namesakes(columns, j)).len() <= MAX_DUPLICATE_COLUMNS,
    ensures
        reconciled(table, columns) == Err::<Seq<ColumnGroupView>, ErrorView>(
            ErrorView::DeserMaxDuplicateColumns { table, column: columns[i].label },
        ),
{
    let groups = grouping(columns);
    let leaders = leaders_upto(columns, columns.len());
    let k = lemma_group_of_leader(columns, i);
    lemma_leaders(columns, columns.len());
    assert forall|j: int| 0 <= j < k implies (#[trigger] groups[j]).members.len()
        <= MAX_DUPLICATE_COLUMNS by {
        assert(leaders[j] < leaders[k]);
        assert(groups[j].members == namesakes(columns, leaders[j]));
    }
    assert(is_first_oversize(groups, k));
    let chosen = choose|j: int| is_first_oversize(groups, j);
    if chosen < k {
        assert(groups[chosen].members.len() <= MAX_DUPLICATE_COLUMNS);
    } else if chosen > k {
        assert(groups[k].members.len() <= MAX_DUPLICATE_COLUMNS);
    }
}

/// More than [`MAX_DUPLICATE_COLUMNS`] columns of one name, and none of
/// another, are refused with `DeserMaxDuplicateColumns`, which holds the
/// table's label and the label of the first column.
pub proof fn law_too_many_duplicates(table: Option<LabelView>, columns: Seq<ColumnView>)
    requires
        columns.len() > MAX_DUPLICATE_COLUMNS,
        forall|i: int|
            0 <= i < columns.len() ==> #[trigger] column_name(columns, i) == column_name(
                columns,
                0,
            ),
    ensures
        reconciled(table, columns) == Err::<Seq<ColumnGroupView>, ErrorView>(
            ErrorView::DeserMaxDuplicateColumns { table, column: columns[0].label },
        ),
{
    lemma_all_namesakes(columns, columns.len());
    law_oversize_group_is_refused(table, columns, 0);
}

/// Where the first `n` columns all have the name of the first, each of them is
/// a namesake of the first.
proof fn lemma_all_namesakes(columns: Seq<ColumnView>, n: nat)
    requires
        n <= columns.len(),
        forall|i: int|
            0 <= i < columns.len() ==> #[trigger] column_name(columns, i) == column_name(
                columns,
                0,
            ),
    ensures
        members_upto(columns, column_name(columns, 0), n).len() == n,
    decreases n,
{
    if n > 0 {
        lemma_all_namesakes(columns, (n - 1) as nat);
        assert(column_name(columns, n - 1) == column_name(columns, 0));
    }
}

/// Whether the column at position `j` differs in type from the column at
/// position `i`, which is the first of its name.
pub open spec fn conflicts(columns: Seq<ColumnView>, i: int, j: int) -> bool {
    &&& 0 <= i < j < columns.len()
    &&& is_leader(columns, i)
    &&& column_name(columns, j) == column_name(columns, i)
    &&& columns[j].value_type != columns[i].value_type
}

/// Where no name is borne by more than [`MAX_DUPLICATE_COLUMNS`] columns, and
/// the column at `j` differs in type from the first column of its name, at
/// `i`, and no column of an earlier name and no earlier column of this name
/// differs so, reconciling fails with `DeserDuplicateMismatch`, which holds
/// the table's label, the label of the column at `i`, its type, and the type
/// of the column at `j`.
pub proof fn law_type_conflict_is_refused(
    table: Option<LabelView>,
    columns: Seq<ColumnView>,
    i: int,
    j: int,
)
    requires
        forall|p: int|
            0 <= p < columns.len() ==> (#[trigger] namesakes(columns, p)).len()
                <= MAX_DUPLICATE_COLUMNS,
        conflicts(columns, i, j),
        forall|p: int, q: int| #[trigger] conflicts(columns, p, q) ==> p > i || (p == i && q >= j),
    ensures
        reconciled(table, columns) == Err::<Seq<ColumnGroupView>, ErrorView>(
            ErrorView::DeserDuplicateMismatch {
                table,
                column: columns[i].label,
                first: columns[i].value_type,
                second: columns[j].value_type,
            },
        ),
{
    let groups = grouping(columns);
    let leaders = leaders_upto(columns, columns.len());
    lemma_leaders(columns, columns.len());
    let k = lemma_group_of_leader(columns, i);
    let name = column_name(columns, i);
    lemma_members(columns, name, columns.len());
    let members = groups[k].members;
    assert(members.contains(j));
    let m = choose|m: int| 0 <= m < members.len() && members[m] == j;
    assert forall|g: int| !is_first_oversize(groups, g) by {
        if 0 <= g < groups.len() {
            assert(groups[g].members == namesakes(columns, leaders[g]));
        }
    }
    assert forall|g: int, n: int| 0 <= g < groups.len() && differs(
        columns,
        groups[g],
        n,
    ) implies conflicts(columns, leaders[g], groups[g].members[n]) by {
        lemma_members(columns, column_name(columns, leaders[g]), columns.len());
        lemma_leader_is_first_member(columns, columns.len(), g);
        if n > 0 {
            assert(groups[g].members[0] < groups[g].members[n]);
        }
    }
    assert(differs(columns, groups[k], m));
    assert forall|n: int| 0 <= n < m implies !#[trigger] differs(columns, groups[k], n) by {
        if differs(columns, groups[k], n) {
            assert(conflicts(columns, leaders[k], groups[k].members[n]));
            assert(members[n] < members[m]);
        }
    }
    assert forall|g: int, n: int| 0 <= g < k implies !#[trigger] differs(
        columns,
        groups[g],
        n,
    ) by {
        if differs(columns, groups[g], n) {
            assert(conflicts(columns, leaders[g], groups[g].members[n]));
            assert(leaders[g] < leaders[k]);
        }
    }
    assert(is_first_mismatch(columns, groups, k, m));
    let chosen = choose|g: int, n: int| is_first_mismatch(columns, groups, g, n);
    if chosen.0 < k {
        assert(!differs(columns, groups[chosen.0], chosen.1));
    } else if chosen.0 > k {
        assert(!differs(columns, groups[k], m));
    } else if chosen.1 < m {
        assert(!differs(columns, groups[k], chosen.1));
    } else if chosen.1 > m {
        assert(!differs(columns, groups[k], m));
    }
}

/// Two columns of one name that differ in type are refused with
/// `DeserDuplicateMismatch`, which holds the table's label, the label of the
/// first column, and the two types in the order of the columns.
pub proof fn law_two_columns_conflict(
    table: Option<LabelView>,
    first: ColumnView,
    second: ColumnView,
)
    requires
        label_name(first.label) == label_name(second.label),
        first.value_type != second.value_type,
    ensures
        reconciled(table, seq![first, second]) == Err::<Seq<ColumnGroupView>, ErrorView>(
            ErrorView::DeserDuplicateMismatch {
                table,
                column: first.label,
                first: first.value_type,
                second: second.value_type,
            },
        ),
{
    let columns = seq![first, second];
    assert(columns[0] == first && columns[1] == second);
    assert forall|p: int| 0 <= p < columns.len() implies (#[trigger] namesakes(columns, p)).len()
        <= MAX_DUPLICATE_COLUMNS by {
        lemma_members_bound(columns, column_name(columns, p), 2);
    }
    assert(is_leader(columns, 0));
    assert(conflicts(columns, 0, 1));
    assert forall|p: int, q: int| #[trigger] conflicts(columns, p, q) implies p > 0 || (p == 0 && q
        >= 1) by {}
    law_type_conflict_is_refused(table, columns, 0, 1);
}

/// Among the first `n` columns a name has at most `n` members.
proof fn lemma_members_bound(columns: Seq<ColumnView>, name: Option<Seq<char>>, n: nat)
    ensures
        members_upto(columns, name, n).len() <= n,
    decreases n,
{
    if n > 0 {
        lemma_members_bound(columns, name, (n - 1) as nat);
    }
}

/// A table that was read, written in its text form and read again with the
/// same store and in the same mode, is read as the same table.
pub proof fn law_round_trip(
    store: SchemaStoreView,
    raw: RawTableView,
    schema_less: bool,
    table: TableView,
)
    requires
        deserialized(store, raw, schema_less) == Ok::<TableView, DeserErrorView>(table),
    ensures
        deserialized(
            store,
            RawTableView { label: raw.label, header: raw.header, rows: rendered_rows(table.rows) },
            schema_less,
        ) == Ok::<TableView, DeserErrorView>(table),
{
    lemma_deserialized_well_formed(store, raw, schema_less);
    lemma_rendered_rows_read_back(table);
}

/// A well-formed table, written in its text form with a header that states
/// the types, is read without a schema as the same table.
pub proof fn law_text_form_reads_back(store: SchemaStoreView, table: TableView)
    requires
        table.well_formed(),
    ensures
        deserialized(store, raw_of(table), true) == Ok::<TableView, DeserErrorView>(table),
{
    lemma_rendered_rows_read_back(table);
    let header = raw_of(table).header;
    assert(inline_columns(header)->0 =~= table.columns);
}

/// The text form of the rows of a well-formed table is read as those rows.
proof fn lemma_rendered_rows_read_back(table: TableView)
    requires
        table.well_formed(),
    ensures
        typed_rows(table.columns, rendered_rows(table.rows)) == Ok::<
            Seq<Seq<ValueView>>,
            DeserErrorView,
        >(table.rows),
{
    let columns = table.columns;
    let rows = rendered_rows(table.rows);
    assert forall|r: int| 0 <= r < rows.len() implies typed_row(columns, rows[r], r as usize)
        == Ok::<Seq<ValueView>, DeserErrorView>(table.rows[r]) by {
        let fields = rows[r];
        assert(table.rows[r].len() == columns.len());
        assert(fields.take(columns.len() as int) =~= fields);
        assert forall|j: int| 0 <= j < columns.len() implies coerced(
            fields[j],
            columns[j].value_type,
        ) == Some(table.rows[r][j]) by {
            lemma_text_round_trip(table.rows[r][j]);
        }
        assert forall|j: int| !is_first_malformed(columns, fields, j) by {}
        assert(typed_row(columns, fields, r as usize)->Ok_0 =~= table.rows[r]);
    }
    assert forall|r: int| !is_first_failing_row(columns, rows, r) by {}
    assert(typed_rows(columns, rows)->Ok_0 =~= table.rows);
}

} // verus!
