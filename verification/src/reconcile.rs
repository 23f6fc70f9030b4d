//! The grouping of columns that share a name, and the checks on each group.

use crate::error::{Error, ErrorView, MAX_DUPLICATE_COLUMNS};
use crate::label::{label_name, LabelView, OptLabel};
use crate::schema::{Column, ColumnView};
use crate::value::ValueType;
use vstd::prelude::*;

verus! {

/// The columns of a table that share one name.
#[derive(Debug, PartialEq, Eq)]
pub struct ColumnGroup {
    /// The label of the first column of the group.
    pub label: OptLabel,
    /// The type of the first column of the group.
    pub value_type: ValueType,
    /// The positions of the group's columns in the table, in rising order.
    pub members: Vec<usize>,
}

/// What a [`ColumnGroup`] stands for in contracts.
pub struct ColumnGroupView {
    pub label: Option<LabelView>,
    pub value_type: ValueType,
    pub members: Seq<int>,
}

impl View for ColumnGroup {
    type V = ColumnGroupView;

    open spec fn view(&self) -> ColumnGroupView {
        ColumnGroupView {
            label: self.label@,
            value_type: self.value_type,
            members: self.members@.map_values(|m: usize| m as int),
        }
    }
}

impl DeepView for ColumnGroup {
    type V = ColumnGroupView;

    open spec fn deep_view(&self) -> ColumnGroupView {
        self@
    }
}

/// The name of the column at position `i`.
pub open spec fn column_name(columns: Seq<ColumnView>, i: int) -> Option<Seq<char>> {
    label_name(columns[i].label)
}

/// Whether no column before position `i` has the name of the column there.
pub open spec fn is_leader(columns: Seq<ColumnView>, i: int) -> bool {
    forall|j: int| 0 <= j < i ==> #[trigger] column_name(columns, j) != column_name(columns, i)
}

/// The positions below `n` of the columns that are the first of their name, in
/// rising order.
pub open spec fn leaders_upto(columns: Seq<ColumnView>, n: nat) -> Seq<int>
    decreases n,
{
    if n == 0 {
        Seq::empty()
    } else {
        let rest = leaders_upto(columns, (n - 1) as nat);
        if is_leader(columns, n - 1) {
            rest.push(n - 1)
        } else {
            rest
        }
    }
}

/// The positions below `n` of the columns named `name`, in rising order.
pub open spec fn members_upto(columns: Seq<ColumnView>, name: Option<Seq<char>>, n: nat) -> Seq<
    int,
>
    decreases n,
{
    if n == 0 {
        Seq::empty()
    } else {
        let rest = members_upto(columns, name, (n - 1) as nat);
        if column_name(columns, n - 1) == name {
            rest.push(n - 1)
        } else {
            rest
        }
    }
}

/// The group of the column at position `leader` among the first `n` columns:
/// it has that column's label and type, and holds the columns of its name.
pub open spec fn group_upto(columns: Seq<ColumnView>, leader: int, n: nat) -> ColumnGroupView {
    ColumnGroupView {
        label: columns[leader].label,
        value_type: columns[leader].value_type,
        members: members_upto(columns, column_name(columns, leader), n),
    }
}

/// The groups of the first `n` columns, in the order in which their names
/// first occur.
pub open spec fn grouping_upto(columns: Seq<ColumnView>, n: nat) -> Seq<ColumnGroupView> {
    Seq::new(
        leaders_upto(columns, n).len(),
        |k: int| group_upto(columns, leaders_upto(columns, n)[k], n),
    )
}

/// The groups of `columns`: one for each name, in the order in which the names
/// first occur, each with the positions of the columns of that name in rising
/// order.
pub open spec fn grouping(columns: Seq<ColumnView>) -> Seq<ColumnGroupView> {
    grouping_upto(columns, columns.len())
}

/// Whether group `k` is the first that has more members than are allowed.
pub open spec fn is_first_oversize(groups: Seq<ColumnGroupView>, k: int) -> bool {
    &&& 0 <= k < groups.len()
    &&& groups[k].members.len() > MAX_DUPLICATE_COLUMNS
    &&& forall|j: int| 0 <= j < k ==> (#[trigger] groups[j]).members.len() <= MAX_DUPLICATE_COLUMNS
}

/// Whether the `m`-th member of `group` has another type than the group.
pub open spec fn differs(columns: Seq<ColumnView>, group: ColumnGroupView, m: int) -> bool {
    0 <= m < group.members.len() && columns[group.members[m]].value_type != group.value_type
}

/// Whether the `m`-th member of group `k` is the first column that differs in
/// type from the first column of its name, going through the groups in order
/// and through the members of each in order.
pub open spec fn is_first_mismatch(
    columns: Seq<ColumnView>,
    groups: Seq<ColumnGroupView>,
    k: int,
    m: int,
) -> bool {
    &&& 0 <= k < groups.len()
    &&& differs(columns, groups[k], m)
    &&& forall|n: int| 0 <= n < m ==> !#[trigger] differs(columns, groups[k], n)
    &&& forall|j: int, n: int| 0 <= j < k ==> !#[trigger] differs(columns, groups[j], n)
}

/// What reconciling the columns of `table` yields.
///
/// Where a group has more than [`MAX_DUPLICATE_COLUMNS`] members, the result
/// is `DeserMaxDuplicateColumns` with the label of the first such group.
/// Else, where a column differs in type from the first column of its name, it
/// is `DeserDuplicateMismatch` for the first such column, with the group's
/// label, the type of the group's first column and the type of that column.
/// Else it is the groups.
pub open spec fn reconciled(table: Option<LabelView>, columns: Seq<ColumnView>) -> Result<
    Seq<ColumnGroupView>,
    ErrorView,
> {
    let groups = grouping(columns);
    if exists|k: int| is_first_oversize(groups, k) {
        let k = choose|k: int| is_first_oversize(groups, k);
        Err(ErrorView::DeserMaxDuplicateColumns { table, column: groups[k].label })
    } else if exists|k: int, m: int| is_first_mismatch(columns, groups, k, m) {
        let (k, m) = choose|k: int, m: int| is_first_mismatch(columns, groups, k, m);
        Err(
            ErrorView::DeserDuplicateMismatch {
                table,
                column: groups[k].label,
                first: groups[k].value_type,
                second: columns[groups[k].members[m]].value_type,
            },
        )
    } else {
        Ok(groups)
    }
}

/// The leaders among the first `n` columns are positions below `n`, each the
/// first of its name, in rising order; and every such position is among them.
pub proof fn lemma_leaders(columns: Seq<ColumnView>, n: nat)
    ensures
        forall|k: int|
            0 <= k < leaders_upto(columns, n).len() ==> {
                &&& 0 <= #[trigger] leaders_upto(columns, n)[k] < n
                &&& is_leader(columns, leaders_upto(columns, n)[k])
            },
        forall|j: int, k: int|
            0 <= j < k < leaders_upto(columns, n).len() ==> leaders_upto(columns, n)[j]
                < leaders_upto(columns, n)[k],
        forall|p: int|
            0 <= p < n && is_leader(columns, p) ==> leaders_upto(columns, n).contains(p),
    decreases n,
{
    if n > 0 {
        lemma_leaders(columns, (n - 1) as nat);
        let rest = leaders_upto(columns, (n - 1) as nat);
        let all = leaders_upto(columns, n);
        assert forall|p: int| 0 <= p < n && is_leader(columns, p) implies all.contains(p) by {
            if p == n - 1 {
                assert(all[all.len() - 1] == p);
            } else {
                assert(rest.contains(p));
                let k = choose|k: int| 0 <= k < rest.len() && rest[k] == p;
                assert(all[k] == p);
            }
        }
    }
}

/// Every column below `n` has the name of one of the leaders.
pub proof fn lemma_leader_of(columns: Seq<ColumnView>, n: nat, i: int)
    requires
        0 <= i < n,
    ensures
        exists|k: int|
            0 <= k < leaders_upto(columns, n).len() && column_name(
                columns,
                #[trigger] leaders_upto(columns, n)[k],
            ) == column_name(columns, i),
    decreases i,
{
    lemma_leaders(columns, n);
    let all = leaders_upto(columns, n);
    if is_leader(columns, i) {
        assert(all.contains(i));
        let k = choose|k: int| 0 <= k < all.len() && all[k] == i;
        assert(column_name(columns, all[k]) == column_name(columns, i));
    } else {
        let j = choose|j: int| 0 <= j < i && column_name(columns, j) == column_name(columns, i);
        lemma_leader_of(columns, n, j);
    }
}

/// Two leaders do not have the same name.
pub proof fn lemma_leaders_differ(columns: Seq<ColumnView>, n: nat, j: int, k: int)
    requires
        0 <= j < leaders_upto(columns, n).len(),
        0 <= k < leaders_upto(columns, n).len(),
        j != k,
    ensures
        column_name(columns, leaders_upto(columns, n)[j]) != column_name(
            columns,
            leaders_upto(columns, n)[k],
        ),
{
    lemma_leaders(columns, n);
    let all = leaders_upto(columns, n);
    if j < k {
        assert(all[j] < all[k]);
        assert(is_leader(columns, all[k]));
    } else {
        assert(all[k] < all[j]);
        assert(is_leader(columns, all[j]));
    }
}

/// The members of a name among the first `n` columns are the positions below
/// `n` of the columns of that name, in rising order.
pub proof fn lemma_members(columns: Seq<ColumnView>, name: Option<Seq<char>>, n: nat)
    ensures
        forall|m: int|
            0 <= m < members_upto(columns, name, n).len() ==> {
                &&& 0 <= #[trigger] members_upto(columns, name, n)[m] < n
                &&& column_name(columns, members_upto(columns, name, n)[m]) == name
            },
        forall|l: int, m: int|
            0 <= l < m < members_upto(columns, name, n).len() ==> members_upto(columns, name, n)[l]
                < members_upto(columns, name, n)[m],
        forall|p: int|
            0 <= p < n && column_name(columns, p) == name ==> members_upto(
                columns,
                name,
                n,
            ).contains(p),
    decreases n,
{
    if n > 0 {
        lemma_members(columns, name, (n - 1) as nat);
        let rest = members_upto(columns, name, (n - 1) as nat);
        let all = members_upto(columns, name, n);
        assert forall|p: int| 0 <= p < n && column_name(columns, p) == name implies all.contains(
            p,
        ) by {
            if p == n - 1 {
                assert(all[all.len() - 1] == p);
            } else {
                assert(rest.contains(p));
                let m = choose|m: int| 0 <= m < rest.len() && rest[m] == p;
                assert(all[m] == p);
            }
        }
    }
}

/// A leader is the first member of its group.
pub proof fn lemma_leader_is_first_member(columns: Seq<ColumnView>, n: nat, k: int)
    requires
        0 <= k < leaders_upto(columns, n).len(),
    ensures
        grouping_upto(columns, n)[k].members.len() > 0,
        grouping_upto(columns, n)[k].members[0] == leaders_upto(columns, n)[k],
{
    lemma_leaders(columns, n);
    let p = leaders_upto(columns, n)[k];
    let name = column_name(columns, p);
    lemma_members(columns, name, n);
    let members = members_upto(columns, name, n);
    assert(members.contains(p));
    let m = choose|m: int| 0 <= m < members.len() && members[m] == p;
    if m > 0 {
        assert(members[0] < members[m]);
        assert(column_name(columns, members[0]) == name);
        assert(is_leader(columns, p));
    }
}

/// Where the column at position `i` has the name of group `k` of the columns
/// before it, the groups of the columns up to it are those groups, with `i`
/// added to the members of group `k`.
pub proof fn lemma_grouping_adds_member(columns: Seq<ColumnView>, i: nat, k: int)
    requires
        0 <= k < grouping_upto(columns, i).len(),
        label_name(grouping_upto(columns, i)[k].label) == column_name(columns, i as int),
    ensures
        grouping_upto(columns, i + 1) == grouping_upto(columns, i).update(
            k,
            ColumnGroupView {
                label: grouping_upto(columns, i)[k].label,
                value_type: grouping_upto(columns, i)[k].value_type,
                members: grouping_upto(columns, i)[k].members.push(i as int),
            },
        ),
{
    let before = grouping_upto(columns, i);
    let after = grouping_upto(columns, i + 1);
    let leaders = leaders_upto(columns, i);
    lemma_leaders(columns, i);
    assert(column_name(columns, leaders[k]) == column_name(columns, i as int));
    assert(!is_leader(columns, i as int));
    assert(leaders_upto(columns, i + 1) == leaders);
    let changed = before.update(
        k,
        ColumnGroupView {
            label: before[k].label,
            value_type: before[k].value_type,
            members: before[k].members.push(i as int),
        },
    );
    assert forall|j: int| 0 <= j < after.len() implies after[j] == changed[j] by {
        if j != k {
            lemma_leaders_differ(columns, i, j, k);
        }
    }
    assert(after =~= changed);
}

/// Where the column at position `i` has the name of none of the groups of the
/// columns before it, the groups of the columns up to it are those groups and
/// then a group of that column alone.
pub proof fn lemma_grouping_adds_group(columns: Seq<ColumnView>, i: nat)
    requires
        forall|k: int|
            0 <= k < grouping_upto(columns, i).len() ==> label_name(
                (#[trigger] grouping_upto(columns, i)[k]).label,
            ) != column_name(columns, i as int),
    ensures
        grouping_upto(columns, i + 1) == grouping_upto(columns, i).push(
            ColumnGroupView {
                label: columns[i as int].label,
                value_type: columns[i as int].value_type,
                members: seq![i as int],
            },
        ),
{
    let before = grouping_upto(columns, i);
    let after = grouping_upto(columns, i + 1);
    let leaders = leaders_upto(columns, i);
    let name = column_name(columns, i as int);
    assert forall|j: int| 0 <= j < i implies column_name(columns, j) != name by {
        lemma_leader_of(columns, i, j);
        let k = choose|k: int|
            0 <= k < leaders.len() && column_name(columns, #[trigger] leaders[k]) == column_name(
                columns,
                j,
            );
        assert(label_name(before[k].label) == column_name(columns, j));
    }
    assert(is_leader(columns, i as int));
    assert(leaders_upto(columns, i + 1) == leaders.push(i as int));
    lemma_members(columns, name, i);
    let earlier = members_upto(columns, name, i);
    if earlier.len() > 0 {
        assert(column_name(columns, earlier[0]) == name);
    }
    assert(members_upto(columns, name, i + 1) =~= seq![i as int]);
    let grown = before.push(
        ColumnGroupView {
            label: columns[i as int].label,
            value_type: columns[i as int].value_type,
            members: seq![i as int],
        },
    );
    assert forall|j: int| 0 <= j < after.len() implies after[j] == grown[j] by {
        if j < before.len() {
            assert(label_name(before[j].label) != name);
        }
    }
    assert(after =~= grown);
}

/// The text by which a label is told from others.
fn name_of(label: &OptLabel) -> (name: Option<String>)
    ensures
        name.deep_view() == label_name(label@),
{
    match &label.0 {
        Some(l) => Some(l.text()),
        None => None,
    }
}

/// The names of the columns, in order.
fn column_names(columns: &Vec<Column>) -> (names: Vec<Option<String>>)
    ensures
        names.len() == columns.len(),
        forall|i: int|
            0 <= i < columns.len() ==> (#[trigger] names[i]).deep_view() == column_name(
                columns.deep_view(),
                i,
            ),
{
    let mut names: Vec<Option<String>> = Vec::new();
    let mut i: usize = 0;
    while i < columns.len()
        invariant
            i <= columns.len(),
            names.len() == i,
            forall|j: int|
                0 <= j < i ==> (#[trigger] names[j]).deep_view() == column_name(
                    columns.deep_view(),
                    j,
                ),
        decreases columns.len() - i,
    {
        names.push(name_of(&columns[i].label));
        i += 1;
    }
    names
}

/// Whether two names are the same.
fn same_text(a: &Option<String>, b: &Option<String>) -> (same: bool)
    ensures
        same == (a.deep_view() == b.deep_view()),
{
    match (a, b) {
        (Some(x), Some(y)) => *x == *y,
        (None, None) => true,
        _ => false,
    }
}

/// The position of the group of the first `i` columns that has the name of
/// column `i`, or the number of groups where none has it.
fn find_group(groups: &Vec<ColumnGroup>, names: &Vec<Option<String>>, i: usize) -> (k: usize)
    requires
        i < names.len(),
        forall|k: int|
            0 <= k < groups.len() ==> (#[trigger] groups[k]).members.len() > 0 && groups[k].members[0]
                < i,
    ensures
        k <= groups.len(),
        k < groups.len() ==> names[groups[k as int].members[0] as int].deep_view()
            == names[i as int].deep_view(),
        forall|j: int|
            0 <= j < k ==> names[(#[trigger] groups[j]).members[0] as int].deep_view()
                != names[i as int].deep_view(),
{
    let mut k: usize = 0;
    while k < groups.len()
        invariant
            k <= groups.len(),
            i < names.len(),
            forall|k: int|
                0 <= k < groups.len() ==> (#[trigger] groups[k]).members.len() > 0
                    && groups[k].members[0] < i,
            forall|j: int|
                0 <= j < k ==> names[(#[trigger] groups[j]).members[0] as int].deep_view()
                    != names[i as int].deep_view(),
        decreases groups.len() - k,
    {
        let leader = groups[k].members[0];
        if same_text(&names[leader], &names[i]) {
            return k;
        }
        k += 1;
    }
    k
}

/// Groups the columns by name.
pub fn group_columns(columns: &Vec<Column>) -> (groups: Vec<ColumnGroup>)
    ensures
        groups.deep_view() == grouping(columns.deep_view()),
{
    let ghost all = columns.deep_view();
    let names = column_names(columns);
    let mut groups: Vec<ColumnGroup> = Vec::new();
    let mut i: usize = 0;
    assert(groups.deep_view() =~= grouping_upto(all, 0));
    while i < columns.len()
        invariant
            i <= columns.len(),
            all == columns.deep_view(),
            names.len() == columns.len(),
            forall|j: int|
                0 <= j < columns.len() ==> (#[trigger] names[j]).deep_view() == column_name(all, j),
            groups.deep_view() == grouping_upto(all, i as nat),
        decreases columns.len() - i,
    {
        let ghost before = groups.deep_view();
        proof {
            lemma_leaders(all, i as nat);
            assert(before.len() == groups.len());
            assert(before.len() == leaders_upto(all, i as nat).len());
            assert forall|k: int| 0 <= k < groups.len() implies (#[trigger] groups[k]).members.len()
                > 0 && groups[k].members[0] < i && groups[k].label@ == all[groups[k].members[0] as int].label by {
                lemma_leader_is_first_member(all, i as nat, k);
                assert(before[k] == groups[k]@);
                assert(groups[k]@.members[0] == groups[k].members[0] as int);
                assert(before[k].label == all[leaders_upto(all, i as nat)[k]].label);
            }
        }
        let k = find_group(&groups, &names, i);
        if k < groups.len() {
            proof {
                assert(before[k as int] == groups[k as int]@);
                lemma_grouping_adds_member(all, i as nat, k as int);
            }
            let ghost old_members = groups[k as int].members@;
            groups[k].members.push(i);
            proof {
                let f = |m: usize| m as int;
                assert(groups[k as int].members@.map_values(f) =~= old_members.map_values(f).push(
                    i as int,
                ));
                assert(groups.deep_view() =~= grouping_upto(all, (i + 1) as nat));
            }
        } else {
            proof {
                assert forall|j: int| 0 <= j < before.len() implies label_name(
                    (#[trigger] before[j]).label,
                ) != column_name(all, i as int) by {
                    assert(before[j] == groups[j]@);
                }
                lemma_grouping_adds_group(all, i as nat);
            }
            let mut members: Vec<usize> = Vec::new();
            members.push(i);
            let group = ColumnGroup {
                label: columns[i].label.clone(),
                value_type: columns[i].value_type,
                members,
            };
            proof {
                assert(group@.members =~= seq![i as int]);
                assert(group@.label == all[i as int].label);
            }
            groups.push(group);
            proof {
                assert(groups.deep_view() =~= grouping_upto(all, (i + 1) as nat));
            }
        }
        i += 1;
    }
    groups
}

/// Groups the columns of `table` by name and checks each group.
///
/// The groups come in the order in which their names first occur, and the
/// members of each in the order of the columns. Fails with
/// `DeserMaxDuplicateColumns` where a group has more than
/// [`MAX_DUPLICATE_COLUMNS`] members, naming the first such group, and else
/// with `DeserDuplicateMismatch` where a column differs in type from the
/// first column of its name, for the first such column of the first such
/// group.
pub fn reconcile(table: &OptLabel, columns: &Vec<Column>) -> (result: Result<
    Vec<ColumnGroup>,
    Error,
>)
    ensures
        match result {
            Ok(groups) => reconciled(table@, columns.deep_view()) == Ok::<
                Seq<ColumnGroupView>,
                ErrorView,
            >(groups.deep_view()),
            Err(e) => reconciled(table@, columns.deep_view()) == Err::<
                Seq<ColumnGroupView>,
                ErrorView,
            >(e@),
        },
{
    let ghost all = columns.deep_view();
    let groups = group_columns(columns);
    let ghost views = groups.deep_view();
    assert(views.len() == groups.len());
    let mut k: usize = 0;
    while k < groups.len()
        invariant
            k <= groups.len(),
            all == columns.deep_view(),
            views == groups.deep_view(),
            views == grouping(all),
            forall|j: int| 0 <= j < k ==> (#[trigger] views[j]).members.len() <= MAX_DUPLICATE_COLUMNS,
        decreases groups.len() - k,
    {
        assert(views[k as int] == groups[k as int]@);
        if groups[k].members.len() > MAX_DUPLICATE_COLUMNS {
            proof {
                assert(is_first_oversize(views, k as int));
                assert forall|j: int| is_first_oversize(views, j) implies j == k by {
                    if j < k {
                        assert(views[j].members.len() <= MAX_DUPLICATE_COLUMNS);
                    } else if j > k {
                        assert(views[k as int].members.len() > MAX_DUPLICATE_COLUMNS);
                    }
                }
                let chosen = choose|j: int| is_first_oversize(views, j);
                assert(chosen == k);
            }
            return Err(
                Error::DeserMaxDuplicateColumns(
                    Box::new((table.clone(), groups[k].label.clone())),
                ),
            );
        }
        k += 1;
    }
    assert forall|j: int| !is_first_oversize(views, j) by {
        if 0 <= j < views.len() {
            assert(views[j].members.len() <= MAX_DUPLICATE_COLUMNS);
        }
    }
    let mut k: usize = 0;
    while k < groups.len()
        invariant
            k <= groups.len(),
            all == columns.deep_view(),
            views == groups.deep_view(),
            views == grouping(all),
            forall|j: int| !is_first_oversize(views, j),
            forall|j: int, n: int| 0 <= j < k ==> !#[trigger] differs(all, views[j], n),
        decreases groups.len() - k,
    {
        let group = &groups[k];
        proof {
            assert(views[k as int] == group@);
            let leader = leaders_upto(all, all.len())[k as int];
            lemma_members(all, column_name(all, leader), all.len());
            assert(views.len() == groups.len());
            assert(grouping(all).len() == leaders_upto(all, all.len()).len());
            assert(views[k as int] == group_upto(all, leader, all.len()));
            assert(group@.members.len() == group.members.len());
        }
        let mut m: usize = 0;
        while m < group.members.len()
            invariant
                m <= group.members.len(),
                k < groups.len(),
                all == columns.deep_view(),
                views == groups.deep_view(),
                views == grouping(all),
                views[k as int] == group@,
                forall|n: int|
                    0 <= n < group.members.len() ==> 0 <= (#[trigger] group@.members[n])
                        < columns.len(),
                forall|j: int| !is_first_oversize(views, j),
                forall|j: int, n: int| 0 <= j < k ==> !#[trigger] differs(all, views[j], n),
                forall|n: int| 0 <= n < m ==> !#[trigger] differs(all, views[k as int], n),
            decreases group.members.len() - m,
        {
            let position = group.members[m];
            assert(group@.members[m as int] == position);
            let found = columns[position].value_type;
            assert(found == all[position as int].value_type);
            if found != group.value_type {
                proof {
                    assert(differs(all, views[k as int], m as int));
                    assert(is_first_mismatch(all, views, k as int, m as int));
                    assert forall|j: int, n: int| is_first_mismatch(all, views, j, n) implies j == k
                        && n == m by {
                        if j < k {
                            assert(!differs(all, views[j], n));
                        } else if j > k {
                            assert(differs(all, views[k as int], m as int));
                        } else if n < m {
                            assert(!differs(all, views[k as int], n));
                        } else if n > m {
                            assert(differs(all, views[k as int], m as int));
                        }
                    }
                    let chosen = choose|j: int, n: int| is_first_mismatch(all, views, j, n);
                    assert(chosen.0 == k && chosen.1 == m);
                }
                return Err(
                    Error::DeserDuplicateMismatch(
                        Box::new(
                            (table.clone(), group.label.clone(), group.value_type, found),
                        ),
                    ),
                );
            }
            m += 1;
        }
        proof {
            assert forall|n: int| !#[trigger] differs(all, views[k as int], n) by {}
        }
        k += 1;
    }
    proof {
        assert forall|j: int, n: int| !is_first_mismatch(all, views, j, n) by {
            if 0 <= j < views.len() {
                assert(!differs(all, views[j], n));
            }
        }
    }
    Ok(groups)
}

} // verus!
