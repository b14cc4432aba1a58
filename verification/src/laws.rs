//! Properties that span several operations of the library: what one call
//! undoes, what a later call sees of an earlier one, what every command of
//! a kind leaves unchanged.
use vstd::prelude::*;
use crate::notice::{after_update, cleared, toggled, LoggerView};
use crate::store::{db_added, table_created, DbView, WorkspaceView};
use crate::table::{distinct, find, lemma_find, table_names};
use crate::command::CommandView;
use crate::outside::lowercase_of;
use crate::session::{record_cell, record_values};
use crate::exchange::{csv_fields, csv_header, csv_import, csv_rows, csv_types};
use crate::table::{empty_table, column_names, CellView, ColumnView, TableView};
use crate::order::{group_keys, grouped, GroupView};
use crate::output::{ReplyView, RequestView};
use crate::session::{command_effect, prompt_text, SessionView};
use crate::store::{db_names, workspace_names};
use crate::text::{split_on, all_digits, digit_char, digits_value, int_text, integer_value, nat_text, parse_i32, parse_i64};

verus! {

// ---------------------------------------------------------------------------
// The logger
// ---------------------------------------------------------------------------

/// Switching the setting for positive codes twice gives back the logger.
pub proof fn law_toggle_twice(l: LoggerView)
    ensures
        toggled(toggled(l)) == l,
{
}

/// Logging a code keeps every earlier code and counts one more; switching
/// the setting for positive codes keeps the codes.
pub proof fn law_update_counts(l: LoggerView, code: i32, subject: Seq<char>)
    ensures
        after_update(l, code, subject).codes.len() == l.codes.len() + 1,
        after_update(l, code, subject).codes.last() == code,
        after_update(l, code, subject).codes.take(l.codes.len() as int) == l.codes,
        toggled(l).codes == l.codes,
{
    assert(after_update(l, code, subject).codes.take(l.codes.len() as int) =~= l.codes);
}

/// After a reset no code is counted, and the setting for positive codes
/// stays as it was.
pub proof fn law_reset_forgets(l: LoggerView)
    ensures
        cleared(l).codes.len() == 0,
        cleared(l).positives == l.positives,
{
}

// ---------------------------------------------------------------------------
// Workspaces and databases
// ---------------------------------------------------------------------------

/// Once a database is added it is there, and adding it again changes no
/// database: it only logs the code -3.
pub proof fn law_add_db_twice(w: WorkspaceView, x: Seq<char>)
    requires
        w.wf(),
    ensures
        db_added(w, x).has_db(x),
        db_added(db_added(w, x), x).databases == db_added(w, x).databases,
        db_added(db_added(w, x), x).log.codes == db_added(w, x).log.codes.push(-3i32),
{
    let names = crate::store::db_names(w.databases);
    lemma_find(names, x);
    if !w.has_db(x) {
        let w1 = db_added(w, x);
        assert(crate::store::db_names(w1.databases) =~= names.push(x));
        lemma_find(crate::store::db_names(w1.databases), x);
        assert(crate::store::db_names(w1.databases)[names.len() as int] == x);
    }
}

/// Once a table is created it is there, and creating it again answers -3
/// and changes nothing.
pub proof fn law_create_table_twice(d: DbView, x: Seq<char>, order: Seq<Seq<char>>, model: Seq<Seq<char>>)
    ensures
        table_created(d, x, order, model).1.has_table(x),
        table_created(table_created(d, x, order, model).1, x, order, model)
            == (-3i32, table_created(d, x, order, model).1),
{
    let names = table_names(d.tables);
    lemma_find(names, x);
    if !d.has_table(x) {
        let d1 = table_created(d, x, order, model).1;
        assert(table_names(d1.tables) =~= names.push(x));
        lemma_find(table_names(d1.tables), x);
        assert(table_names(d1.tables)[names.len() as int] == x);
    }
}

// ---------------------------------------------------------------------------
// Integers written and read back
// ---------------------------------------------------------------------------

proof fn lemma_nat_text_reads(n: nat)
    ensures
        nat_text(n).len() > 0,
        all_digits(nat_text(n)),
        digits_value(nat_text(n)) == n,
        nat_text(n)[0] != '-' && nat_text(n)[0] != '+',
    decreases n,
{
    if n < 10 {
        let t = nat_text(n);
        assert(t.drop_last() =~= Seq::<char>::empty());
        assert(digits_value(t) == digits_value(t.drop_last()) * 10 + (t.last() as int - '0' as int));
    } else {
        lemma_nat_text_reads(n / 10);
        let t = nat_text(n);
        assert(t.drop_last() =~= nat_text(n / 10));
        assert(t.last() == digit_char((n % 10) as int));
        assert(digit_char((n % 10) as int) as int - '0' as int == n % 10);
        assert(t[0] == nat_text(n / 10)[0]);
    }
}

/// The decimal text of an integer reads back as that integer: a value
/// written by an export is read back unchanged by an import.
pub proof fn law_integer_text_reads_back(n: int)
    ensures
        integer_value(int_text(n)) == Some(n),
        i32::MIN <= n <= i32::MAX ==> parse_i32(int_text(n)) == Some(n as i32),
        i64::MIN <= n <= i64::MAX ==> parse_i64(int_text(n)) == Some(n as i64),
{
    if n < 0 {
        let m = (-n) as nat;
        lemma_nat_text_reads(m);
        let t = int_text(n);
        assert(t.skip(1) =~= nat_text(m));
    } else {
        lemma_nat_text_reads(n as nat);
    }
}

// ---------------------------------------------------------------------------
// Grouping rows
// ---------------------------------------------------------------------------

/// Whether the row `r` is listed in one of the groups `g`.
pub open spec fn listed(g: Seq<GroupView>, r: int) -> bool {
    exists|j: int, m: int| 0 <= j < g.len() && 0 <= m < g[j].rows.len() && #[trigger] g[j].rows[m] == r
}

/// Grouping rows by key puts every row in exactly one group: the group of
/// its own key. Group keys are distinct, no group is empty, and each group
/// lists its rows once, in increasing order.
pub proof fn law_groups_partition(keys: Seq<Seq<char>>)
    requires
        keys.len() <= usize::MAX,
    ensures
        distinct(group_keys(grouped(keys))),
        forall|j: int| 0 <= j < grouped(keys).len() ==> (#[trigger] grouped(keys)[j]).rows.len() > 0,
        forall|j: int, m: int| 0 <= j < grouped(keys).len() && 0 <= m < grouped(keys)[j].rows.len()
            ==> (#[trigger] grouped(keys)[j].rows[m]) < keys.len()
                && keys[grouped(keys)[j].rows[m] as int] == grouped(keys)[j].key,
        forall|j: int, m1: int, m2: int| 0 <= j < grouped(keys).len() && 0 <= m1 < m2 < grouped(keys)[j].rows.len()
            ==> (#[trigger] grouped(keys)[j].rows[m1]) < (#[trigger] grouped(keys)[j].rows[m2]),
        forall|r: int| 0 <= r < keys.len() ==> #[trigger] listed(grouped(keys), r),
        forall|j1: int, m1: int, j2: int, m2: int|
            0 <= j1 < grouped(keys).len() && 0 <= m1 < grouped(keys)[j1].rows.len()
            && 0 <= j2 < grouped(keys).len() && 0 <= m2 < grouped(keys)[j2].rows.len()
            && #[trigger] grouped(keys)[j1].rows[m1] == #[trigger] grouped(keys)[j2].rows[m2] ==> j1 == j2,
    decreases keys.len(),
{
    lemma_groups_partition(keys);
    let g = grouped(keys);
    assert forall|j1: int, m1: int, j2: int, m2: int|
        0 <= j1 < g.len() && 0 <= m1 < g[j1].rows.len() && 0 <= j2 < g.len() && 0 <= m2 < g[j2].rows.len()
        && #[trigger] g[j1].rows[m1] == #[trigger] g[j2].rows[m2] implies j1 == j2 by {
        assert(group_keys(g)[j1] == g[j1].key);
        assert(group_keys(g)[j2] == g[j2].key);
    }
}

proof fn lemma_groups_partition(keys: Seq<Seq<char>>)
    requires
        keys.len() <= usize::MAX,
    ensures
        distinct(group_keys(grouped(keys))),
        forall|j: int| 0 <= j < grouped(keys).len() ==> (#[trigger] grouped(keys)[j]).rows.len() > 0,
        forall|j: int, m: int| 0 <= j < grouped(keys).len() && 0 <= m < grouped(keys)[j].rows.len()
            ==> (#[trigger] grouped(keys)[j].rows[m]) < keys.len()
                && keys[grouped(keys)[j].rows[m] as int] == grouped(keys)[j].key,
        forall|j: int, m1: int, m2: int| 0 <= j < grouped(keys).len() && 0 <= m1 < m2 < grouped(keys)[j].rows.len()
            ==> (#[trigger] grouped(keys)[j].rows[m1]) < (#[trigger] grouped(keys)[j].rows[m2]),
        forall|r: int| 0 <= r < keys.len() ==> #[trigger] listed(grouped(keys), r),
    decreases keys.len(),
{
    if keys.len() > 0 {
        let k0 = keys.drop_last();
        lemma_groups_partition(k0);
        let g0 = grouped(k0);
        let g = grouped(keys);
        let r = (keys.len() - 1) as usize;
        let key = keys.last();
        lemma_find(group_keys(g0), key);
        assert forall|x: int| 0 <= x < k0.len() implies keys[x] == #[trigger] k0[x] by {}
        match find(group_keys(g0), key) {
            Some(j0) => {
                assert(g == g0.update(j0, GroupView { key: g0[j0].key, rows: g0[j0].rows.push(r) }));
                assert(group_keys(g) =~= group_keys(g0));
                assert forall|j: int, m: int| 0 <= j < g.len() && 0 <= m < g[j].rows.len()
                    implies (#[trigger] g[j].rows[m]) < keys.len() && keys[g[j].rows[m] as int] == g[j].key by {
                    if j == j0 && m == g0[j0].rows.len() {
                    } else {
                        assert(g[j].rows[m] == g0[j].rows[m]);
                    }
                }
                assert forall|j: int, m1: int, m2: int| 0 <= j < g.len() && 0 <= m1 < m2 < g[j].rows.len()
                    implies (#[trigger] g[j].rows[m1]) < (#[trigger] g[j].rows[m2]) by {
                    assert(g[j].rows[m1] == g0[j].rows[m1]);
                    if !(j == j0 && m2 == g0[j0].rows.len()) {
                        assert(g[j].rows[m2] == g0[j].rows[m2]);
                    }
                }
                assert forall|x: int| 0 <= x < keys.len() implies #[trigger] listed(g, x) by {
                    if x == r {
                        assert(g[j0].rows[g0[j0].rows.len() as int] == x);
                    } else {
                        assert(listed(g0, x));
                        let (j, m) = choose|j: int, m: int|
                            0 <= j < g0.len() && 0 <= m < g0[j].rows.len() && #[trigger] g0[j].rows[m] == x;
                        assert(g[j].rows[m] == x);
                    }
                }
            },
            None => {
                let ng = GroupView { key, rows: seq![r] };
                assert(g == g0.push(ng));
                assert(group_keys(g) =~= group_keys(g0).push(key));
                assert forall|j: int, m: int| 0 <= j < g.len() && 0 <= m < g[j].rows.len()
                    implies (#[trigger] g[j].rows[m]) < keys.len() && keys[g[j].rows[m] as int] == g[j].key by {
                    if j < g0.len() {
                        assert(g[j] == g0[j]);
                    }
                }
                assert forall|j: int, m1: int, m2: int| 0 <= j < g.len() && 0 <= m1 < m2 < g[j].rows.len()
                    implies (#[trigger] g[j].rows[m1]) < (#[trigger] g[j].rows[m2]) by {
                    assert(g[j] == g0[j]);
                }
                assert forall|x: int| 0 <= x < keys.len() implies #[trigger] listed(g, x) by {
                    if x == r {
                        assert(g[g0.len() as int].rows[0] == x);
                    } else {
                        assert(listed(g0, x));
                        let (j, m) = choose|j: int, m: int|
                            0 <= j < g0.len() && 0 <= m < g0[j].rows.len() && #[trigger] g0[j].rows[m] == x;
                        assert(g[j] == g0[j]);
                        assert(g[j].rows[m] == x);
                    }
                }
                assert forall|j: int| 0 <= j < g.len() implies (#[trigger] g[j]).rows.len() > 0 by {
                    if j < g0.len() {
                        assert(g[j] == g0[j]);
                    }
                }
            },
        }
    }
}

// ---------------------------------------------------------------------------
// Storing a record
// ---------------------------------------------------------------------------

/// What the field at position `i` stores in the table `t`.
pub open spec fn field_cell(t: TableView, fields: Seq<Seq<char>>, i: int) -> Option<Option<CellView>> {
    record_cell(lowercase_of(t.model[i]), fields[i])
}

/// Appending a value to a stored column changes that column alone and keeps
/// the column names.
pub proof fn lemma_with_value_column(t: TableView, n: Seq<char>, c: CellView, o: Seq<char>)
    requires
        t.wf(),
        t.column(n) is Some,
    ensures
        column_names(t.with_value(n, c).columns) == column_names(t.columns),
        t.with_value(n, c).column(n) == Some(ColumnView { values: t.column(n)->0.values.push(c), ..t.column(n)->0 }),
        o != n ==> t.with_value(n, c).column(o) == t.column(o),
        t.with_value(n, c).wf(),
{
    let names = column_names(t.columns);
    lemma_find(names, n);
    lemma_find(names, o);
    let p = find(names, n)->0;
    let t2 = t.with_value(n, c);
    assert(column_names(t2.columns) =~= names);
}

/// Storing the first `m` fields of a record appends, to the column that
/// each field's position names, the value the field reads as, where its
/// type stores one; every other column, and every other part of the
/// table, stays as it was. The positions must name distinct columns.
pub proof fn law_record_appends(t: TableView, fields: Seq<Seq<char>>, m: int)
    requires
        t.wf(),
        distinct(t.order),
        0 <= m,
    ensures
        record_values(t, fields, m) matches Some(t2) ==> {
            &&& column_names(t2.columns) == column_names(t.columns)
            &&& t2.wf()
            &&& t2.name == t.name && t2.model == t.model && t2.order == t.order
            &&& t2.rows == t.rows && t2.relations == t.relations
            &&& forall|i: int| #![trigger field_cell(t, fields, i)]
                0 <= i < m ==> (field_cell(t, fields, i) matches Some(Some(c))
                ==> t2.column(t.order[i]) == Some(ColumnView {
                    values: t.column(t.order[i])->0.values.push(c),
                    ..t.column(t.order[i])->0
                }))
            &&& forall|i: int| 0 <= i < m && (#[trigger] field_cell(t, fields, i)) == Some(None::<CellView>)
                ==> t2.column(t.order[i]) == t.column(t.order[i])
            &&& forall|n: Seq<char>| !t.order.take(m).contains(n) ==> #[trigger] t2.column(n) == t.column(n)
        },
    decreases m,
{
    if m > 0 {
        law_record_appends(t, fields, m - 1);
        let i = m - 1;
        match record_values(t, fields, m - 1) {
            None => {},
            Some(t1) => {
                if i < t.order.len() && t1.column(t.order[i]) is Some {
                    let o = t.order[i];
                    assert(t.order.take(m - 1).len() == m - 1);
                    assert(!t.order.take(m - 1).contains(o)) by {
                        if t.order.take(m - 1).contains(o) {
                            let q = choose|q: int| 0 <= q < t.order.take(m - 1).len() && #[trigger] t.order.take(m - 1)[q] == o;
                            assert(t.order[q] == o);
                        }
                    }
                    assert(t1.column(o) == t.column(o));
                    assert forall|n: Seq<char>| !t.order.take(m).contains(n) implies !t.order.take(m - 1).contains(n) && n != o by {
                        assert(t.order.take(m)[i] == o);
                        if t.order.take(m - 1).contains(n) {
                            let q = choose|q: int| 0 <= q < t.order.take(m - 1).len() && #[trigger] t.order.take(m - 1)[q] == n;
                            assert(t.order.take(m)[q] == n);
                        }
                    }
                    match field_cell(t, fields, i) {
                        None => {},
                        Some(None) => {},
                        Some(Some(c)) => {
                            assert forall|o2: Seq<char>| #![trigger t1.with_value(o, c).column(o2)]
                                o2 != o implies t1.with_value(o, c).column(o2) == t1.column(o2) by {
                                lemma_with_value_column(t1, o, c, o2);
                            }
                            lemma_with_value_column(t1, o, c, o);
                            assert forall|k: int| 0 <= k < i implies t.order[k] != o by {}
                        },
                    }
                }
            },
        }
    }
}

// ---------------------------------------------------------------------------
// Reading CSV files
// ---------------------------------------------------------------------------

/// The number of lines that could be read.
pub open spec fn readable_count(lines: Seq<Option<Seq<char>>>) -> nat
    decreases lines.len(),
{
    if lines.len() == 0 {
        0
    } else {
        readable_count(lines.drop_last()) + if lines.last() is Some { 1nat } else { 0nat }
    }
}

proof fn lemma_csv_fields_keep_rows(
    t: TableView,
    order: Seq<Seq<char>>,
    model: Seq<Seq<char>>,
    fields: Seq<Seq<char>>,
)
    ensures
        csv_fields(t, order, model, fields) matches Some(t2) ==> t2.rows == t.rows && t2.name == t.name
            && t2.model == t.model && t2.order == t.order,
    decreases fields.len(),
{
    if fields.len() > 0 {
        lemma_csv_fields_keep_rows(t, order, model, fields.drop_last());
    }
}

proof fn lemma_csv_rows_count(
    t: TableView,
    order: Seq<Seq<char>>,
    model: Seq<Seq<char>>,
    lines: Seq<Option<Seq<char>>>,
)
    ensures
        csv_rows(t, order, model, lines) matches Some(t2) ==> t2.rows == t.rows + readable_count(lines)
            && t2.name == t.name && t2.model == t.model && t2.order == t.order,
    decreases lines.len(),
{
    if lines.len() > 0 {
        lemma_csv_rows_count(t, order, model, lines.drop_last());
        match csv_rows(t, order, model, lines.drop_last()) {
            None => {},
            Some(t1) => match lines.last() {
                None => {},
                Some(l) => {
                    lemma_csv_fields_keep_rows(t1, order, model, split_on(l, ','));
                },
            },
        }
    }
}

/// A CSV file read without stopping gives a table named after the file,
/// with the columns of its first line and the types of its second, and one
/// row for each later line that could be read.
pub proof fn law_csv_rows_counted(name: Seq<char>, lines: Seq<Option<Seq<char>>>)
    ensures
        csv_import(name, lines).1 matches Some(t) ==> {
            &&& t.rows == readable_count(lines.skip(2))
            &&& t.name == name
            &&& t.order == csv_header(lines[0]->0)
            &&& t.model == csv_types(lines[1]->0)
        },
{
    if !(lines.len() < 2 || lines[0] is None || lines[1] is None) {
        let order = csv_header(lines[0]->0);
        let model = csv_types(lines[1]->0);
        lemma_csv_rows_count(empty_table(name, model, order), order, model, lines.skip(2));
    }
}

// ---------------------------------------------------------------------------
// Sessions
// ---------------------------------------------------------------------------

/// After `unset all` nothing is active: the prompt is the session's name
/// alone, and no workspace is changed.
pub proof fn law_unset_all_prompt(s: SessionView, s2: SessionView, r: ReplyView)
    requires
        command_effect(s, CommandView::UnsetAll, s2, r),
    ensures
        prompt_text(s2) == s.name,
        s2.workspaces == s.workspaces,
        r.request == RequestView::Continue,
{
    assert(prompt_text(s2) =~= s.name);
}

/// Choosing what is active (`set` and `unset` of a workspace, database or
/// table) never changes a workspace, a database or a table.
pub proof fn law_selection_keeps_data(s: SessionView, c: CommandView, s2: SessionView, r: ReplyView)
    requires
        s.wf(),
        c is SetWorkspace || c is SetDatabase || c is SetTable || c is UnsetAll || c is UnsetDb || c is UnsetTb,
        command_effect(s, c, s2, r),
        !(r.request is Halt),
    ensures
        s2.workspaces == s.workspaces,
        r.request == RequestView::Continue,
{
}

/// A workspace that `create workspace x` made, or found there, can be made
/// active by `set workspace x`; the prompt then reads `name>x`.
pub proof fn law_created_workspace_can_be_set(
    s: SessionView,
    x: Seq<char>,
    s1: SessionView,
    r1: ReplyView,
    s2: SessionView,
    r2: ReplyView,
)
    requires
        s.wf(),
        command_effect(s, CommandView::CreateWorkspace(x), s1, r1),
        command_effect(s1, CommandView::SetWorkspace(x), s2, r2),
    ensures
        r2.request == RequestView::Continue,
        s2.has_ws && s2.ws == x,
        !s2.has_db && !s2.has_tb,
        s2.workspaces == s1.workspaces,
        prompt_text(s2) == s.name + ">"@ + x,
{
    let names = workspace_names(s.workspaces);
    lemma_find(names, x);
    if find(names, x) is None {
        let stamp = choose|stamp: Seq<char>| s1 == SessionView {
            workspaces: s.workspaces.push(#[trigger] crate::store::new_workspace(x, s.name, stamp)),
            ..s
        };
        assert(workspace_names(s1.workspaces) =~= names.push(x));
        lemma_find(workspace_names(s1.workspaces), x);
        assert(workspace_names(s1.workspaces)[names.len() as int] == x);
    } else {
        assert(workspace_names(s1.workspaces) =~= names);
    }
    assert(prompt_text(s2) =~= s.name + ">"@ + x);
}

/// In a session whose active workspace exists, a database that `create
/// database x` made, or found there, can be made active by `set database x`.
pub proof fn law_created_database_can_be_set(
    s: SessionView,
    x: Seq<char>,
    s1: SessionView,
    r1: ReplyView,
    s2: SessionView,
    r2: ReplyView,
)
    requires
        s.wf(),
        s.has_ws,
        s.ws_at() is Some,
        command_effect(s, CommandView::CreateDatabase(x), s1, r1),
        command_effect(s1, CommandView::SetDatabase(x), s2, r2),
    ensures
        r2.request == RequestView::Continue,
        s2.has_db && s2.db == x,
        s2.has_ws && s2.ws == s.ws,
        s2.workspaces == s1.workspaces,
{
    let i = s.ws_at()->0;
    let w = s.workspaces[i];
    let names = workspace_names(s.workspaces);
    lemma_find(names, s.ws);
    assert(workspace_names(s1.workspaces) =~= names);
    let dn = db_names(w.databases);
    lemma_find(dn, x);
    if !w.has_db(x) {
        let w1 = s1.workspaces[i];
        assert(db_names(w1.databases) =~= dn.push(x));
        lemma_find(db_names(w1.databases), x);
        assert(db_names(w1.databases)[dn.len() as int] == x);
    }
}

/// A table removed by `delete table x` can no longer be made active:
/// `set table x` then logs -1005 and changes nothing else.
pub proof fn law_deleted_table_cannot_be_set(
    s: SessionView,
    x: Seq<char>,
    s1: SessionView,
    r1: ReplyView,
    s2: SessionView,
    r2: ReplyView,
)
    requires
        s.wf(),
        s.has_ws && s.has_db,
        s.db_at() is Some,
        command_effect(s, CommandView::DeleteTable(x), s1, r1),
        command_effect(s1, CommandView::SetTable(x), s2, r2),
    ensures
        r2.request == RequestView::Continue,
        s2 == s1.logged(-1005i32),
{
    let (i, j) = s.db_at()->0;
    let d = s.db_view(i, j);
    let names = workspace_names(s.workspaces);
    lemma_find(names, s.ws);
    assert(workspace_names(s1.workspaces) =~= names);
    assert(db_names(s1.workspaces[i].databases) =~= db_names(s.workspaces[i].databases));
    lemma_find(db_names(s.workspaces[i].databases), s.db);
    assert(s.workspaces[i].wf());
    assert(d.wf());
    let tn = table_names(d.tables);
    lemma_find(tn, x);
    if d.has_table(x) {
        let k = find(tn, x)->0;
        let d1 = s1.db_view(i, j);
        assert(d1 == d.without_table(x));
        assert(table_names(d1.tables) =~= tn.remove(k));
        lemma_find(table_names(d1.tables), x);
        if d1.has_table(x) {
            let m = find(table_names(d1.tables), x)->0;
            if m < k {
                assert(tn[m] == x);
            } else {
                assert(tn[m + 1] == x);
            }
        }
    }
}

/// A record that `insert record` stores becomes one more row of the active
/// table: its row count grows by one, each field's value is appended to
/// the column its position names, where its type stores one, and nothing
/// else in the session changes. The table's positions must name distinct
/// columns.
pub proof fn law_insert_record_adds_row(s: SessionView, v: Seq<char>, s2: SessionView, r: ReplyView)
    requires
        s.wf(),
        s.has_tb,
        s.tb_at() is Some,
        ({
            let (i, j, k) = s.tb_at()->0;
            &&& split_on(v, ':').len() == s.table_view(i, j, k).model.len()
            &&& distinct(s.table_view(i, j, k).order)
        }),
        command_effect(s, CommandView::InsertRecord(v), s2, r),
        !(r.request is Halt),
    ensures
        ({
            let (i, j, k) = s.tb_at()->0;
            let t = s.table_view(i, j, k);
            let fields = split_on(v, ':');
            let t2 = s2.table_view(i, j, k);
            &&& r.request == RequestView::Continue
            &&& s2 == s.with_table(i, j, k, t2)
            &&& t2.rows == t.rows + 1
            &&& column_names(t2.columns) == column_names(t.columns)
            &&& forall|f: int| #![trigger field_cell(t, fields, f)]
                0 <= f < t.model.len() ==> (field_cell(t, fields, f) matches Some(Some(c))
                ==> t2.column(t.order[f]) == Some(ColumnView {
                    values: t.column(t.order[f])->0.values.push(c),
                    ..t.column(t.order[f])->0
                }))
        }),
{
    let (i, j, k) = s.tb_at()->0;
    let t = s.table_view(i, j, k);
    let fields = split_on(v, ':');
    lemma_find(workspace_names(s.workspaces), s.ws);
    lemma_find(db_names(s.workspaces[i].databases), s.db);
    lemma_find(table_names(s.workspaces[i].databases[j].tables), s.tb);
    assert(s.workspaces[i].wf());
    assert(s.workspaces[i].databases[j].wf());
    assert(t.wf());
    law_record_appends(t, fields, t.model.len() as int);
    let t2 = record_values(t, fields, t.model.len() as int)->0;
    let t3 = TableView { rows: (t2.rows + 1) as i32, ..t2 };
    assert(s2 == s.with_table(i, j, k, t3));
    assert(s2.table_view(i, j, k) == t3);
    assert forall|f: int| #![trigger field_cell(t, fields, f)]
        0 <= f < t.model.len() implies (field_cell(t, fields, f) matches Some(Some(c))
        ==> t3.column(t.order[f]) == Some(ColumnView {
            values: t.column(t.order[f])->0.values.push(c),
            ..t.column(t.order[f])->0
        })) by {
        assert(t3.column(t.order[f]) == t2.column(t.order[f]));
    }
}

} // verus!
