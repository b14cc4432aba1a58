//! What is active in a session: a table only under a database, a database
//! only under a workspace, and each active one present where it is looked
//! up. Every command but `delete database` and `delete workspace` keeps
//! this so, as do the two steps that finish reading a file into the active
//! database.
use vstd::prelude::*;
use crate::command::CommandView;
use crate::output::ReplyView;
use crate::session::{
    clear_table, command_effect, create_database, create_table, csv_file_finish, csv_finish, delete_table,
    effect_holds, insert_record, new_session, record_values, unknown_types, xml_finish, SessionView,
};
use crate::outside::file_stem_of;
use crate::store::{db_names, new_workspace, workspace_names, DbView, WorkspaceView};
use crate::table::{find, is_first, lemma_find, lemma_first_unique, table_names, TableView};

verus! {

/// Whether what is active in `s` is consistent: a table only under a
/// database, a database only under a workspace, and each active one
/// present.
pub open spec fn selection_ok(s: SessionView) -> bool {
    &&& s.has_tb ==> s.has_db
    &&& s.has_db ==> s.has_ws
    &&& s.has_ws ==> s.ws_at() is Some
    &&& s.has_db ==> s.db_at() is Some
    &&& s.has_tb ==> s.tb_at() is Some
}

proof fn lemma_find_push(names: Seq<Seq<char>>, n: Seq<char>, x: Seq<char>)
    requires
        find(names, n) is Some,
    ensures
        find(names.push(x), n) == find(names, n),
{
    lemma_find(names, n);
    let i = find(names, n)->0;
    let p = names.push(x);
    assert(is_first(p, n, i)) by {
        assert forall|j: int| 0 <= j < i implies p[j] != n by {
            assert(p[j] == names[j]);
        }
    }
    lemma_find(p, n);
    lemma_first_unique(p, n, i, find(p, n)->0);
}

proof fn lemma_with_table_finds(d: DbView, t: TableView, n: Seq<char>)
    requires
        find(table_names(d.tables), n) is Some,
    ensures
        find(table_names(d.with_table(t).tables), n) is Some,
{
    let names = table_names(d.tables);
    lemma_find(names, t.name);
    match find(names, t.name) {
        Some(p) => {
            assert(table_names(d.with_table(t).tables) =~= names);
        },
        None => {
            assert(table_names(d.with_table(t).tables) =~= names.push(t.name));
            lemma_find_push(names, n, t.name);
        },
    }
}

/// Replacing the active database by one of the same name keeps the active
/// workspace and database where they were.
proof fn lemma_with_db_keeps(s: SessionView, i: int, j: int, d2: DbView)
    requires
        s.db_at() == Some((i, j)),
        d2.name == s.db_view(i, j).name,
    ensures
        s.with_db(i, j, d2).ws_at() == Some(i),
        s.with_db(i, j, d2).db_at() == Some((i, j)),
        s.with_db(i, j, d2).db_view(i, j) == d2,
{
    let s2 = s.with_db(i, j, d2);
    lemma_find(workspace_names(s.workspaces), s.ws);
    assert(workspace_names(s2.workspaces) =~= workspace_names(s.workspaces));
    lemma_find(db_names(s.workspaces[i].databases), s.db);
    assert(db_names(s2.workspaces[i].databases) =~= db_names(s.workspaces[i].databases));
}

/// Replacing the active database by one of the same name that still holds
/// the active table keeps the selection consistent.
proof fn lemma_with_db_selection(s: SessionView, i: int, j: int, d2: DbView)
    requires
        selection_ok(s),
        s.db_at() == Some((i, j)),
        d2.name == s.db_view(i, j).name,
        s.has_tb ==> find(table_names(d2.tables), s.tb) is Some,
    ensures
        selection_ok(s.with_db(i, j, d2)),
{
    lemma_with_db_keeps(s, i, j, d2);
}

/// Replacing the active table by one of the same name keeps the selection
/// consistent.
proof fn lemma_with_table_selection(s: SessionView, i: int, j: int, k: int, t: TableView)
    requires
        selection_ok(s),
        s.tb_at() == Some((i, j, k)),
        t.name == s.table_view(i, j, k).name,
    ensures
        selection_ok(s.with_table(i, j, k, t)),
{
    let d = s.db_view(i, j);
    let d2 = DbView { tables: d.tables.update(k, t), ..d };
    lemma_find(table_names(d.tables), s.tb);
    assert(table_names(d2.tables) =~= table_names(d.tables));
    lemma_with_db_selection(s, i, j, d2);
}

/// Logging a code for each unknown type changes nothing but the logger.
pub proof fn lemma_unknown_types_keep(s: SessionView, types: Seq<Seq<char>>, m: int, name: Seq<char>)
    ensures
        (SessionView { log: s.log, ..unknown_types(s, types, m, name).0 }) == s,
    decreases m,
{
    if m > 0 {
        lemma_unknown_types_keep(s, types, m - 1, name);
    }
}

proof fn lemma_record_values_name(t: TableView, fields: Seq<Seq<char>>, m: int)
    ensures
        record_values(t, fields, m) matches Some(t2) ==> t2.name == t.name,
    decreases m,
{
    if m > 0 {
        lemma_record_values_name(t, fields, m - 1);
    }
}

proof fn lemma_create_workspace_selection(s: SessionView, x: Seq<char>, s2: SessionView, r: ReplyView)
    requires
        selection_ok(s),
        command_effect(s, CommandView::CreateWorkspace(x), s2, r),
        !(r.request is Halt),
    ensures
        selection_ok(s2),
{
    let names = workspace_names(s.workspaces);
    if find(names, x) is None {
        let stamp = choose|stamp: Seq<char>| s2 == SessionView {
            workspaces: s.workspaces.push(#[trigger] new_workspace(x, s.name, stamp)),
            ..s
        };
        assert(workspace_names(s2.workspaces) =~= names.push(x));
        if s.has_ws {
            lemma_find_push(names, s.ws, x);
            let i = s.ws_at()->0;
            lemma_find(names, s.ws);
            assert(s2.workspaces[i] == s.workspaces[i]);
        }
    }
}

proof fn lemma_create_database_selection(s: SessionView, x: Seq<char>, s2: SessionView, r: ReplyView)
    requires
        selection_ok(s),
        effect_holds(create_database(s, x), s2, r),
        !(r.request is Halt),
    ensures
        selection_ok(s2),
{
    if s.has_ws {
        let i = s.ws_at()->0;
        let w = s.workspaces[i];
        lemma_find(workspace_names(s.workspaces), s.ws);
        assert(workspace_names(s2.workspaces) =~= workspace_names(s.workspaces));
        let dn = db_names(w.databases);
        if w.has_db(x) {
            assert(db_names(s2.workspaces[i].databases) =~= dn);
        } else {
            assert(db_names(s2.workspaces[i].databases) =~= dn.push(x));
            if s.has_db {
                lemma_find_push(dn, s.db, x);
                let (_, j) = s.db_at()->0;
                lemma_find(dn, s.db);
                assert(s2.workspaces[i].databases[j] == w.databases[j]);
            }
        }
    }
}

proof fn lemma_create_table_selection(
    s: SessionView,
    name: Seq<char>,
    columns: Seq<char>,
    types: Seq<char>,
    s2: SessionView,
    r: ReplyView,
)
    requires
        selection_ok(s),
        effect_holds(create_table(s, name, columns, types), s2, r),
        !(r.request is Halt),
    ensures
        selection_ok(s2),
{
    let x = crate::text::split_on(columns, ':');
    let y = crate::text::split_on(types, ':');
    lemma_unknown_types_keep(s, y, y.len() as int, name);
    if x.len() == y.len() && crate::session::all_known(y) && s.has_ws && s.has_db {
        let (i, j) = s.db_at()->0;
        let t = crate::exchange::with_empty_columns(crate::table::empty_table(name, y, x), x);
        let d = s.db_view(i, j);
        let d2 = d.with_table(t);
        assert(d2.name == d.name);
        if s.has_tb {
            lemma_find(table_names(d.tables), s.tb);
            lemma_with_table_finds(d, t, s.tb);
        }
        lemma_with_db_selection(s, i, j, d2);
    }
}

proof fn lemma_delete_table_selection(s: SessionView, x: Seq<char>, s2: SessionView, r: ReplyView)
    requires
        selection_ok(s),
        effect_holds(delete_table(s, x), s2, r),
        !(r.request is Halt),
    ensures
        selection_ok(s2),
{
    if s.has_db && s.has_ws {
        let (i, j) = s.db_at()->0;
        let d = s.db_view(i, j);
        if d.has_table(x) {
            lemma_with_db_keeps(s, i, j, d.without_table(x));
        }
    }
}

proof fn lemma_insert_record_selection(s: SessionView, v: Seq<char>, s2: SessionView, r: ReplyView)
    requires
        selection_ok(s),
        effect_holds(insert_record(s, v), s2, r),
        !(r.request is Halt),
    ensures
        selection_ok(s2),
{
    if s.has_tb {
        let (i, j, k) = s.tb_at()->0;
        let t = s.table_view(i, j, k);
        let fields = crate::text::split_on(v, ':');
        if fields.len() == t.model.len() {
            lemma_record_values_name(t, fields, t.model.len() as int);
            let t2 = record_values(t, fields, t.model.len() as int)->0;
            lemma_with_table_selection(s, i, j, k, TableView { rows: (t2.rows + 1) as i32, ..t2 });
        }
    }
}

proof fn lemma_clear_table_selection(s: SessionView, s2: SessionView, r: ReplyView)
    requires
        selection_ok(s),
        effect_holds(clear_table(s), s2, r),
        !(r.request is Halt),
    ensures
        selection_ok(s2),
{
    if s.has_tb {
        let (i, j, k) = s.tb_at()->0;
        let t = s.table_view(i, j, k);
        lemma_with_table_selection(s, i, j, k, TableView { columns: Seq::empty(), rows: 0, ..t });
    }
}

/// A new session has nothing active.
pub proof fn law_selection_starts(name: Seq<char>)
    ensures
        selection_ok(new_session(name)),
{
}

/// Every command but `delete database` and `delete workspace` that does not
/// stop the program keeps what is active consistent: a table only under a
/// database, a database only under a workspace, each present. (Those two
/// commands leave the table, or the database and table, active.)
pub proof fn law_selection_stays(s: SessionView, c: CommandView, s2: SessionView, r: ReplyView)
    requires
        selection_ok(s),
        !(c is DeleteDatabase),
        !(c is DeleteWorkspace),
        command_effect(s, c, s2, r),
        !(r.request is Halt),
    ensures
        selection_ok(s2),
{
    match c {
        CommandView::CreateWorkspace(x) => lemma_create_workspace_selection(s, x, s2, r),
        CommandView::CreateDatabase(x) => lemma_create_database_selection(s, x, s2, r),
        CommandView::CreateTable { name, columns, types } => lemma_create_table_selection(s, name, columns, types, s2, r),
        CommandView::DeleteTable(x) => lemma_delete_table_selection(s, x, s2, r),
        CommandView::InsertRecord(v) => lemma_insert_record_selection(s, v, s2, r),
        CommandView::ClearTable => lemma_clear_table_selection(s, s2, r),
        CommandView::SetWorkspace(x) => {
            lemma_find(workspace_names(s.workspaces), x);
        },
        CommandView::SetDatabase(x) => {
            if s.has_ws {
                let i = s.ws_at()->0;
                lemma_find(db_names(s.workspaces[i].databases), x);
            }
        },
        CommandView::SetTable(x) => {
            if s.has_db && s.has_ws {
                let (i, j) = s.db_at()->0;
                lemma_find(table_names(s.db_view(i, j).tables), x);
            }
        },
        _ => {},
    }
}

/// Reading a CSV file into the active database keeps what is active
/// consistent.
pub proof fn law_selection_stays_after_csv(
    s: SessionView,
    read: Option<(Seq<char>, Seq<Option<Seq<char>>>)>,
    s2: SessionView,
    r: ReplyView,
)
    requires
        selection_ok(s),
        s.db_at() is Some,
        effect_holds(csv_finish(s, read), s2, r),
        !(r.request is Halt),
    ensures
        selection_ok(s2),
{
    match read {
        None => {},
        Some((name, lines)) => {
            let (shown, t, halted) = crate::exchange::csv_import(name, lines);
            if !halted && t is Some {
                let (i, j) = s.db_at()->0;
                let d = s.db_view(i, j);
                if s.has_tb {
                    lemma_find(table_names(d.tables), s.tb);
                    lemma_with_table_finds(d, t->0, s.tb);
                }
                lemma_with_db_selection(s, i, j, d.with_table(t->0));
            }
        },
    }
}

/// Reading an XML export into the active database keeps what is active
/// consistent.
pub proof fn law_selection_stays_after_xml(
    s: SessionView,
    file: Seq<char>,
    contents: Seq<char>,
    s2: SessionView,
    r: ReplyView,
)
    requires
        selection_ok(s),
        effect_holds(xml_finish(s, file, contents), s2, r),
        !(r.request is Halt),
    ensures
        selection_ok(s2),
{
    match crate::exchange::xml_import(file, contents) {
        None => {},
        Some(t) => match s.db_at() {
            None => {},
            Some((i, j)) => {
                let d = s.db_view(i, j);
                if s.has_tb {
                    lemma_find(table_names(d.tables), s.tb);
                    lemma_with_table_finds(d, t, s.tb);
                }
                lemma_with_db_selection(s, i, j, d.with_table(t));
            },
        },
    }
}

/// Reading a CSV file at a path into the active database keeps what is
/// active consistent.
pub proof fn law_selection_stays_after_csv_file(
    s: SessionView,
    path: Seq<char>,
    lines: Option<Seq<Option<Seq<char>>>>,
    s2: SessionView,
    r: ReplyView,
)
    requires
        selection_ok(s),
        s.db_at() is Some,
        effect_holds(csv_file_finish(s, path, lines), s2, r),
        !(r.request is Halt),
    ensures
        selection_ok(s2),
{
    match lines {
        None => {},
        Some(ls) => match file_stem_of(path) {
            None => {},
            Some(name) => law_selection_stays_after_csv(s, Some((name, ls)), s2, r),
        },
    }
}

/// One step of a session between two prompts: a command, or the reading of
/// a CSV file or an XML export that a command asked for, with its reply.
pub enum Step {
    Command(CommandView, ReplyView),
    CsvFile(Seq<char>, Option<Seq<Option<Seq<char>>>>, ReplyView),
    XmlFile(Seq<char>, Seq<char>, ReplyView),
}

/// Whether going from `s` to `s2` is the step `st` of a session that goes
/// on: the step does not stop the program, and no command deletes a
/// database or a workspace. A file is read into the active database only
/// where there is one, as the reading command makes sure.
pub open spec fn step_holds(s: SessionView, st: Step, s2: SessionView) -> bool {
    match st {
        Step::Command(c, r) => {
            &&& !(c is DeleteDatabase)
            &&& !(c is DeleteWorkspace)
            &&& command_effect(s, c, s2, r)
            &&& !(r.request is Halt)
        },
        Step::CsvFile(path, lines, r) => {
            &&& s.db_at() is Some
            &&& effect_holds(csv_file_finish(s, path, lines), s2, r)
            &&& !(r.request is Halt)
        },
        Step::XmlFile(file, contents, r) => {
            &&& effect_holds(xml_finish(s, file, contents), s2, r)
            &&& !(r.request is Halt)
        },
    }
}

proof fn lemma_step_selection(s: SessionView, st: Step, s2: SessionView)
    requires
        selection_ok(s),
        step_holds(s, st, s2),
    ensures
        selection_ok(s2),
        s2.name == s.name,
{
    match st {
        Step::Command(c, r) => {
            law_selection_stays(s, c, s2, r);
            lemma_command_keeps_name(s, c, s2, r);
        },
        Step::CsvFile(path, lines, r) => {
            law_selection_stays_after_csv_file(s, path, lines, s2, r);
            lemma_csv_keeps_name(s, path, lines, s2, r);
        },
        Step::XmlFile(file, contents, r) => {
            law_selection_stays_after_xml(s, file, contents, s2, r);
        },
    }
}

proof fn lemma_command_keeps_name(s: SessionView, c: CommandView, s2: SessionView, r: ReplyView)
    requires
        command_effect(s, c, s2, r),
        !(r.request is Halt),
    ensures
        s2.name == s.name,
{
    match c {
        CommandView::CreateWorkspace(x) => {
            if find(workspace_names(s.workspaces), x) is None {
                let stamp = choose|stamp: Seq<char>| s2 == SessionView {
                    workspaces: s.workspaces.push(#[trigger] new_workspace(x, s.name, stamp)),
                    ..s
                };
            }
        },
        CommandView::CreateTable { name, columns, types } => {
            let y = crate::text::split_on(types, ':');
            lemma_unknown_types_keep(s, y, y.len() as int, name);
        },
        _ => {},
    }
}

proof fn lemma_csv_keeps_name(
    s: SessionView,
    path: Seq<char>,
    lines: Option<Seq<Option<Seq<char>>>>,
    s2: SessionView,
    r: ReplyView,
)
    requires
        effect_holds(csv_file_finish(s, path, lines), s2, r),
        !(r.request is Halt),
    ensures
        s2.name == s.name,
{
}

/// Before every prompt of a session that goes on without deleting a
/// database or a workspace, what is active is consistent: a table only
/// under a database, a database only under a workspace, each present where
/// it is looked up; and the session keeps its name, so the prompt is that
/// name followed by `>` and each active name.
pub proof fn law_selection_every_prompt(name: Seq<char>, steps: Seq<Step>, states: Seq<SessionView>)
    requires
        states.len() == steps.len() + 1,
        states[0] == new_session(name),
        forall|i: int| 0 <= i < steps.len() ==> step_holds(#[trigger] states[i], steps[i], states[i + 1]),
    ensures
        forall|i: int| 0 <= i < states.len() ==> selection_ok(#[trigger] states[i]) && states[i].name == name,
    decreases steps.len(),
{
    if steps.len() > 0 {
        let n = steps.len() - 1;
        law_selection_every_prompt(name, steps.take(n), states.take(n + 1));
        assert forall|i: int| 0 <= i < states.len() implies selection_ok(#[trigger] states[i]) && states[i].name == name by {
            if i <= n {
                assert(states.take(n + 1)[i] == states[i]);
            } else {
                assert(states.take(n + 1)[n] == states[n]);
                assert(step_holds(states[n], steps[n], states[n + 1]));
                lemma_step_selection(states[n], steps[n], states[n + 1]);
            }
        }
    }
}

} // verus!
