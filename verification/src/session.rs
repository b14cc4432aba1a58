//! A session: the workspaces created in it, the workspace, database and
//! table set as active, and the logger of the session's own codes. Each
//! line of input is a command; running it changes the session and gives
//! the lines to show and what the caller must do next.
use vstd::prelude::*;
use crate::notice::{fresh_logger, init_Logger, is_shown, notice_for, Logger, LoggerView, Notice, NoticeView};
use crate::output::{
    append_notices, append_outputs, line_of, output_views, text_line, Output, OutputView, Piece,
    PieceView, Reply, ReplyView, Request, RequestView, piece_views,
};
use crate::store::{
    create_workspace, db_names, new_workspace, workspace_names, workspace_views, Db, DbView,
    Workspace, WorkspaceView,
};
use crate::table::{
    distinct, find, is_first, lemma_find, lemma_first_unique, table_names, Table, TableView,
};
use crate::text::{joined, split_on, split_text, texts, text_is, replace_all, replace_text, parse_i32, parse_i64, parse_i32_text, parse_i64_text, is_float_text, float_text_ok, nat_text, int_text};
use crate::table::{shown_as, Cell, CellView, ColumnView, empty_table};
use crate::exchange::{with_empty_columns, row_bound, row_bound_of, export, export_table, Format};
use crate::command::{ExportKind, ExportKindView, Command, CommandView, command_of, parse_command};
use crate::store::workspace_lines;
use crate::order::{group_rows, aggregate, grouped, aggregate_lines, stable_order, stably_sorted};
use crate::exchange::{csv_import, import_csv, xml_import, import_xml};
use crate::outside::{file_stem_of, file_stem_text, lowercase, lowercase_of, path_debug_of, path_debug_text};

verus! {

/// A session.
pub struct Session {
    name: String,
    workspaces: Vec<Workspace>,
    a_ws: String,
    a_db: String,
    a_tb: String,
    b_ws: bool,
    b_db: bool,
    b_tb: bool,
    logger: Logger,
}

pub struct SessionView {
    pub name: Seq<char>,
    pub workspaces: Seq<WorkspaceView>,
    pub ws: Seq<char>,
    pub db: Seq<char>,
    pub tb: Seq<char>,
    pub has_ws: bool,
    pub has_db: bool,
    pub has_tb: bool,
    pub log: LoggerView,
}

impl View for Session {
    type V = SessionView;

    closed spec fn view(&self) -> SessionView {
        SessionView {
            name: self.name@,
            workspaces: workspace_views(self.workspaces@),
            ws: self.a_ws@,
            db: self.a_db@,
            tb: self.a_tb@,
            has_ws: self.b_ws,
            has_db: self.b_db,
            has_tb: self.b_tb,
            log: self.logger@,
        }
    }
}

/// The lines a notice of `code` with subject `subject` adds: one where the
/// logger shows the code, none otherwise.
pub open spec fn notice_outputs(code: i32, subject: Seq<char>, positives: bool) -> Seq<OutputView> {
    if is_shown(code, positives) {
        seq![OutputView::Notice(notice_for(code, subject))]
    } else {
        Seq::empty()
    }
}

/// The empty line that ends a command.
pub open spec fn blank() -> Seq<OutputView> {
    seq![OutputView::Blank]
}

impl SessionView {
    /// Workspace names are distinct, every workspace is well formed, and no
    /// logger holds a notice not yet handed out.
    pub open spec fn wf(self) -> bool {
        &&& distinct(workspace_names(self.workspaces))
        &&& forall|i: int| 0 <= i < self.workspaces.len() ==> (#[trigger] self.workspaces[i]).wf()
            && self.workspaces[i].log.shown.len() == 0
        &&& self.log.shown.len() == 0
    }

    /// The session with `code` logged.
    pub open spec fn logged(self, code: i32) -> SessionView {
        SessionView { log: LoggerView { codes: self.log.codes.push(code), ..self.log }, ..self }
    }

    /// The position of the active workspace.
    pub open spec fn ws_at(self) -> Option<int> {
        find(workspace_names(self.workspaces), self.ws)
    }

    /// The positions of the active workspace and database.
    pub open spec fn db_at(self) -> Option<(int, int)> {
        match self.ws_at() {
            Some(i) => match find(db_names(self.workspaces[i].databases), self.db) {
                Some(j) => Some((i, j)),
                None => None,
            },
            None => None,
        }
    }

    /// The positions of the active workspace, database and table.
    pub open spec fn tb_at(self) -> Option<(int, int, int)> {
        match self.db_at() {
            Some((i, j)) => match find(table_names(self.workspaces[i].databases[j].tables), self.tb) {
                Some(k) => Some((i, j, k)),
                None => None,
            },
            None => None,
        }
    }

    /// The database at positions `i`, `j`.
    pub open spec fn db_view(self, i: int, j: int) -> DbView {
        self.workspaces[i].databases[j]
    }

    /// The table at positions `i`, `j`, `k`.
    pub open spec fn table_view(self, i: int, j: int, k: int) -> TableView {
        self.workspaces[i].databases[j].tables[k]
    }

    /// The session with the workspace at `i` replaced by `w`.
    pub open spec fn with_ws(self, i: int, w: WorkspaceView) -> SessionView {
        SessionView { workspaces: self.workspaces.update(i, w), ..self }
    }

    /// The session with the database at `i`, `j` replaced by `d`.
    pub open spec fn with_db(self, i: int, j: int, d: DbView) -> SessionView {
        self.with_ws(i, WorkspaceView { databases: self.workspaces[i].databases.update(j, d), ..self.workspaces[i] })
    }

    /// The session with the table at `i`, `j`, `k` replaced by `t`.
    pub open spec fn with_table(self, i: int, j: int, k: int, t: TableView) -> SessionView {
        self.with_db(i, j, DbView { tables: self.db_view(i, j).tables.update(k, t), ..self.db_view(i, j) })
    }
}

/// What a command does: the session after it, the lines shown, and what
/// the caller must do next.
pub struct Effect {
    pub state: SessionView,
    pub outputs: Seq<OutputView>,
    pub request: RequestView,
}

/// Whether the session `s2` and the reply `r` are what the effect `e`
/// says. Where the program stops, the session is not looked at and the
/// message is free.
pub open spec fn effect_holds(e: Effect, s2: SessionView, r: ReplyView) -> bool {
    &&& r.outputs == e.outputs
    &&& if e.request is Halt {
        r.request is Halt
    } else {
        r.request == e.request && s2 == e.state
    }
}

/// The program stops with the lines `outputs` shown.
pub open spec fn halt(s: SessionView, outputs: Seq<OutputView>) -> Effect {
    Effect { state: s, outputs, request: RequestView::Halt(Seq::empty()) }
}

/// The session becomes `s`, shows `outputs`, and reads the next command.
pub open spec fn go_on(s: SessionView, outputs: Seq<OutputView>) -> Effect {
    Effect { state: s, outputs, request: RequestView::Continue }
}

/// Logs `code` with subject `subject` and ends the command.
pub open spec fn log_effect(s: SessionView, code: i32, subject: Seq<char>) -> Effect {
    go_on(s.logged(code), notice_outputs(code, subject, s.log.positives) + blank())
}

/// The prompt shown before a command: the session name, then `>` and the
/// name of each active workspace, database and table.
pub open spec fn prompt_text(s: SessionView) -> Seq<char> {
    s.name + (if s.has_ws { ">"@ + s.ws } else { Seq::empty() }) + (if s.has_db { ">"@ + s.db } else {
        Seq::empty()
    }) + (if s.has_tb { ">"@ + s.tb } else { Seq::empty() })
}

/// A new session named `name`: no workspaces, nothing active, nothing logged.
pub open spec fn new_session(name: Seq<char>) -> SessionView {
    SessionView {
        name,
        workspaces: Seq::empty(),
        ws: Seq::empty(),
        db: Seq::empty(),
        tb: Seq::empty(),
        has_ws: false,
        has_db: false,
        has_tb: false,
        log: fresh_logger(),
    }
}

impl Session {
    /// A new session named `name`.
    pub fn new(name: String) -> (s: Session)
        ensures
            s@ == new_session(name@),
            s@.wf(),
    {
        let s = Session {
            name,
            workspaces: Vec::new(),
            a_ws: String::new(),
            a_db: String::new(),
            a_tb: String::new(),
            b_ws: false,
            b_db: false,
            b_tb: false,
            logger: init_Logger(),
        };
        assert(workspace_views(s.workspaces@) =~= Seq::<WorkspaceView>::empty());
        s
    }

    /// The prompt shown before a command.
    pub fn prompt(&self) -> (r: String)
        ensures
            r@ == prompt_text(self@),
    {
        let mut dir = String::new();
        dir.append(self.name.as_str());
        let ghost d0 = dir@;
        if self.b_ws {
            dir.append(">");
            dir.append(self.a_ws.as_str());
        }
        let ghost d1 = dir@;
        if self.b_db {
            dir.append(">");
            dir.append(self.a_db.as_str());
        }
        let ghost d2 = dir@;
        if self.b_tb {
            dir.append(">");
            dir.append(self.a_tb.as_str());
        }
        proof {
            reveal_strlit("");
            assert(d0 =~= self.name@);
            assert(d1 =~= d0 + (if self.b_ws { ">"@ + self.a_ws@ } else { Seq::empty() }));
            assert(d2 =~= d1 + (if self.b_db { ">"@ + self.a_db@ } else { Seq::empty() }));
            assert(dir@ =~= d2 + (if self.b_tb { ">"@ + self.a_tb@ } else { Seq::empty() }));
        }
        dir
    }

    /// Logs `code` with subject `subject` in the session's logger and adds
    /// its notice to `out` where it is shown.
    fn note(&mut self, code: i32, subject: String, out: &mut Vec<Output>)
        requires
            old(self)@.log.shown.len() == 0,
        ensures
            final(self)@ == old(self)@.logged(code),
            output_views(final(out)@) == output_views(old(out)@) + notice_outputs(code, subject@, old(self)@.log.positives),
    {
        let ghost n = notice_for(code, subject@);
        self.logger.update(code, subject);
        let ns = self.logger.take_notices();
        proof {
            if is_shown(code, old(self)@.log.positives) {
                assert(ns@.map_values(|x: Notice| OutputView::Notice(x@)) =~= seq![OutputView::Notice(n)]) by {
                    assert(ns@.map_values(|x: Notice| x@) == seq![n]);
                    assert(ns@.map_values(|n: Notice| n@).len() == ns@.len());
                    assert(ns@.len() == 1);
                    assert(ns@.map_values(|x: Notice| x@)[0] == ns@[0]@);
                }
            } else {
                assert(ns@.map_values(|x: Notice| x@).len() == 0);
                assert(ns@.map_values(|x: Notice| OutputView::Notice(x@)) =~= Seq::<OutputView>::empty());
            }
            assert(old(self)@.log.shown =~= Seq::<NoticeView>::empty());
            assert(self@.log =~= old(self)@.logged(code).log);
            assert(self@ =~= old(self)@.logged(code));
        }
        append_notices(out, ns);
    }

    /// The position of the active workspace.
    pub fn resolve_ws(&self) -> (r: Option<usize>)
        ensures
            r matches Some(i) ==> self@.ws_at() == Some(i as int),
            r is None ==> self@.ws_at() is None,
    {
        let mut i: usize = 0;
        while i < self.workspaces.len()
            invariant
                i <= self.workspaces.len(),
                workspace_views(self.workspaces@) == self@.workspaces,
                forall|j: int| 0 <= j < i ==> workspace_names(self@.workspaces)[j] != self@.ws,
            decreases self.workspaces.len() - i,
        {
            if *self.workspaces[i].getName() == self.a_ws {
                proof {
                    let names = workspace_names(self@.workspaces);
                    assert(is_first(names, self@.ws, i as int));
                    lemma_find(names, self@.ws);
                    lemma_first_unique(names, self@.ws, i as int, find(names, self@.ws)->0);
                }
                return Some(i);
            }
            i = i + 1;
        }
        proof {
            lemma_find(workspace_names(self@.workspaces), self@.ws);
        }
        None
    }

    /// The position of the workspace named `n`.
    pub fn find_ws(&self, n: &String) -> (r: Option<usize>)
        ensures
            r matches Some(i) ==> find(workspace_names(self@.workspaces), n@) == Some(i as int),
            r is None ==> find(workspace_names(self@.workspaces), n@) is None,
    {
        let mut i: usize = 0;
        while i < self.workspaces.len()
            invariant
                i <= self.workspaces.len(),
                workspace_views(self.workspaces@) == self@.workspaces,
                forall|j: int| 0 <= j < i ==> workspace_names(self@.workspaces)[j] != n@,
            decreases self.workspaces.len() - i,
        {
            if *self.workspaces[i].getName() == *n {
                proof {
                    let names = workspace_names(self@.workspaces);
                    assert(is_first(names, n@, i as int));
                    lemma_find(names, n@);
                    lemma_first_unique(names, n@, i as int, find(names, n@)->0);
                }
                return Some(i);
            }
            i = i + 1;
        }
        proof {
            lemma_find(workspace_names(self@.workspaces), n@);
        }
        None
    }

    /// The positions of the active workspace and database.
    pub fn resolve_db(&self) -> (r: Option<(usize, usize)>)
        ensures
            r matches Some((i, j)) ==> self@.db_at() == Some((i as int, j as int)) && i < self@.workspaces.len()
                && j < self@.workspaces[i as int].databases.len(),
            r is None ==> self@.db_at() is None,
    {
        let i = match self.resolve_ws() {
            Some(i) => i,
            None => {
                return None;
            },
        };
        proof {
            lemma_find(workspace_names(self@.workspaces), self@.ws);
        }
        assert(self.workspaces@[i as int]@ == self@.workspaces[i as int]);
        match self.workspaces[i].find_db(&self.a_db) {
            Some(j) => {
                proof {
                    lemma_find(db_names(self@.workspaces[i as int].databases), self@.db);
                }
                Some((i, j))
            },
            None => None,
        }
    }

    /// The positions of the active workspace, database and table.
    pub fn resolve_tb(&self) -> (r: Option<(usize, usize, usize)>)
        ensures
            r matches Some((i, j, k)) ==> self@.tb_at() == Some((i as int, j as int, k as int)) && i
                < self@.workspaces.len() && j < self@.workspaces[i as int].databases.len() && k
                < self@.db_view(i as int, j as int).tables.len(),
            r is None ==> self@.tb_at() is None,
    {
        let (i, j) = match self.resolve_db() {
            Some(p) => p,
            None => {
                return None;
            },
        };
        assert(self.workspaces@[i as int]@ == self@.workspaces[i as int]);
        let d = self.workspaces[i].db_ref(j);
        match d.find_table(&self.a_tb) {
            Some(k) => {
                proof {
                    lemma_find(table_names(self@.db_view(i as int, j as int).tables), self@.tb);
                }
                Some((i, j, k))
            },
            None => None,
        }
    }

    /// The table at positions `i`, `j`, `k`.
    pub fn table_at(&self, i: usize, j: usize, k: usize) -> (t: &Table)
        requires
            i < self@.workspaces.len(),
            j < self@.workspaces[i as int].databases.len(),
            k < self@.db_view(i as int, j as int).tables.len(),
        ensures
            t@ == self@.table_view(i as int, j as int, k as int),
    {
        assert(self.workspaces@[i as int]@ == self@.workspaces[i as int]);
        self.workspaces[i].db_ref(j).table_ref(k)
    }

    /// Puts `w` at position `i` and hands back the workspace that stood there.
    fn swap_ws(&mut self, i: usize, w: Workspace) -> (old_w: Workspace)
        requires
            i < old(self)@.workspaces.len(),
        ensures
            old_w@ == old(self)@.workspaces[i as int],
            final(self)@ == old(self)@.with_ws(i as int, w@),
    {
        let mut w = w;
        let ghost wv = w@;
        let ghost s0 = self@;
        std::mem::swap(&mut w, &mut self.workspaces[i]);
        assert(workspace_views(self.workspaces@) =~= s0.workspaces.update(i as int, wv));
        w
    }

    /// Puts `d` at positions `i`, `j` and hands back the database there.
    fn swap_db(&mut self, i: usize, j: usize, d: Db) -> (old_d: Db)
        requires
            i < old(self)@.workspaces.len(),
            j < old(self)@.workspaces[i as int].databases.len(),
        ensures
            old_d@ == old(self)@.db_view(i as int, j as int),
            final(self)@ == old(self)@.with_db(i as int, j as int, d@),
    {
        let ghost s0 = self@;
        let placeholder = create_workspace_at_empty();
        let mut w = self.swap_ws(i, placeholder);
        let old_d = w.swap_db(j, d);
        let ghost wv = w@;
        let _ = self.swap_ws(i, w);
        assert(self@.workspaces =~= s0.workspaces.update(i as int, wv));
        assert(self@ =~= s0.with_db(i as int, j as int, d@));
        old_d
    }

    /// Puts `t` at positions `i`, `j`, `k` and hands back the table there.
    fn swap_table(&mut self, i: usize, j: usize, k: usize, t: Table) -> (old_t: Table)
        requires
            i < old(self)@.workspaces.len(),
            j < old(self)@.workspaces[i as int].databases.len(),
            k < old(self)@.db_view(i as int, j as int).tables.len(),
        ensures
            old_t@ == old(self)@.table_view(i as int, j as int, k as int),
            final(self)@ == old(self)@.with_table(i as int, j as int, k as int, t@),
    {
        let ghost s0 = self@;
        let mut d = self.swap_db(i, j, Db::new(String::new()));
        let old_t = d.swap_table(k, t);
        let ghost dv = d@;
        let _ = self.swap_db(i, j, d);
        assert(self@.workspaces[i as int].databases =~= s0.workspaces[i as int].databases.update(j as int, dv));
        assert(self@.workspaces =~= s0.with_db(i as int, j as int, dv).workspaces);
        assert(self@ =~= s0.with_table(i as int, j as int, k as int, t@));
        old_t
    }
}

/// A workspace with empty name, author and metadata, used to hold a place.
fn create_workspace_at_empty() -> (w: Workspace)
    ensures
        w@.wf(),
{
    crate::store::create_workspace_at(String::new(), String::new(), String::new())
}

// ---------------------------------------------------------------------------
// What each command does
// ---------------------------------------------------------------------------

/// The session with nothing active.
pub open spec fn unset_all(s: SessionView) -> SessionView {
    SessionView {
        has_ws: false,
        has_db: false,
        has_tb: false,
        ws: Seq::empty(),
        db: Seq::empty(),
        tb: Seq::empty(),
        ..s
    }
}

/// The session with no database or table active.
pub open spec fn unset_db(s: SessionView) -> SessionView {
    SessionView { has_db: false, has_tb: false, db: Seq::empty(), tb: Seq::empty(), ..s }
}

/// The session with no table active.
pub open spec fn unset_tb(s: SessionView) -> SessionView {
    SessionView { has_tb: false, tb: Seq::empty(), ..s }
}

/// `set workspace x`: makes the workspace `x` active, with no database or
/// table, where it exists; logs -1003 otherwise.
pub open spec fn set_workspace(s: SessionView, x: Seq<char>) -> Effect {
    if find(workspace_names(s.workspaces), x) is Some {
        go_on(SessionView { has_ws: true, ws: x, ..unset_db(s) }, blank())
    } else {
        log_effect(s, -1003i32, x)
    }
}

/// `set database x`: makes the database `x` of the active workspace
/// active, with no table, where it exists; logs -1004 otherwise, and -1003
/// where no workspace is active.
pub open spec fn set_database(s: SessionView, x: Seq<char>) -> Effect {
    if !s.has_ws {
        log_effect(s, -1003i32, Seq::empty())
    } else {
        match s.ws_at() {
            None => halt(s, Seq::empty()),
            Some(i) => if s.workspaces[i].has_db(x) {
                go_on(SessionView { has_db: true, db: x, has_tb: false, tb: Seq::empty(), ..s }, blank())
            } else {
                log_effect(s, -1004i32, x)
            },
        }
    }
}

/// `set table x`: makes the table `x` of the active database active where
/// it exists; logs -1005 otherwise, and -1004 where no workspace and
/// database are active.
pub open spec fn set_table(s: SessionView, x: Seq<char>) -> Effect {
    if !(s.has_db && s.has_ws) {
        log_effect(s, -1004i32, x)
    } else {
        match s.db_at() {
            None => halt(s, Seq::empty()),
            Some((i, j)) => if s.db_view(i, j).has_table(x) {
                go_on(SessionView { has_tb: true, tb: x, ..s }, blank())
            } else {
                log_effect(s, -1005i32, x)
            },
        }
    }
}

/// `delete workspace x`: removes the workspace `x` and makes no workspace
/// active, where it exists; logs -9999 otherwise.
pub open spec fn delete_workspace(s: SessionView, x: Seq<char>) -> Effect {
    match find(workspace_names(s.workspaces), x) {
        Some(i) => go_on(
            SessionView { workspaces: s.workspaces.remove(i), has_ws: false, ws: Seq::empty(), ..s },
            blank(),
        ),
        None => log_effect(s, -9999i32, Seq::empty()),
    }
}

/// `delete database x`: in the active workspace, removes the database `x`
/// and makes no database active, where it exists; logs -9999 otherwise.
pub open spec fn delete_database(s: SessionView, x: Seq<char>) -> Effect {
    if !s.has_ws {
        go_on(s, blank())
    } else {
        match s.ws_at() {
            None => halt(s, Seq::empty()),
            Some(i) => match find(db_names(s.workspaces[i].databases), x) {
                Some(j) => go_on(
                    SessionView {
                        has_db: false,
                        db: Seq::empty(),
                        ..s.with_ws(i, WorkspaceView { databases: s.workspaces[i].databases.remove(j), ..s.workspaces[i] })
                    },
                    blank(),
                ),
                None => log_effect(s, -9999i32, x),
            },
        }
    }
}

/// `delete table x`: in the active database, removes the table `x` and
/// makes no table active, where it exists; logs -17 otherwise.
pub open spec fn delete_table(s: SessionView, x: Seq<char>) -> Effect {
    if !(s.has_db && s.has_ws) {
        go_on(s, blank())
    } else {
        match s.db_at() {
            None => halt(s, Seq::empty()),
            Some((i, j)) => if s.db_view(i, j).has_table(x) {
                go_on(
                    SessionView { has_tb: false, tb: Seq::empty(), ..s.with_db(i, j, s.db_view(i, j).without_table(x)) },
                    blank(),
                )
            } else {
                log_effect(s, -17i32, x)
            },
        }
    }
}

/// `create database x`: adds the database `x` to the active workspace, or
/// logs -3 in the workspace's logger where it exists; logs -4 where no
/// workspace is active.
pub open spec fn create_database(s: SessionView, x: Seq<char>) -> Effect {
    if !s.has_ws {
        log_effect(s, -4i32, x)
    } else {
        match s.ws_at() {
            None => halt(s, Seq::empty()),
            Some(i) => {
                let w = s.workspaces[i];
                if w.has_db(x) {
                    go_on(
                        s.with_ws(i, WorkspaceView { log: LoggerView { codes: w.log.codes.push(-3i32), ..w.log }, ..w }),
                        notice_outputs(-3i32, x, w.log.positives) + blank(),
                    )
                } else {
                    go_on(
                        s.with_ws(i, WorkspaceView { databases: w.databases.push(crate::store::empty_db(x)), ..w }),
                        blank(),
                    )
                }
            },
        }
    }
}

/// `cleartable`: forgets the cells of the active table and sets its row
/// count to zero; logs -9999 where no table is active.
pub open spec fn clear_table(s: SessionView) -> Effect {
    if !s.has_tb {
        log_effect(s, -9999i32, Seq::empty())
    } else {
        match s.tb_at() {
            None => halt(s, Seq::empty()),
            Some((i, j, k)) => go_on(
                s.with_table(i, j, k, TableView { columns: Seq::empty(), rows: 0, ..s.table_view(i, j, k) }),
                blank(),
            ),
        }
    }
}

fn blank_reply() -> (r: Reply)
    ensures
        r@ == (ReplyView { outputs: blank(), request: RequestView::Continue }),
{
    let mut out: Vec<Output> = Vec::new();
    out.push(Output::Blank);
    assert(output_views(out@) =~= blank());
    Reply { outputs: out, request: Request::Continue }
}

fn halt_reply(out: Vec<Output>, why: &str) -> (r: Reply)
    ensures
        r@.outputs == output_views(out@),
        r@.request is Halt,
{
    Reply { outputs: out, request: Request::Halt(String::from_str(why)) }
}

fn halt_now(why: &str) -> (r: Reply)
    ensures
        r@.outputs == Seq::<OutputView>::empty(),
        r@.request is Halt,
{
    let out: Vec<Output> = Vec::new();
    assert(output_views(out@) =~= Seq::<OutputView>::empty());
    Reply { outputs: out, request: Request::Halt(String::from_str(why)) }
}

fn end_with_blank(out: Vec<Output>) -> (r: Reply)
    ensures
        r@ == (ReplyView { outputs: output_views(out@) + blank(), request: RequestView::Continue }),
{
    let mut out = out;
    let ghost o0 = output_views(out@);
    out.push(Output::Blank);
    assert(output_views(out@) =~= o0 + blank());
    Reply { outputs: out, request: Request::Continue }
}

impl Session {
    /// Logs `code` with subject `subject` and ends the command.
    fn log_command(&mut self, code: i32, subject: String) -> (r: Reply)
        requires
            old(self)@.wf(),
        ensures
            final(self)@.wf(),
            effect_holds(log_effect(old(self)@, code, subject@), final(self)@, r@),
    {
        let mut out: Vec<Output> = Vec::new();
        let ghost o0 = output_views(out@);
        self.note(code, subject, &mut out);
        assert(o0 =~= Seq::<OutputView>::empty());
        end_with_blank(out)
    }

    fn run_set_workspace(&mut self, x: String) -> (r: Reply)
        requires
            old(self)@.wf(),
        ensures
            !(r@.request is Halt) ==> final(self)@.wf(),
            effect_holds(set_workspace(old(self)@, x@), final(self)@, r@),
    {
        if self.find_ws(&x).is_some() {
            self.b_ws = true;
            self.a_ws = x;
            self.b_db = false;
            self.b_tb = false;
            self.a_db = String::new();
            self.a_tb = String::new();
            blank_reply()
        } else {
            self.log_command(-1003, x)
        }
    }

    fn run_set_database(&mut self, x: String) -> (r: Reply)
        requires
            old(self)@.wf(),
        ensures
            !(r@.request is Halt) ==> final(self)@.wf(),
            effect_holds(set_database(old(self)@, x@), final(self)@, r@),
    {
        if !self.b_ws {
            return self.log_command(-1003, String::new());
        }
        let i = match self.resolve_ws() {
            Some(i) => i,
            None => {
                return halt_now("called `Option::unwrap()` on a `None` value");
            },
        };
        proof {
            lemma_find(workspace_names(self@.workspaces), self@.ws);
        }
        assert(self.workspaces@[i as int]@ == self@.workspaces[i as int]);
        if self.workspaces[i].find_db(&x).is_some() {
            self.b_db = true;
            self.a_db = x;
            self.b_tb = false;
            self.a_tb = String::new();
            blank_reply()
        } else {
            self.log_command(-1004, x)
        }
    }

    fn run_set_table(&mut self, x: String) -> (r: Reply)
        requires
            old(self)@.wf(),
        ensures
            !(r@.request is Halt) ==> final(self)@.wf(),
            effect_holds(set_table(old(self)@, x@), final(self)@, r@),
    {
        if !(self.b_db && self.b_ws) {
            return self.log_command(-1004, x);
        }
        let (i, j) = match self.resolve_db() {
            Some(p) => p,
            None => {
                return halt_now("called `Option::unwrap()` on a `None` value");
            },
        };
        assert(self.workspaces@[i as int]@ == self@.workspaces[i as int]);
        if self.workspaces[i].db_ref(j).find_table(&x).is_some() {
            self.b_tb = true;
            self.a_tb = x;
            blank_reply()
        } else {
            self.log_command(-1005, x)
        }
    }

    fn run_delete_workspace(&mut self, x: String) -> (r: Reply)
        requires
            old(self)@.wf(),
        ensures
            !(r@.request is Halt) ==> final(self)@.wf(),
            effect_holds(delete_workspace(old(self)@, x@), final(self)@, r@),
    {
        let ghost s0 = self@;
        match self.find_ws(&x) {
            Some(i) => {
                self.workspaces.remove(i);
                self.b_ws = false;
                self.a_ws = String::new();
                proof {
                    assert(workspace_views(self.workspaces@) =~= s0.workspaces.remove(i as int));
                    assert(workspace_names(self@.workspaces) =~= workspace_names(s0.workspaces).remove(i as int));
                    assert forall|k: int| 0 <= k < self@.workspaces.len() implies (#[trigger] self@.workspaces[k]).wf()
                        && self@.workspaces[k].log.shown.len() == 0 by {
                        if k < i {
                            assert(self@.workspaces[k] == s0.workspaces[k]);
                        } else {
                            assert(self@.workspaces[k] == s0.workspaces[k + 1]);
                        }
                    }
                }
                blank_reply()
            },
            None => self.log_command(-9999, String::new()),
        }
    }

    fn run_delete_database(&mut self, x: String) -> (r: Reply)
        requires
            old(self)@.wf(),
        ensures
            !(r@.request is Halt) ==> final(self)@.wf(),
            effect_holds(delete_database(old(self)@, x@), final(self)@, r@),
    {
        if !self.b_ws {
            return blank_reply();
        }
        let i = match self.resolve_ws() {
            Some(i) => i,
            None => {
                return halt_now("called `Option::unwrap()` on a `None` value");
            },
        };
        let ghost s0 = self@;
        proof {
            lemma_find(workspace_names(s0.workspaces), s0.ws);
        }
        assert(self.workspaces@[i as int]@ == self@.workspaces[i as int]);
        if self.workspaces[i].find_db(&x).is_none() {
            return self.log_command(-9999, x);
        }
        let mut w = self.swap_ws(i, create_workspace_at_empty());
        assert(w@.wf());
        w.remove_db(&x);
        let ghost wv = w@;
        let _ = self.swap_ws(i, w);
        self.a_db = String::new();
        self.b_db = false;
        proof {
            assert(self@.workspaces =~= s0.workspaces.update(i as int, wv));
            assert(workspace_names(self@.workspaces) =~= workspace_names(s0.workspaces));
            assert forall|k: int| 0 <= k < self@.workspaces.len() implies (#[trigger] self@.workspaces[k]).wf()
                && self@.workspaces[k].log.shown.len() == 0 by {
                if k != i {
                    assert(self@.workspaces[k] == s0.workspaces[k]);
                }
            }
        }
        blank_reply()
    }

    fn run_delete_table(&mut self, x: String) -> (r: Reply)
        requires
            old(self)@.wf(),
        ensures
            !(r@.request is Halt) ==> final(self)@.wf(),
            effect_holds(delete_table(old(self)@, x@), final(self)@, r@),
    {
        if !(self.b_db && self.b_ws) {
            return blank_reply();
        }
        let (i, j) = match self.resolve_db() {
            Some(p) => p,
            None => {
                return halt_now("called `Option::unwrap()` on a `None` value");
            },
        };
        let ghost s0 = self@;
        assert(self.workspaces@[i as int]@ == self@.workspaces[i as int]);
        if self.workspaces[i].db_ref(j).find_table(&x).is_none() {
            return self.log_command(-17, x);
        }
        proof {
            assert(s0.workspaces[i as int].wf());
            assert(s0.db_view(i as int, j as int).wf());
        }
        let mut d = self.swap_db(i, j, Db::new(String::new()));
        let ghost s1 = self@;
        d.remove_table(&x);
        let ghost dv = d@;
        let _ = self.swap_db(i, j, d);
        proof {
            lemma_with_db_twice(s0, i as int, j as int, s1.db_view(i as int, j as int), dv);
        }
        self.a_tb = String::new();
        self.b_tb = false;
        proof {
            lemma_session_db_wf(s0, i as int, j as int, dv);
            assert(self@.workspaces =~= s0.with_db(i as int, j as int, dv).workspaces);
        }
        blank_reply()
    }

    fn run_create_database(&mut self, x: String) -> (r: Reply)
        requires
            old(self)@.wf(),
        ensures
            !(r@.request is Halt) ==> final(self)@.wf(),
            effect_holds(create_database(old(self)@, x@), final(self)@, r@),
    {
        if !self.b_ws {
            return self.log_command(-4, x);
        }
        let i = match self.resolve_ws() {
            Some(i) => i,
            None => {
                return halt_now("called `Option::unwrap()` on a `None` value");
            },
        };
        let ghost s0 = self@;
        proof {
            lemma_find(workspace_names(s0.workspaces), s0.ws);
        }
        let mut w = self.swap_ws(i, create_workspace_at_empty());
        let ghost w0 = w@;
        w.addDB(x.clone());
        let ns = w.take_notices();
        let ghost wv = w@;
        let _ = self.swap_ws(i, w);
        let mut out: Vec<Output> = Vec::new();
        let ghost e0 = output_views(out@);
        append_notices(&mut out, ns);
        proof {
            assert(e0 =~= Seq::<OutputView>::empty());
            assert(self@.workspaces =~= s0.workspaces.update(i as int, wv));
            assert(w0.log.shown =~= Seq::<NoticeView>::empty());
            if w0.has_db(x@) {
                if is_shown(-3i32, w0.log.positives) {
                    assert(ns@.map_values(|n: Notice| n@) == seq![notice_for(-3i32, x@)]);
                    assert(ns@.map_values(|n: Notice| n@).len() == ns@.len());
                    assert(ns@.len() == 1);
                    assert(ns@.map_values(|n: Notice| n@)[0] == ns@[0]@);
                    assert(ns@.map_values(|n: Notice| OutputView::Notice(n@)) =~= notice_outputs(-3i32, x@, w0.log.positives));
                } else {
                    assert(ns@.map_values(|n: Notice| n@).len() == 0);
                    assert(ns@.map_values(|n: Notice| OutputView::Notice(n@)) =~= notice_outputs(-3i32, x@, w0.log.positives));
                }
                assert(wv.log =~= LoggerView { codes: w0.log.codes.push(-3i32), ..w0.log });
                assert(wv =~= WorkspaceView { log: LoggerView { codes: w0.log.codes.push(-3i32), ..w0.log }, ..w0 });
            } else {
                assert(ns@.map_values(|n: Notice| n@).len() == 0);
                assert(ns@.map_values(|n: Notice| OutputView::Notice(n@)) =~= Seq::<OutputView>::empty());
            }
            assert(workspace_names(self@.workspaces) =~= workspace_names(s0.workspaces));
            assert forall|k: int| 0 <= k < self@.workspaces.len() implies (#[trigger] self@.workspaces[k]).wf()
                && self@.workspaces[k].log.shown.len() == 0 by {
                if k != i {
                    assert(self@.workspaces[k] == s0.workspaces[k]);
                }
            }
        }
        end_with_blank(out)
    }

    fn run_clear_table(&mut self) -> (r: Reply)
        requires
            old(self)@.wf(),
        ensures
            !(r@.request is Halt) ==> final(self)@.wf(),
            effect_holds(clear_table(old(self)@), final(self)@, r@),
    {
        if !self.b_tb {
            return self.log_command(-9999, String::new());
        }
        let (i, j, k) = match self.resolve_tb() {
            Some(p) => p,
            None => {
                return halt_now("called `Option::unwrap()` on a `None` value");
            },
        };
        let ghost s0 = self@;
        let mut t = self.swap_table(i, j, k, Table::new(String::new(), Vec::new(), Vec::new()));
        let ghost s1 = self@;
        t.clear();
        let ghost tv = t@;
        let _ = self.swap_table(i, j, k, t);
        proof {
            lemma_with_table_twice(s0, i as int, j as int, k as int, s1.table_view(i as int, j as int, k as int), tv);
        }
        proof {
            lemma_session_table_wf(s0, i as int, j as int, k as int, tv);
            assert(self@ =~= s0.with_table(i as int, j as int, k as int, tv));
        }
        blank_reply()
    }
}

/// Replacing a database twice is replacing it once with the second.
proof fn lemma_with_db_twice(s: SessionView, i: int, j: int, d1: DbView, d2: DbView)
    requires
        0 <= i < s.workspaces.len(),
        0 <= j < s.workspaces[i].databases.len(),
    ensures
        s.with_db(i, j, d1).db_view(i, j) == d1,
        s.with_db(i, j, d1).with_db(i, j, d2) == s.with_db(i, j, d2),
{
    let s1 = s.with_db(i, j, d1);
    assert(s1.workspaces[i].databases =~= s.workspaces[i].databases.update(j, d1));
    assert(s1.with_db(i, j, d2).workspaces[i].databases =~= s.with_db(i, j, d2).workspaces[i].databases);
    assert(s1.with_db(i, j, d2).workspaces =~= s.with_db(i, j, d2).workspaces);
}

/// Replacing a table twice is replacing it once with the second.
proof fn lemma_with_table_twice(s: SessionView, i: int, j: int, k: int, t1: TableView, t2: TableView)
    requires
        0 <= i < s.workspaces.len(),
        0 <= j < s.workspaces[i].databases.len(),
        0 <= k < s.db_view(i, j).tables.len(),
    ensures
        s.with_table(i, j, k, t1).table_view(i, j, k) == t1,
        s.with_table(i, j, k, t1).with_table(i, j, k, t2) == s.with_table(i, j, k, t2),
{
    let d = s.db_view(i, j);
    let d1 = DbView { tables: d.tables.update(k, t1), ..d };
    let d2 = DbView { tables: d.tables.update(k, t2), ..d };
    lemma_with_db_twice(s, i, j, d1, d2);
    let s1 = s.with_table(i, j, k, t1);
    assert(s1.db_view(i, j) == d1);
    assert(d1.tables.update(k, t2) =~= d2.tables);
}

/// Replacing a database by one of the same name that is well formed keeps
/// the session well formed.
proof fn lemma_session_db_wf(s: SessionView, i: int, j: int, d: DbView)
    requires
        s.wf(),
        0 <= i < s.workspaces.len(),
        0 <= j < s.workspaces[i].databases.len(),
        d.wf(),
        d.name == s.db_view(i, j).name,
    ensures
        s.with_db(i, j, d).wf(),
{
    let s2 = s.with_db(i, j, d);
    let w = s.workspaces[i];
    let w2 = s2.workspaces[i];
    assert(db_names(w2.databases) =~= db_names(w.databases));
    assert(w.wf());
    assert forall|m: int| 0 <= m < w2.databases.len() implies (#[trigger] w2.databases[m]).wf() by {
        if m != j {
            assert(w2.databases[m] == w.databases[m]);
        }
    }
    assert(workspace_names(s2.workspaces) =~= workspace_names(s.workspaces));
    assert forall|m: int| 0 <= m < s2.workspaces.len() implies (#[trigger] s2.workspaces[m]).wf()
        && s2.workspaces[m].log.shown.len() == 0 by {
        if m != i {
            assert(s2.workspaces[m] == s.workspaces[m]);
        }
    }
}

/// Replacing a table by one of the same name that is well formed keeps the
/// session well formed.
proof fn lemma_session_table_wf(s: SessionView, i: int, j: int, k: int, t: TableView)
    requires
        s.wf(),
        0 <= i < s.workspaces.len(),
        0 <= j < s.workspaces[i].databases.len(),
        0 <= k < s.db_view(i, j).tables.len(),
        t.wf(),
        t.name == s.table_view(i, j, k).name,
    ensures
        s.with_table(i, j, k, t).wf(),
{
    let d = s.db_view(i, j);
    let d2 = DbView { tables: d.tables.update(k, t), ..d };
    assert(s.workspaces[i].wf());
    assert(d.wf());
    assert(table_names(d2.tables) =~= table_names(d.tables));
    assert forall|m: int| 0 <= m < d2.tables.len() implies (#[trigger] d2.tables[m]).wf() by {
        if m != k {
            assert(d2.tables[m] == d.tables[m]);
        }
    }
    lemma_session_db_wf(s, i, j, d2);
}

// ---------------------------------------------------------------------------
// Printing the active table
// ---------------------------------------------------------------------------

/// The pieces that show row `r` of the table by the first `m` names of its
/// column order: `name : value, ` for each name whose stored column has a
/// value at `r`.
pub open spec fn print_row(t: TableView, r: int, m: int) -> Seq<PieceView>
    decreases m,
{
    if m <= 0 {
        Seq::empty()
    } else {
        let key = t.order[m - 1];
        print_row(t, r, m - 1) + match t.column(key) {
            Some(c) => if 0 <= r < c.values.len() {
                seq![PieceView::Text(key + " : "@), shown_as(c.values[r], true), PieceView::Text(", "@)]
            } else {
                Seq::empty()
            },
            None => Seq::empty(),
        }
    }
}

/// The lines that show the rows of the table.
pub open spec fn print_lines(t: TableView) -> Seq<OutputView> {
    Seq::new(row_bound(t.rows) as nat, |r: int| OutputView::Line(print_row(t, r, t.order.len() as int)))
}

/// `print`: shows the rows of the active table.
pub open spec fn print_table(s: SessionView) -> Effect {
    if !s.has_tb {
        go_on(s, blank())
    } else {
        match s.tb_at() {
            None => halt(s, Seq::empty()),
            Some((i, j, k)) => go_on(s, print_lines(s.table_view(i, j, k)) + blank()),
        }
    }
}

fn print_row_of(t: &Table, r: usize) -> (p: Vec<Piece>)
    ensures
        piece_views(p@) == print_row(t@, r as int, t@.order.len() as int),
{
    let order = t.order();
    let mut p: Vec<Piece> = Vec::new();
    let mut m: usize = 0;
    assert(piece_views(p@) =~= Seq::<PieceView>::empty());
    while m < order.len()
        invariant
            texts(order@) == t@.order,
            m <= order.len(),
            piece_views(p@) == print_row(t@, r as int, m as int),
        decreases order.len() - m,
    {
        let ghost p0 = piece_views(p@);
        assert(t@.order[m as int] == order@[m as int]@);
        match t.find_column(&order[m]) {
            Some(c) => {
                let col = &t.columns()[c];
                proof {
                    assert(t@.column(t@.order[m as int]) == Some(t@.columns[c as int]));
                    assert(col@ == t@.columns[c as int]);
                }
                if r < col.values.len() {
                    let mut key = order[m].clone();
                    key.append(" : ");
                    p.push(Piece::Text(key));
                    p.push(col.values[r].show(true));
                    p.push(Piece::Text(String::from_str(", ")));
                    proof {
                        assert(col@.values[r as int] == col.values@[r as int]@);
                        assert(piece_views(p@) =~= p0 + seq![
                            PieceView::Text(t@.order[m as int] + " : "@),
                            shown_as(col@.values[r as int], true),
                            PieceView::Text(", "@),
                        ]);
                    }
                } else {
                    assert(print_row(t@, r as int, m + 1) =~= p0);
                }
            },
            None => {
                assert(t@.column(t@.order[m as int]) is None);
                assert(print_row(t@, r as int, m + 1) =~= p0);
            },
        }
        m = m + 1;
    }
    p
}

impl Session {
    fn run_print_table(&mut self) -> (r: Reply)
        requires
            old(self)@.wf(),
        ensures
            !(r@.request is Halt) ==> final(self)@.wf(),
            effect_holds(print_table(old(self)@), final(self)@, r@),
    {
        if !self.b_tb {
            return blank_reply();
        }
        let (i, j, k) = match self.resolve_tb() {
            Some(p) => p,
            None => {
                return halt_now("called `Option::unwrap()` on a `None` value");
            },
        };
        let t = self.table_at(i, j, k);
        let n = row_bound_of(t.rows());
        let mut out: Vec<Output> = Vec::new();
        let mut r: usize = 0;
        while r < n
            invariant
                r <= n,
                n as int == row_bound(t@.rows),
                output_views(out@) == print_lines(t@).take(r as int),
            decreases n - r,
        {
            let ghost o0 = output_views(out@);
            let row = print_row_of(t, r);
            out.push(Output::Line(row));
            proof {
                assert(print_lines(t@).take(r + 1) =~= print_lines(t@).take(r as int).push(print_lines(t@)[r as int]));
                assert(output_views(out@) =~= o0.push(OutputView::Line(piece_views(row@))));
            }
            r = r + 1;
        }
        assert(print_lines(t@).take(r as int) =~= print_lines(t@));
        end_with_blank(out)
    }
}

// ---------------------------------------------------------------------------
// Creating a table from column names and types
// ---------------------------------------------------------------------------

/// Whether `ty`, in lower case, is a type a table may declare.
pub open spec fn is_known_type(ty: Seq<char>) -> bool {
    ty == "integer"@ || ty == "int"@ || ty == "i32"@ || ty == "number"@ || ty == "string"@ || ty == "word"@
        || ty == "str"@ || ty == "char"@ || ty == "letter"@ || ty == "float"@ || ty == "f64"@ || ty == "bool"@
        || ty == "boolean"@
}

/// The session after logging `code` once for each of the first `m` types
/// that is not known, and the notices shown.
pub open spec fn unknown_types(s: SessionView, types: Seq<Seq<char>>, m: int, name: Seq<char>) -> (SessionView, Seq<OutputView>)
    decreases m,
{
    if m <= 0 {
        (s, Seq::empty())
    } else {
        let (s1, o1) = unknown_types(s, types, m - 1, name);
        if is_known_type(lowercase_of(types[m - 1])) {
            (s1, o1)
        } else {
            (s1.logged(-7i32), o1 + notice_outputs(-7i32, name, s.log.positives))
        }
    }
}

proof fn lemma_all_known_quiet(s: SessionView, types: Seq<Seq<char>>, m: int, name: Seq<char>)
    requires
        0 <= m <= types.len(),
        forall|i: int| 0 <= i < m ==> is_known_type(lowercase_of(#[trigger] types[i])),
    ensures
        unknown_types(s, types, m, name) == (s, Seq::<OutputView>::empty()),
    decreases m,
{
    if m > 0 {
        lemma_all_known_quiet(s, types, m - 1, name);
    }
}

/// Whether every type is known.
pub open spec fn all_known(types: Seq<Seq<char>>) -> bool {
    forall|i: int| 0 <= i < types.len() ==> is_known_type(lowercase_of(#[trigger] types[i]))
}

/// `create table name columns types`: the `:`-separated column names and
/// types must pair up and every type be known; the table then replaces or
/// joins those of the active database. Logs -5 or -6 where the counts
/// differ, -7 for each unknown type and then -8, -9 where no database is
/// active, -10 where no workspace is.
pub open spec fn create_table(s: SessionView, name: Seq<char>, columns: Seq<char>, types: Seq<char>) -> Effect {
    let x = split_on(columns, ':');
    let y = split_on(types, ':');
    if x.len() > y.len() {
        log_effect(s, -5i32, name)
    } else if x.len() < y.len() {
        log_effect(s, -6i32, name)
    } else {
        let (s1, o1) = unknown_types(s, y, y.len() as int, name);
        if all_known(y) {
            let t = with_empty_columns(empty_table(name, y, x), x);
            if !s.has_ws {
                log_effect(s, -10i32, name)
            } else {
                match s.ws_at() {
                    None => halt(s, Seq::empty()),
                    Some(i) => if !s.has_db {
                        log_effect(s, -9i32, name)
                    } else {
                        match s.db_at() {
                            None => halt(s, Seq::empty()),
                            Some((_, j)) => go_on(s.with_db(i, j, s.db_view(i, j).with_table(t)), blank()),
                        }
                    },
                }
            }
        } else {
            let e = log_effect(s1, -8i32, name);
            go_on(e.state, o1 + e.outputs)
        }
    }
}

fn known_type(ty: &String) -> (b: bool)
    ensures
        b == is_known_type(ty@),
{
    let t = ty.as_str();
    text_is(t, "integer") || text_is(t, "int") || text_is(t, "i32") || text_is(t, "number")
        || text_is(t, "string") || text_is(t, "word") || text_is(t, "str") || text_is(t, "char")
        || text_is(t, "letter") || text_is(t, "float") || text_is(t, "f64") || text_is(t, "bool")
        || text_is(t, "boolean")
}

impl Session {
    fn run_create_table(&mut self, name: String, columns: String, types: String) -> (r: Reply)
        requires
            old(self)@.wf(),
        ensures
            !(r@.request is Halt) ==> final(self)@.wf(),
            effect_holds(create_table(old(self)@, name@, columns@, types@), final(self)@, r@),
    {
        let x = split_text(columns.as_str(), ':');
        let y = split_text(types.as_str(), ':');
        if x.len() != y.len() {
            if x.len() > y.len() {
                return self.log_command(-5, name);
            } else {
                return self.log_command(-6, name);
            }
        }
        let ghost s0 = self@;
        let ghost yv = texts(y@);
        let mut out: Vec<Output> = Vec::new();
        let mut count: usize = 0;
        let mut i: usize = 0;
        assert(output_views(out@) =~= Seq::<OutputView>::empty());
        while i < y.len()
            invariant
                i <= y.len(),
                yv == texts(y@),
                count <= i,
                (count == i) == all_known(yv.take(i as int)),
                s0.wf(),
                (self@, output_views(out@)) == unknown_types(s0, yv, i as int, name@),
                self@ == (SessionView { log: LoggerView { codes: self@.log.codes, ..s0.log }, ..s0 }),
                s0.log.shown.len() == 0,
            decreases y.len() - i,
        {
            let ty = lowercase(y[i].as_str());
            proof {
                assert(yv[i as int] == y@[i as int]@);
                assert(yv.take(i + 1).drop_last() =~= yv.take(i as int));
            }
            if known_type(&ty) {
                count = count + 1;
            } else {
                let ghost o0 = output_views(out@);
                self.note(-7, name.clone(), &mut out);
            }
            proof {
                if count == i + 1 {
                    assert forall|m: int| 0 <= m < i + 1 implies is_known_type(lowercase_of(#[trigger] yv.take(i + 1)[m])) by {
                        if m < i {
                            assert(yv.take(i + 1)[m] == yv.take(i as int)[m]);
                        }
                    }
                } else {
                    if is_known_type(lowercase_of(yv[i as int])) {
                        assert(!all_known(yv.take(i as int)));
                        let w = choose|m: int| 0 <= m < i && !is_known_type(lowercase_of(#[trigger] yv.take(i as int)[m]));
                        assert(yv.take(i + 1)[w] == yv.take(i as int)[w]);
                    } else {
                        assert(!is_known_type(lowercase_of(yv.take(i + 1)[i as int])));
                    }
                }
            }
            i = i + 1;
        }
        assert(yv.take(i as int) =~= yv);
        if count != x.len() {
            let mut out = out;
            let ghost s1 = self@;
            let ghost o1 = output_views(out@);
            self.note(-8, name, &mut out);
            let r = end_with_blank(out);
            assert(r@.outputs =~= o1 + log_effect(s1, -8i32, name@).outputs);
            return r;
        }
        proof {
            lemma_all_known_quiet(s0, yv, yv.len() as int, name@);
        }
        let mut table = Table::new(name.clone(), y.clone(), x.clone());
        let ghost xv = texts(x@);
        let ghost base = table@;
        let mut k: usize = 0;
        assert(xv.take(0) =~= Seq::<Seq<char>>::empty());
        while k < x.len()
            invariant
                k <= x.len(),
                xv == texts(x@),
                table@.wf(),
                table@ == with_empty_columns(base, xv.take(k as int)),
            decreases x.len() - k,
        {
            proof {
                assert(xv.take(k + 1).drop_last() =~= xv.take(k as int));
                assert(xv.take(k + 1).last() == x@[k as int]@);
            }
            table.put_empty_column(x[k].clone());
            k = k + 1;
        }
        assert(xv.take(k as int) =~= xv);
        if !self.b_ws {
            return self.log_command(-10, name);
        }
        let i = match self.resolve_ws() {
            Some(i) => i,
            None => {
                return halt_now("called `Option::unwrap()` on a `None` value");
            },
        };
        if !self.b_db {
            return self.log_command(-9, name);
        }
        let (_, j) = match self.resolve_db() {
            Some(p) => p,
            None => {
                return halt_now("called `Option::unwrap()` on a `None` value");
            },
        };
        proof {
            assert(s0.workspaces[i as int].wf());
            assert(s0.db_view(i as int, j as int).wf());
        }
        let mut d = self.swap_db(i, j, Db::new(String::new()));
        let ghost s1 = self@;
        d.insert_table(table);
        let ghost dv = d@;
        let _ = self.swap_db(i, j, d);
        proof {
            lemma_with_db_twice(s0, i as int, j as int, s1.db_view(i as int, j as int), dv);
            lemma_session_db_wf(s0, i as int, j as int, dv);
        }
        blank_reply()
    }
}

// ---------------------------------------------------------------------------
// Inserting a record
// ---------------------------------------------------------------------------

/// What a field stores in a column whose type is `ty` in lower case:
/// `None` where the program stops as the field does not read, `Some(None)`
/// where the type stores nothing.
pub open spec fn record_cell(ty: Seq<char>, v: Seq<char>) -> Option<Option<CellView>> {
    if ty == "string"@ {
        Some(Some(CellView::Text(replace_all(v, "%20"@, " "@))))
    } else if ty == "char"@ {
        Some(Some(CellView::Text(v)))
    } else if ty == "i32"@ || ty == "integer"@ || ty == "int"@ {
        match parse_i32(v) {
            Some(x) => Some(Some(CellView::Int(x))),
            None => None,
        }
    } else if ty == "i64"@ {
        match parse_i64(v) {
            Some(x) => Some(Some(CellView::Long(x))),
            None => None,
        }
    } else if ty == "f32"@ {
        if is_float_text(v) { Some(Some(CellView::Single(v))) } else { None }
    } else if ty == "float"@ {
        if is_float_text(v) { Some(Some(CellView::Double(v))) } else { None }
    } else if ty == "boolean"@ {
        Some(Some(CellView::Bool(lowercase_of(v) == "true"@)))
    } else {
        Some(None)
    }
}

/// The table after storing the first `m` fields, field `i` in the stored
/// column named `t.order[i]` and typed `t.model[i]`; `None` where the
/// program stops.
pub open spec fn record_values(t: TableView, fields: Seq<Seq<char>>, m: int) -> Option<TableView>
    decreases m,
{
    if m <= 0 {
        Some(t)
    } else {
        match record_values(t, fields, m - 1) {
            None => None,
            Some(t1) => {
                let i = m - 1;
                if i >= t.order.len() || t1.column(t.order[i]) is None {
                    None
                } else {
                    match record_cell(lowercase_of(t.model[i]), fields[i]) {
                        None => None,
                        Some(None) => Some(t1),
                        Some(Some(c)) => Some(t1.with_value(t.order[i], c)),
                    }
                }
            },
        }
    }
}

/// `insert record values`: stores the `:`-separated fields as a new row of
/// the active table. Logs -14 where no table is active and -1007 where the
/// number of fields is not that of the table's types; both end the command
/// without its blank line.
pub open spec fn insert_record(s: SessionView, values: Seq<char>) -> Effect {
    if !s.has_tb {
        go_on(s.logged(-14i32), notice_outputs(-14i32, Seq::empty(), s.log.positives))
    } else {
        match s.tb_at() {
            None => halt(s, Seq::empty()),
            Some((i, j, k)) => {
                let t = s.table_view(i, j, k);
                let fields = split_on(values, ':');
                if fields.len() != t.model.len() {
                    go_on(s.logged(-1007i32), notice_outputs(-1007i32, s.tb, s.log.positives))
                } else {
                    match record_values(t, fields, t.model.len() as int) {
                        None => halt(s, Seq::empty()),
                        Some(t2) => if t2.rows == i32::MAX {
                            halt(s, Seq::empty())
                        } else {
                            go_on(s.with_table(i, j, k, TableView { rows: (t2.rows + 1) as i32, ..t2 }), blank())
                        },
                    }
                }
            },
        }
    }
}

/// What a field stores in a column of lower-case type `ty`.
fn record_cell_of(ty: &String, v: &String) -> (r: Option<Option<Cell>>)
    ensures
        match r {
            None => record_cell(ty@, v@) is None,
            Some(None) => record_cell(ty@, v@) == Some(None::<CellView>),
            Some(Some(c)) => record_cell(ty@, v@) == Some(Some(c@)),
        },
{
    proof {
        reveal_strlit("%20");
    }
    let t = ty.as_str();
    let vs = v.as_str();
    if text_is(t, "string") {
        Some(Some(Cell::Text(replace_text(vs, "%20", " "))))
    } else if text_is(t, "char") {
        Some(Some(Cell::Text(v.clone())))
    } else if text_is(t, "i32") || text_is(t, "integer") || text_is(t, "int") {
        match parse_i32_text(vs) {
            Some(x) => Some(Some(Cell::Int(x))),
            None => None,
        }
    } else if text_is(t, "i64") {
        match parse_i64_text(vs) {
            Some(x) => Some(Some(Cell::Long(x))),
            None => None,
        }
    } else if text_is(t, "f32") {
        if float_text_ok(vs) { Some(Some(Cell::Single(v.clone()))) } else { None }
    } else if text_is(t, "float") {
        if float_text_ok(vs) { Some(Some(Cell::Double(v.clone()))) } else { None }
    } else if text_is(t, "boolean") {
        let l = lowercase(vs);
        Some(Some(Cell::Bool(text_is(l.as_str(), "true"))))
    } else {
        Some(None)
    }
}

proof fn lemma_record_values_stop(t: TableView, fields: Seq<Seq<char>>, m: int, n: int)
    requires
        0 < m <= n,
        record_values(t, fields, m) is None,
    ensures
        record_values(t, fields, n) is None,
    decreases n - m,
{
    if m < n {
        lemma_record_values_stop(t, fields, m + 1, n);
    }
}

impl Session {
    fn run_insert_record(&mut self, values: String) -> (r: Reply)
        requires
            old(self)@.wf(),
        ensures
            !(r@.request is Halt) ==> final(self)@.wf(),
            effect_holds(insert_record(old(self)@, values@), final(self)@, r@),
    {
        let ghost s0 = self@;
        if !self.b_tb {
            let mut out: Vec<Output> = Vec::new();
            assert(output_views(out@) =~= Seq::<OutputView>::empty());
            self.note(-14, String::new(), &mut out);
            assert(output_views(out@) =~= notice_outputs(-14i32, Seq::empty(), s0.log.positives));
            return Reply { outputs: out, request: Request::Continue };
        }
        let (i, j, k) = match self.resolve_tb() {
            Some(p) => p,
            None => {
                return halt_now("called `Option::unwrap()` on a `None` value");
            },
        };
        let temp = split_text(values.as_str(), ':');
        let ghost fv = texts(temp@);
        if temp.len() != self.table_at(i, j, k).model().len() {
            let mut out: Vec<Output> = Vec::new();
            assert(output_views(out@) =~= Seq::<OutputView>::empty());
            let tb = self.a_tb.clone();
            self.note(-1007, tb, &mut out);
            assert(output_views(out@) =~= notice_outputs(-1007i32, s0.tb, s0.log.positives));
            return Reply { outputs: out, request: Request::Continue };
        }
        proof {
            assert(s0.workspaces[i as int].wf());
            assert(s0.db_view(i as int, j as int).wf());
            assert(s0.db_view(i as int, j as int).tables[k as int].wf());
        }
        let mut tb = self.swap_table(i, j, k, Table::new(String::new(), Vec::new(), Vec::new()));
        let ghost s1 = self@;
        let ghost t0 = tb@;
        let order = tb.order().clone();
        let model = tb.model().clone();
        let len = model.len();
        let mut m: usize = 0;
        while m < len
            invariant
                m <= len == model@.len(),
                texts(order@) == t0.order,
                texts(model@) == t0.model,
                fv == texts(temp@),
                temp@.len() == len,
                tb@.wf(),
                tb@.order == t0.order,
                tb@.name == t0.name,
                s0 == old(self)@,
                s0.has_tb,
                s0.tb_at() == Some((i as int, j as int, k as int)),
                t0 == s0.table_view(i as int, j as int, k as int),
                fv == split_on(values@, ':'),
                record_values(t0, fv, m as int) == Some(tb@),
            decreases len - m,
        {
            if m >= order.len() {
                proof { lemma_record_values_stop(t0, fv, m + 1, len as int); }
                return halt_now("index out of bounds");
            }
            assert(t0.order[m as int] == order@[m as int]@);
            let pos = tb.find_column(&order[m]);
            proof {
                lemma_find(crate::table::column_names(tb@.columns), order@[m as int]@);
            }
            if pos.is_none() {
                proof { lemma_record_values_stop(t0, fv, m + 1, len as int); }
                return halt_now("called `Option::unwrap()` on a `None` value");
            }
            let datatype = lowercase(model[m].as_str());
            proof {
                assert(t0.model[m as int] == model@[m as int]@);
                assert(fv[m as int] == temp@[m as int]@);
            }
            match record_cell_of(&datatype, &temp[m]) {
                None => {
                    proof { lemma_record_values_stop(t0, fv, m + 1, len as int); }
                    return halt_now("called `Result::unwrap()` on an `Err` value");
                },
                Some(None) => {},
                Some(Some(c)) => {
                    tb.append_value(&order[m], c);
                },
            }
            m = m + 1;
        }
        if tb.rows() == i32::MAX {
            return halt_now("attempt to add with overflow");
        }
        tb.count_row();
        let ghost tv = tb@;
        let _ = self.swap_table(i, j, k, tb);
        proof {
            lemma_with_table_twice(s0, i as int, j as int, k as int, s1.table_view(i as int, j as int, k as int), tv);
            lemma_session_table_wf(s0, i as int, j as int, k as int, tv);
        }
        blank_reply()
    }
}

// ---------------------------------------------------------------------------
// Exporting, saving and showing the status
// ---------------------------------------------------------------------------

/// The session after logging -12, -13 and -14 for a missing workspace,
/// database and table, and the notices shown.
pub open spec fn missing_flags(s: SessionView) -> (SessionView, Seq<OutputView>) {
    let p = s.log.positives;
    let (s1, o1) = if !s.has_ws { (s.logged(-12i32), notice_outputs(-12i32, Seq::empty(), p)) } else { (s, Seq::empty()) };
    let (s2, o2) = if !s.has_db { (s1.logged(-13i32), o1 + notice_outputs(-13i32, Seq::empty(), p)) } else { (s1, o1) };
    if !s.has_tb { (s2.logged(-14i32), o2 + notice_outputs(-14i32, Seq::empty(), p)) } else { (s2, o2) }
}

/// The file an export of the table `tb` is written to.
pub open spec fn export_path(tb: Seq<char>, fmt: Format) -> Seq<char> {
    "./"@ + tb + if fmt == Format::Json { ".js"@ } else if fmt == Format::Xml { ".xml"@ } else { ".csv"@ }
}

/// `export kind`: writes the active table as JSON, XML or CSV to a file
/// named after it. Logs -12, -13, -14 for what is not active, ending the
/// command without its blank line, and -1013 for another kind.
pub open spec fn export_command(s: SessionView, kind: ExportKindView) -> Effect {
    let (s1, o1) = missing_flags(s);
    if !(s.has_ws && s.has_db && s.has_tb) {
        go_on(s1, o1)
    } else {
        let fmt = match kind {
            ExportKindView::Json => Format::Json,
            ExportKindView::Xml => Format::Xml,
            _ => Format::Csv,
        };
        match kind {
            ExportKindView::Other(x) => log_effect(s, -1013i32, x),
            _ => match s.tb_at() {
                None => halt(s, Seq::empty()),
                Some((i, j, k)) => {
                    let (e, d) = export(fmt, s.table_view(i, j, k), s.tb);
                    match d {
                        None => halt(s, e),
                        Some(d) => Effect {
                            state: s,
                            outputs: e,
                            request: RequestView::WriteFile { path: export_path(s.tb, fmt), data: d },
                        },
                    }
                },
            },
        }
    }
}

/// Whether `draws` are colours drawn for each database of the workspace.
pub open spec fn draws_for(w: WorkspaceView, draws: Seq<u32>) -> bool {
    draws.len() == w.databases.len() && forall|i: int| 0 <= i < draws.len() ==> #[trigger] draws[i] < 9
}

/// `save workspace`: shows the workspace named as active, each database's
/// colour drawn at random.
pub open spec fn save_workspace(s: SessionView, s2: SessionView, r: ReplyView) -> bool {
    match s.ws_at() {
        None => r.outputs == Seq::<OutputView>::empty() && r.request is Halt,
        Some(i) => shows_workspace(s.workspaces[i], r.outputs) && r.request == RequestView::Continue && s2 == s,
    }
}

/// Whether `outputs` show the workspace, then end the command, for some
/// colours drawn.
pub open spec fn shows_workspace(w: WorkspaceView, outputs: Seq<OutputView>) -> bool {
    exists|draws: Seq<u32>| #[trigger] draws_for(w, draws) && outputs == workspace_lines(w, draws) + blank()
}

/// `status`: shows every workspace, each database's colour drawn at
/// random; logs -1010 where there is none.
pub open spec fn status(s: SessionView, s2: SessionView, r: ReplyView) -> bool {
    let n = s.workspaces.len();
    &&& r.request == RequestView::Continue
    &&& exists|draws: Seq<Seq<u32>>|
        draws.len() == n && (forall|i: int| 0 <= i < n ==> draws_for(s.workspaces[i], #[trigger] draws[i]))
            && r.outputs == Seq::new(n, |i: int| workspace_lines(s.workspaces[i], draws[i])).flatten() + (if n
            == 0 { notice_outputs(-1010i32, Seq::empty(), s.log.positives) } else { Seq::empty() }) + blank()
    &&& s2 == if n == 0 { s.logged(-1010i32) } else { s }
}

impl Session {
    fn run_export(&mut self, kind: ExportKind) -> (r: Reply)
        requires
            old(self)@.wf(),
        ensures
            !(r@.request is Halt) ==> final(self)@.wf(),
            effect_holds(export_command(old(self)@, kind@), final(self)@, r@),
    {
        let ghost s0 = self@;
        let mut out: Vec<Output> = Vec::new();
        assert(output_views(out@) =~= Seq::<OutputView>::empty());
        let mut count: u32 = 0;
        if !self.b_ws {
            self.note(-12, String::new(), &mut out);
            count = count + 1;
        }
        if !self.b_db {
            self.note(-13, String::new(), &mut out);
            count = count + 1;
        }
        if !self.b_tb {
            self.note(-14, String::new(), &mut out);
            count = count + 1;
        }
        proof {
            let (s1, o1) = missing_flags(s0);
            assert(self@ == s1);
            assert(output_views(out@) =~= o1);
        }
        if count != 0 {
            return Reply { outputs: out, request: Request::Continue };
        }
        let fmt = match kind {
            ExportKind::Json => Format::Json,
            ExportKind::Xml => Format::Xml,
            ExportKind::Csv => Format::Csv,
            ExportKind::Other(x) => {
                return self.log_command(-1013, x);
            },
        };
        let (i, j, k) = match self.resolve_tb() {
            Some(p) => p,
            None => {
                return halt_now("called `Option::unwrap()` on a `None` value");
            },
        };
        let (echo, data) = export_table(fmt, self.table_at(i, j, k), &self.a_tb);
        match data {
            None => halt_reply(echo, "called `Option::unwrap()` on a `None` value"),
            Some(d) => {
                let mut path = String::from_str("./");
                path.append(self.a_tb.as_str());
                if fmt == Format::Json {
                    path.append(".js");
                } else if fmt == Format::Xml {
                    path.append(".xml");
                } else {
                    path.append(".csv");
                }
                Reply { outputs: echo, request: Request::WriteFile { path, data: d } }
            },
        }
    }

    fn run_save_workspace(&mut self) -> (r: Reply)
        requires
            old(self)@.wf(),
        ensures
            !(r@.request is Halt) ==> final(self)@.wf(),
            save_workspace(old(self)@, final(self)@, r@),
    {
        let i = match self.resolve_ws() {
            Some(i) => i,
            None => {
                return halt_now("called `Option::unwrap()` on a `None` value");
            },
        };
        assert(self.workspaces@[i as int]@ == self@.workspaces[i as int]);
        let lines = self.workspaces[i].print();
        let ghost w = self@.workspaces[i as int];
        let ghost dr = choose|d: Seq<u32>| d.len() == w.databases.len() && (forall|m: int| 0 <= m < d.len() ==> d[m] < 9)
            && output_views(lines@) == workspace_lines(w, d);
        let r = end_with_blank(lines);
        assert(draws_for(w, dr));
        assert(r@.outputs == workspace_lines(w, dr) + blank());
        assert(self@.ws_at() == Some(i as int));
        assert(shows_workspace(w, r@.outputs));
        r
    }

    fn run_status(&mut self) -> (r: Reply)
        requires
            old(self)@.wf(),
        ensures
            final(self)@.wf(),
            status(old(self)@, final(self)@, r@),
    {
        let ghost s0 = self@;
        let ghost n = s0.workspaces.len();
        let mut out: Vec<Output> = Vec::new();
        let ghost mut draws: Seq<Seq<u32>> = Seq::empty();
        let mut i: usize = 0;
        assert(output_views(out@) =~= Seq::<OutputView>::empty());
        while i < self.workspaces.len()
            invariant
                self@ == s0,
                n == self.workspaces@.len(),
                workspace_views(self.workspaces@) == s0.workspaces,
                i <= n,
                draws.len() == i,
                forall|m: int| 0 <= m < i ==> draws_for(s0.workspaces[m], #[trigger] draws[m]),
                output_views(out@) == Seq::new(i as nat, |m: int| workspace_lines(s0.workspaces[m], draws[m])).flatten(),
            decreases n - i,
        {
            let lines = self.workspaces[i].print();
            let ghost lv = output_views(lines@);
            let ghost dr = choose|d: Seq<u32>| draws_for(s0.workspaces[i as int], d) && lv == workspace_lines(s0.workspaces[i as int], d);
            proof {
                assert(self.workspaces@[i as int]@ == s0.workspaces[i as int]);
            }
            let ghost o0 = output_views(out@);
            append_outputs(&mut out, lines);
            proof {
                let d1 = draws.push(dr);
                let f0 = Seq::new(i as nat, |m: int| workspace_lines(s0.workspaces[m], draws[m]));
                let f1 = Seq::new((i + 1) as nat, |m: int| workspace_lines(s0.workspaces[m], d1[m]));
                assert(f1 =~= f0.push(lv));
                f0.lemma_flatten_push(lv);
                draws = d1;
            }
            i = i + 1;
        }
        if self.workspaces.len() == 0 {
            self.note(-1010, String::new(), &mut out);
        }
        let r = end_with_blank(out);
        proof {
            let f = Seq::new(n, |m: int| workspace_lines(s0.workspaces[m], draws[m])).flatten();
            if n == 0 {
                assert(f =~= Seq::<OutputView>::empty()) by {
                    assert(Seq::new(n, |m: int| workspace_lines(s0.workspaces[m], draws[m])) =~= Seq::<Seq<OutputView>>::empty());
                }
            }
            assert(r@.outputs =~= f + (if n == 0 { notice_outputs(-1010i32, Seq::empty(), s0.log.positives) } else { Seq::empty() }) + blank());
        }
        r
    }
}

// ---------------------------------------------------------------------------
// Creating a workspace
// ---------------------------------------------------------------------------

/// `create workspace x`: adds a workspace `x` authored by the session's
/// name and dated now; logs -1002 where one of that name exists.
pub open spec fn create_workspace_cmd(s: SessionView, x: Seq<char>, s2: SessionView, r: ReplyView) -> bool {
    if find(workspace_names(s.workspaces), x) is Some {
        effect_holds(log_effect(s, -1002i32, x), s2, r)
    } else {
        &&& r == (ReplyView { outputs: blank(), request: RequestView::Continue })
        &&& exists|stamp: Seq<char>| s2 == SessionView {
            workspaces: s.workspaces.push(#[trigger] new_workspace(x, s.name, stamp)),
            ..s
        }
    }
}

impl Session {
    fn run_create_workspace(&mut self, x: String) -> (r: Reply)
        requires
            old(self)@.wf(),
        ensures
            final(self)@.wf(),
            create_workspace_cmd(old(self)@, x@, final(self)@, r@),
    {
        if self.find_ws(&x).is_some() {
            return self.log_command(-1002, x);
        }
        let ghost s0 = self@;
        let w = create_workspace(x.clone(), self.name.clone());
        let ghost wv = w@;
        self.workspaces.push(w);
        proof {
            lemma_find(workspace_names(s0.workspaces), x@);
            assert(workspace_views(self.workspaces@) =~= s0.workspaces.push(wv));
            assert(workspace_names(self@.workspaces) =~= workspace_names(s0.workspaces).push(x@));
            assert forall|k: int| 0 <= k < self@.workspaces.len() implies (#[trigger] self@.workspaces[k]).wf()
                && self@.workspaces[k].log.shown.len() == 0 by {
                if k < s0.workspaces.len() {
                    assert(self@.workspaces[k] == s0.workspaces[k]);
                }
            }
            let stamp = choose|stamp: Seq<char>| wv == new_workspace(x@, s0.name, stamp);
            assert(self@ == SessionView { workspaces: s0.workspaces.push(new_workspace(x@, s0.name, stamp)), ..s0 });
        }
        blank_reply()
    }
}

// ---------------------------------------------------------------------------
// Ordering the rows of the active table
// ---------------------------------------------------------------------------

/// How the values of a column are shown as keys.
pub open spec fn keys_of(c: ColumnView) -> Seq<PieceView> {
    Seq::new(c.values.len(), |r: int| shown_as(c.values[r], false))
}

/// `print orderby column` and `print orderbyrev column`: asks for the
/// column's values rendered, to order the rows of the active table by them.
pub open spec fn order_request(s: SessionView, column: Seq<char>, reverse: bool) -> Effect {
    if !s.has_tb {
        go_on(s, blank())
    } else {
        match s.tb_at() {
            None => halt(s, Seq::empty()),
            Some((i, j, k)) => {
                let t = s.table_view(i, j, k);
                if find(t.order, column) is None {
                    go_on(s, seq![text_line("Invalid column name"@)] + blank())
                } else {
                    match t.column(column) {
                        None => halt(s, Seq::empty()),
                        Some(c) => Effect {
                            state: s,
                            outputs: Seq::empty(),
                            request: RequestView::Order { column, keys: keys_of(c), reverse },
                        },
                    }
                }
            },
        }
    }
}

/// The pieces that show row `idx` by the first `m` names of the column
/// order: `name: value ` for each name whose stored column has a value at
/// `idx`; in reverse order each is led by ` Row # <idx + 1> => `.
pub open spec fn order_row(t: TableView, idx: int, reverse: bool, m: int) -> Seq<PieceView>
    decreases m,
{
    if m <= 0 {
        Seq::empty()
    } else {
        let key = t.order[m - 1];
        order_row(t, idx, reverse, m - 1) + match t.column(key) {
            Some(c) => if 0 <= idx < c.values.len() {
                let lead = if reverse {
                    " Row # "@ + nat_text((idx + 1) as nat) + " => "@ + key + ": "@
                } else {
                    key + ": "@
                };
                seq![PieceView::Text(lead), shown_as(c.values[idx], false), PieceView::Text(" "@)]
            } else {
                Seq::empty()
            },
            None => Seq::empty(),
        }
    }
}

/// The lines that show the rows in the order `p`, or its reverse.
pub open spec fn ordered_lines(t: TableView, p: Seq<usize>, reverse: bool) -> Seq<OutputView> {
    let n = p.len();
    Seq::new(n, |m: int| OutputView::Line(order_row(t, (if reverse { p[n - 1 - m] } else { p[m] }) as int, reverse, t.order.len() as int)))
}

fn order_row_of(t: &Table, idx: usize, reverse: bool) -> (p: Vec<Piece>)
    requires
        idx < usize::MAX,
    ensures
        piece_views(p@) == order_row(t@, idx as int, reverse, t@.order.len() as int),
{
    let order = t.order();
    let mut p: Vec<Piece> = Vec::new();
    let mut m: usize = 0;
    assert(piece_views(p@) =~= Seq::<PieceView>::empty());
    while m < order.len()
        invariant
            texts(order@) == t@.order,
            m <= order.len(),
            idx < usize::MAX,
            piece_views(p@) == order_row(t@, idx as int, reverse, m as int),
        decreases order.len() - m,
    {
        let ghost p0 = piece_views(p@);
        assert(t@.order[m as int] == order@[m as int]@);
        match t.find_column(&order[m]) {
            Some(c) => {
                let col = &t.columns()[c];
                proof {
                    assert(t@.column(t@.order[m as int]) == Some(t@.columns[c as int]));
                    assert(col@ == t@.columns[c as int]);
                }
                if idx < col.values.len() {
                    let lead = if reverse {
                        let mut l = String::from_str(" Row # ");
                        let num = crate::text::string_of(&crate::text::nat_chars((idx + 1) as u64));
                        l.append(num.as_str());
                        l.append(" => ");
                        l.append(order[m].as_str());
                        l.append(": ");
                        l
                    } else {
                        let mut l = order[m].clone();
                        l.append(": ");
                        l
                    };
                    p.push(Piece::Text(lead));
                    p.push(col.values[idx].show(false));
                    p.push(Piece::Text(String::from_str(" ")));
                    proof {
                        assert(col@.values[idx as int] == col.values@[idx as int]@);
                    }
                    assert(piece_views(p@) =~= p0 + seq![
                        PieceView::Text(lead@),
                        shown_as(col@.values[idx as int], false),
                        PieceView::Text(" "@),
                    ]);
                } else {
                    assert(order_row(t@, idx as int, reverse, m + 1) =~= p0);
                }
            },
            None => {
                assert(t@.column(t@.order[m as int]) is None);
                assert(order_row(t@, idx as int, reverse, m + 1) =~= p0);
            },
        }
        m = m + 1;
    }
    p
}

impl Session {
    fn run_order(&mut self, column: String, reverse: bool) -> (r: Reply)
        requires
            old(self)@.wf(),
        ensures
            !(r@.request is Halt) ==> final(self)@.wf(),
            effect_holds(order_request(old(self)@, column@, reverse), final(self)@, r@),
    {
        if !self.b_tb {
            return blank_reply();
        }
        let (i, j, k) = match self.resolve_tb() {
            Some(p) => p,
            None => {
                return halt_now("called `Option::unwrap()` on a `None` value");
            },
        };
        let t = self.table_at(i, j, k);
        if crate::table::find_text(t.order(), &column).is_none() {
            let mut out: Vec<Output> = Vec::new();
            out.push(line_of(String::from_str("Invalid column name")));
            assert(output_views(out@) =~= seq![text_line("Invalid column name"@)]);
            return end_with_blank(out);
        }
        let c = match t.find_column(&column) {
            Some(c) => c,
            None => {
                return halt_now("called `Option::unwrap()` on a `None` value");
            },
        };
        let col = &t.columns()[c];
        assert(col@ == t@.columns[c as int]);
        let mut keys: Vec<Piece> = Vec::new();
        let mut m: usize = 0;
        while m < col.values.len()
            invariant
                m <= col.values.len(),
                keys@.len() == m,
                forall|q: int| 0 <= q < m ==> #[trigger] keys@[q]@ == shown_as(col@.values[q], false),
            decreases col.values.len() - m,
        {
            assert(col@.values[m as int] == col.values@[m as int]@);
            keys.push(col.values[m].show(false));
            m = m + 1;
        }
        assert(piece_views(keys@) =~= keys_of(col@));
        let out: Vec<Output> = Vec::new();
        assert(output_views(out@) =~= Seq::<OutputView>::empty());
        Reply { outputs: out, request: Request::Order { column, keys, reverse } }
    }

    /// Shows the rows of the active table ordered by the rendered `keys` of
    /// the column `column`, asked for by `print orderby` or `print orderbyrev`.
    pub fn finish_order(&self, column: &String, keys: &Vec<String>, reverse: bool) -> (r: Reply)
        requires
            self@.tb_at() is Some,
            ({
                let (i, j, k) = self@.tb_at()->0;
                self@.table_view(i, j, k).column(column@) matches Some(c) && keys@.len() == c.values.len()
            }),
        ensures
            ({
                let (i, j, k) = self@.tb_at()->0;
                exists|p: Seq<usize>| #[trigger] stably_sorted(texts(keys@), p)
                    && r@.outputs == ordered_lines(self@.table_view(i, j, k), p, reverse) + blank()
            }),
            r@.request == RequestView::Continue,
    {
        let (i, j, k) = match self.resolve_tb() {
            Some(p) => p,
            None => {
                return blank_reply();
            },
        };
        let t = self.table_at(i, j, k);
        let mut kc: Vec<Vec<char>> = Vec::new();
        let mut q: usize = 0;
        while q < keys.len()
            invariant
                q <= keys.len(),
                kc@.len() == q,
                forall|z: int| 0 <= z < q ==> #[trigger] kc@[z]@ == keys@[z]@,
            decreases keys.len() - q,
        {
            kc.push(crate::text::chars_of(keys[q].as_str()));
            q = q + 1;
        }
        assert(crate::text::char_rows(kc@) =~= texts(keys@));
        let p = stable_order(&kc);
        let n = p.len();
        let mut out: Vec<Output> = Vec::new();
        let mut m: usize = 0;
        proof {
            let c = t@.column(column@)->0;
            assert(forall|z: int| 0 <= z < n ==> #[trigger] p@[z] < keys@.len());
        }
        while m < n
            invariant
                m <= n == p@.len() == keys@.len(),
                stably_sorted(texts(keys@), p@),
                output_views(out@) == ordered_lines(t@, p@, reverse).take(m as int),
            decreases n - m,
        {
            let idx = if reverse { p[n - 1 - m] } else { p[m] };
            assert(idx < keys@.len());
            let row = order_row_of(t, idx, reverse);
            let ghost o0 = output_views(out@);
            out.push(Output::Line(row));
            proof {
                assert(ordered_lines(t@, p@, reverse).take(m + 1) =~= ordered_lines(t@, p@, reverse).take(m as int).push(ordered_lines(t@, p@, reverse)[m as int]));
                assert(output_views(out@) =~= o0.push(OutputView::Line(piece_views(row@))));
            }
            m = m + 1;
        }
        assert(ordered_lines(t@, p@, reverse).take(m as int) =~= ordered_lines(t@, p@, reverse));
        end_with_blank(out)
    }
}

// ---------------------------------------------------------------------------
// Grouping the rows of the active table
// ---------------------------------------------------------------------------

/// `groupby column function target`: asks for the values of the columns
/// `column` and `target` rendered, to apply `function` to the values of
/// `target` in each group of rows with equal `column`. Logs -1006 where
/// either is not among the table's columns and -1008 where no table is
/// active.
pub open spec fn group_request(s: SessionView, column: Seq<char>, function: Seq<char>, target: Seq<char>) -> Effect {
    if !s.has_tb {
        log_effect(s, -1008i32, Seq::empty())
    } else {
        match s.tb_at() {
            None => halt(s, Seq::empty()),
            Some((i, j, k)) => {
                let t = s.table_view(i, j, k);
                if find(t.order, column) is Some && find(t.order, target) is Some {
                    match (t.column(column), t.column(target)) {
                        (Some(c), Some(v)) => Effect {
                            state: s,
                            outputs: Seq::empty(),
                            request: RequestView::Group { function, keys: keys_of(c), values: keys_of(v) },
                        },
                        _ => halt(s, Seq::empty()),
                    }
                } else {
                    log_effect(s, -1006i32, Seq::empty())
                }
            },
        }
    }
}

fn keys_of_column(c: &crate::table::Column) -> (keys: Vec<Piece>)
    ensures
        piece_views(keys@) == keys_of(c@),
{
    let mut keys: Vec<Piece> = Vec::new();
    let mut m: usize = 0;
    while m < c.values.len()
        invariant
            m <= c.values.len(),
            keys@.len() == m,
            forall|q: int| 0 <= q < m ==> #[trigger] keys@[q]@ == shown_as(c@.values[q], false),
        decreases c.values.len() - m,
    {
        assert(c@.values[m as int] == c.values@[m as int]@);
        keys.push(c.values[m].show(false));
        m = m + 1;
    }
    assert(piece_views(keys@) =~= keys_of(c@));
    keys
}

impl Session {
    fn run_group(&mut self, column: String, function: String, target: String) -> (r: Reply)
        requires
            old(self)@.wf(),
        ensures
            !(r@.request is Halt) ==> final(self)@.wf(),
            effect_holds(group_request(old(self)@, column@, function@, target@), final(self)@, r@),
    {
        if !self.b_tb {
            return self.log_command(-1008, String::new());
        }
        let (i, j, k) = match self.resolve_tb() {
            Some(p) => p,
            None => {
                return halt_now("called `Option::unwrap()` on a `None` value");
            },
        };
        let t = self.table_at(i, j, k);
        let found_column = crate::table::find_text(t.order(), &column).is_some();
        let found_function_column = crate::table::find_text(t.order(), &target).is_some();
        if !(found_column && found_function_column) {
            return self.log_command(-1006, String::new());
        }
        let c = match t.find_column(&column) {
            Some(c) => c,
            None => {
                return halt_now("called `Option::unwrap()` on a `None` value");
            },
        };
        let v = match t.find_column(&target) {
            Some(v) => v,
            None => {
                return halt_now("called `Option::unwrap()` on a `None` value");
            },
        };
        let keys = keys_of_column(&t.columns()[c]);
        let values = keys_of_column(&t.columns()[v]);
        let out: Vec<Output> = Vec::new();
        assert(output_views(out@) =~= Seq::<OutputView>::empty());
        Reply { outputs: out, request: Request::Group { function, keys, values } }
    }
}

/// Applies `function` to the rendered `values` in each group of rows with
/// equal rendered `keys`, asked for by `groupby`.
pub fn finish_group(function: &String, keys: &Vec<String>, values: &Vec<String>) -> (r: Reply)
    ensures
        ({
            let (lines, stopped) = aggregate_lines(function@, grouped(texts(keys@)), texts(values@));
            &&& stopped ==> r@.outputs == lines && r@.request is Halt
            &&& !stopped ==> r@.outputs == lines + blank() && r@.request == RequestView::Continue
        }),
{
    let groups = group_rows(keys);
    let (lines, stopped) = aggregate(function, &groups, values);
    if stopped {
        halt_reply(lines, "the aggregate cannot be computed")
    } else {
        end_with_blank(lines)
    }
}

// ---------------------------------------------------------------------------
// Importing tables
// ---------------------------------------------------------------------------

/// `table from CSV path`: asks for the lines of the CSV file at `path`, to
/// read a table into the active database; logs -10 where no workspace and
/// database are active.
pub open spec fn csv_request(s: SessionView, path: Seq<char>) -> Effect {
    if !(s.has_db && s.has_ws) {
        log_effect(s, -10i32, "CSV"@)
    } else {
        match s.db_at() {
            None => halt(s, Seq::empty()),
            Some(_) => Effect {
                state: s,
                outputs: seq![
                    text_line("Importing table from CSV file: "@ + path),
                    text_line("File path: "@ + path_debug_of(path)),
                ],
                request: RequestView::ReadCsv { path },
            },
        }
    }
}

/// Reading the CSV file into the active database: nothing where the file
/// could not be opened (`None`); otherwise the table read from the file
/// named `name` with lines `lines` replaces or joins the database's tables.
pub open spec fn csv_finish(s: SessionView, read: Option<(Seq<char>, Seq<Option<Seq<char>>>)>) -> Effect {
    match read {
        None => go_on(s, blank()),
        Some((name, lines)) => {
            let (shown, t, halted) = csv_import(name, lines);
            if halted {
                halt(s, shown)
            } else {
                match t {
                    None => go_on(s, shown + blank()),
                    Some(t) => {
                        let (i, j) = s.db_at()->0;
                        go_on(s.with_db(i, j, s.db_view(i, j).with_table(t)), shown + blank())
                    },
                }
            }
        },
    }
}

/// Reading the CSV file at `path` into the active database: nothing where
/// the file could not be opened (`None`); otherwise the program stops where
/// the path has no file name, and the table read from the lines `lines` is
/// named after the file's stem.
pub open spec fn csv_file_finish(s: SessionView, path: Seq<char>, lines: Option<Seq<Option<Seq<char>>>>) -> Effect {
    match lines {
        None => go_on(s, blank()),
        Some(ls) => match file_stem_of(path) {
            None => halt(s, Seq::empty()),
            Some(name) => csv_finish(s, Some((name, ls))),
        },
    }
}

/// `import as xml file`: asks for the text of the file `./file`, to read a
/// table into the active database; logs -12 and -13 for a missing
/// workspace and database.
pub open spec fn xml_request(s: SessionView, file: Seq<char>) -> Effect {
    if s.has_ws && s.has_db {
        Effect { state: s, outputs: Seq::empty(), request: RequestView::ReadXml { path: "./"@ + file, file } }
    } else {
        let p = s.log.positives;
        let (s1, o1) = if !s.has_ws { (s.logged(-12i32), notice_outputs(-12i32, Seq::empty(), p)) } else { (s, Seq::empty()) };
        let (s2, o2) = if !s.has_db { (s1.logged(-13i32), o1 + notice_outputs(-13i32, Seq::empty(), p)) } else { (s1, o1) };
        go_on(s2, o2 + blank())
    }
}

/// Reading the XML export `contents` of the file `file` into the active
/// database.
pub open spec fn xml_finish(s: SessionView, file: Seq<char>, contents: Seq<char>) -> Effect {
    match xml_import(file, contents) {
        None => halt(s, Seq::empty()),
        Some(t) => match s.db_at() {
            None => halt(s, Seq::empty()),
            Some((i, j)) => go_on(s.with_db(i, j, s.db_view(i, j).with_table(t)), blank()),
        },
    }
}

impl Session {
    fn run_csv_request(&mut self, path: String) -> (r: Reply)
        requires
            old(self)@.wf(),
        ensures
            !(r@.request is Halt) ==> final(self)@.wf(),
            effect_holds(csv_request(old(self)@, path@), final(self)@, r@),
    {
        if !(self.b_db && self.b_ws) {
            return self.log_command(-10, String::from_str("CSV"));
        }
        if self.resolve_db().is_none() {
            return halt_now("called `Option::unwrap()` on a `None` value");
        }
        let mut out: Vec<Output> = Vec::new();
        let mut l1 = String::from_str("Importing table from CSV file: ");
        l1.append(path.as_str());
        out.push(line_of(l1));
        let mut l2 = String::from_str("File path: ");
        l2.append(path_debug_text(path.as_str()).as_str());
        out.push(line_of(l2));
        assert(output_views(out@) =~= seq![
            text_line("Importing table from CSV file: "@ + path@),
            text_line("File path: "@ + path_debug_of(path@)),
        ]);
        Reply { outputs: out, request: Request::ReadCsv { path } }
    }

    /// Reads the CSV file asked for by `table from CSV` into the active
    /// database: `None` where the file could not be opened, otherwise the
    /// file's name without its extension and its lines, `None` for a line
    /// that could not be read.
    pub fn finish_csv(&mut self, read: Option<(String, Vec<Option<String>>)>) -> (r: Reply)
        requires
            old(self)@.wf(),
            old(self)@.db_at() is Some,
        ensures
            !(r@.request is Halt) ==> final(self)@.wf(),
            effect_holds(
                csv_finish(
                    old(self)@,
                    match read {
                        Some((n, l)) => Some((n@, Seq::new(l@.len(), |i: int| match l@[i] { Some(x) => Some(x@), None => None }))),
                        None => None,
                    },
                ),
                final(self)@,
                r@,
            ),
    {
        let (name, lines) = match read {
            None => {
                return blank_reply();
            },
            Some(p) => p,
        };
        let imported = import_csv(name, &lines);
        if imported.halted {
            return halt_reply(imported.outputs, "called `Result::unwrap()` on an `Err` value");
        }
        let t = match imported.table {
            None => {
                return end_with_blank(imported.outputs);
            },
            Some(t) => t,
        };
        let (i, j) = match self.resolve_db() {
            Some(p) => p,
            None => {
                return halt_now("called `Option::unwrap()` on a `None` value");
            },
        };
        let ghost s0 = self@;
        proof {
            assert(s0.workspaces[i as int].wf());
            assert(s0.db_view(i as int, j as int).wf());
        }
        let mut d = self.swap_db(i, j, Db::new(String::new()));
        let ghost s1 = self@;
        d.insert_table(t);
        let ghost dv = d@;
        let _ = self.swap_db(i, j, d);
        proof {
            lemma_with_db_twice(s0, i as int, j as int, s1.db_view(i as int, j as int), dv);
            lemma_session_db_wf(s0, i as int, j as int, dv);
        }
        end_with_blank(imported.outputs)
    }

    /// Reads the CSV file at `path`, asked for by `table from CSV`, into
    /// the active database: `None` where the file could not be opened,
    /// otherwise its lines, `None` for a line that could not be read. The
    /// table is named after the file's stem.
    pub fn finish_csv_file(&mut self, path: &String, lines: Option<Vec<Option<String>>>) -> (r: Reply)
        requires
            old(self)@.wf(),
            old(self)@.db_at() is Some,
        ensures
            !(r@.request is Halt) ==> final(self)@.wf(),
            effect_holds(
                csv_file_finish(
                    old(self)@,
                    path@,
                    match lines {
                        Some(l) => Some(Seq::new(l@.len(), |i: int| match l@[i] { Some(x) => Some(x@), None => None })),
                        None => None,
                    },
                ),
                final(self)@,
                r@,
            ),
    {
        let ls = match lines {
            None => {
                return blank_reply();
            },
            Some(ls) => ls,
        };
        let name = match file_stem_text(path.as_str()) {
            None => {
                return halt_now("called `Option::unwrap()` on a `None` value");
            },
            Some(n) => n,
        };
        self.finish_csv(Some((name, ls)))
    }

    fn run_xml_request(&mut self, file: String) -> (r: Reply)
        requires
            old(self)@.wf(),
        ensures
            !(r@.request is Halt) ==> final(self)@.wf(),
            effect_holds(xml_request(old(self)@, file@), final(self)@, r@),
    {
        if self.b_ws && self.b_db {
            let mut path = String::from_str("./");
            path.append(file.as_str());
            let out: Vec<Output> = Vec::new();
            assert(output_views(out@) =~= Seq::<OutputView>::empty());
            return Reply { outputs: out, request: Request::ReadXml { path, file } };
        }
        let ghost s0 = self@;
        let mut out: Vec<Output> = Vec::new();
        assert(output_views(out@) =~= Seq::<OutputView>::empty());
        if !self.b_ws {
            self.note(-12, String::new(), &mut out);
        }
        if !self.b_db {
            self.note(-13, String::new(), &mut out);
        }
        end_with_blank(out)
    }

    /// Reads the XML export asked for by `import as xml` into the active
    /// database, `contents` being the text of the file `file`.
    pub fn finish_xml(&mut self, file: &String, contents: &String) -> (r: Reply)
        requires
            old(self)@.wf(),
        ensures
            !(r@.request is Halt) ==> final(self)@.wf(),
            effect_holds(xml_finish(old(self)@, file@, contents@), final(self)@, r@),
    {
        let t = match import_xml(file, contents) {
            None => {
                return halt_now("called `Result::unwrap()` on an `Err` value");
            },
            Some(t) => t,
        };
        let (i, j) = match self.resolve_db() {
            Some(p) => p,
            None => {
                return halt_now("called `Option::unwrap()` on a `None` value");
            },
        };
        let ghost s0 = self@;
        proof {
            assert(s0.workspaces[i as int].wf());
            assert(s0.db_view(i as int, j as int).wf());
        }
        let mut d = self.swap_db(i, j, Db::new(String::new()));
        let ghost s1 = self@;
        d.insert_table(t);
        let ghost dv = d@;
        let _ = self.swap_db(i, j, d);
        proof {
            lemma_with_db_twice(s0, i as int, j as int, s1.db_view(i as int, j as int), dv);
            lemma_session_db_wf(s0, i as int, j as int, dv);
        }
        blank_reply()
    }
}

// ---------------------------------------------------------------------------
// Running a command
// ---------------------------------------------------------------------------

/// Whether the session `s2` and the reply `r` are what running the command
/// `c` in the session `s` gives.
pub open spec fn command_effect(s: SessionView, c: CommandView, s2: SessionView, r: ReplyView) -> bool {
    match c {
        CommandView::Log(code, subject) => effect_holds(log_effect(s, code, subject), s2, r),
        CommandView::Nothing => effect_holds(go_on(s, blank()), s2, r),
        CommandView::Help => effect_holds(go_on(s, seq![text_line("Help is on the way!"@)] + blank()), s2, r),
        CommandView::ClearTable => effect_holds(clear_table(s), s2, r),
        CommandView::PrintTable => effect_holds(print_table(s), s2, r),
        CommandView::Status => status(s, s2, r),
        CommandView::Exit => effect_holds(Effect { state: s, outputs: Seq::empty(), request: RequestView::Exit }, s2, r),
        CommandView::UnsetAll => effect_holds(go_on(unset_all(s), blank()), s2, r),
        CommandView::UnsetDb => effect_holds(go_on(unset_db(s), blank()), s2, r),
        CommandView::UnsetTb => effect_holds(go_on(unset_tb(s), blank()), s2, r),
        CommandView::Export(k) => effect_holds(export_command(s, k), s2, r),
        CommandView::SaveWorkspace => save_workspace(s, s2, r),
        CommandView::Order { column, reverse } => effect_holds(order_request(s, column, reverse), s2, r),
        CommandView::InsertRecord(v) => effect_holds(insert_record(s, v), s2, r),
        CommandView::SetWorkspace(x) => effect_holds(set_workspace(s, x), s2, r),
        CommandView::SetDatabase(x) => effect_holds(set_database(s, x), s2, r),
        CommandView::SetTable(x) => effect_holds(set_table(s, x), s2, r),
        CommandView::CreateWorkspace(x) => create_workspace_cmd(s, x, s2, r),
        CommandView::CreateDatabase(x) => effect_holds(create_database(s, x), s2, r),
        CommandView::DeleteTable(x) => effect_holds(delete_table(s, x), s2, r),
        CommandView::DeleteDatabase(x) => effect_holds(delete_database(s, x), s2, r),
        CommandView::DeleteWorkspace(x) => effect_holds(delete_workspace(s, x), s2, r),
        CommandView::GroupBy { column, function, target } => effect_holds(group_request(s, column, function, target), s2, r),
        CommandView::TableFromCsv(p) => effect_holds(csv_request(s, p), s2, r),
        CommandView::ImportXml(f) => effect_holds(xml_request(s, f), s2, r),
        CommandView::CreateTable { name, columns, types } => effect_holds(create_table(s, name, columns, types), s2, r),
    }
}

impl Session {
    /// Runs the command `c`.
    pub fn run(&mut self, c: Command) -> (r: Reply)
        requires
            old(self)@.wf(),
        ensures
            !(r@.request is Halt) ==> final(self)@.wf(),
            command_effect(old(self)@, c@, final(self)@, r@),
    {
        match c {
            Command::Log(code, subject) => self.log_command(code, subject),
            Command::Nothing => blank_reply(),
            Command::Help => {
                let mut out: Vec<Output> = Vec::new();
                out.push(line_of(String::from_str("Help is on the way!")));
                assert(output_views(out@) =~= seq![text_line("Help is on the way!"@)]);
                end_with_blank(out)
            },
            Command::ClearTable => self.run_clear_table(),
            Command::PrintTable => self.run_print_table(),
            Command::Status => self.run_status(),
            Command::Exit => {
                let out: Vec<Output> = Vec::new();
                assert(output_views(out@) =~= Seq::<OutputView>::empty());
                Reply { outputs: out, request: Request::Exit }
            },
            Command::UnsetAll => {
                self.b_ws = false;
                self.b_db = false;
                self.b_tb = false;
                self.a_ws = String::new();
                self.a_db = String::new();
                self.a_tb = String::new();
                blank_reply()
            },
            Command::UnsetDb => {
                self.b_db = false;
                self.b_tb = false;
                self.a_db = String::new();
                self.a_tb = String::new();
                blank_reply()
            },
            Command::UnsetTb => {
                self.b_tb = false;
                self.a_tb = String::new();
                blank_reply()
            },
            Command::Export(k) => self.run_export(k),
            Command::SaveWorkspace => self.run_save_workspace(),
            Command::Order { column, reverse } => self.run_order(column, reverse),
            Command::InsertRecord(v) => self.run_insert_record(v),
            Command::SetWorkspace(x) => self.run_set_workspace(x),
            Command::SetDatabase(x) => self.run_set_database(x),
            Command::SetTable(x) => self.run_set_table(x),
            Command::CreateWorkspace(x) => self.run_create_workspace(x),
            Command::CreateDatabase(x) => self.run_create_database(x),
            Command::DeleteTable(x) => self.run_delete_table(x),
            Command::DeleteDatabase(x) => self.run_delete_database(x),
            Command::DeleteWorkspace(x) => self.run_delete_workspace(x),
            Command::GroupBy { column, function, target } => self.run_group(column, function, target),
            Command::TableFromCsv(p) => self.run_csv_request(p),
            Command::ImportXml(f) => self.run_xml_request(f),
            Command::CreateTable { name, columns, types } => self.run_create_table(name, columns, types),
        }
    }

    /// Runs the command a line of input gives.
    pub fn execute(&mut self, input: &String) -> (r: Reply)
        requires
            old(self)@.wf(),
        ensures
            !(r@.request is Halt) ==> final(self)@.wf(),
            command_effect(old(self)@, command_of(input@), final(self)@, r@),
    {
        let c = parse_command(input);
        self.run(c)
    }

    /// The workspaces of the session.
    pub fn workspaces(&self) -> (r: &Vec<Workspace>)
        ensures
            workspace_views(r@) == self@.workspaces,
    {
        &self.workspaces
    }

    /// The session's logger.
    pub fn logger(&self) -> (r: &Logger)
        ensures
            r@ == self@.log,
    {
        &self.logger
    }
}

} // verus!
