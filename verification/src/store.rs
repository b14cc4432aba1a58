//! Databases, which hold tables by name, and workspaces, which hold
//! databases by name and keep a logger.
use vstd::prelude::*;
use crate::notice::{after_update, fresh_logger, init_Logger, Logger, LoggerView};
use crate::output::{line_of, output_views, text_line, Output, OutputView};
use crate::outside::{debug_of, debug_text, local_now_text, random_below};
use crate::table::{
    distinct, empty_table, find, is_first, lemma_find, lemma_first_unique, table_names,
    table_views, Table, TableView,
};
use crate::text::{joined, split_on, split_text, texts};

verus! {

// ---------------------------------------------------------------------------
// Databases
// ---------------------------------------------------------------------------

/// A database: a name and its tables, each name held once.
#[derive(Debug)]
pub struct Db {
    name: String,
    table: Vec<Table>,
}

pub struct DbView {
    pub name: Seq<char>,
    pub tables: Seq<TableView>,
}

impl View for Db {
    type V = DbView;

    closed spec fn view(&self) -> DbView {
        DbView { name: self.name@, tables: table_views(self.table@) }
    }
}

pub open spec fn db_views(v: Seq<Db>) -> Seq<DbView> {
    Seq::new(v.len(), |i: int| v[i]@)
}

pub open spec fn db_names(v: Seq<DbView>) -> Seq<Seq<char>> {
    Seq::new(v.len(), |i: int| v[i].name)
}

impl DbView {
    /// Table names are distinct and every table is well formed.
    pub open spec fn wf(self) -> bool {
        &&& distinct(table_names(self.tables))
        &&& forall|i: int| 0 <= i < self.tables.len() ==> (#[trigger] self.tables[i]).wf()
    }

    /// Whether a table is named `n`.
    pub open spec fn has_table(self, n: Seq<char>) -> bool {
        find(table_names(self.tables), n) is Some
    }

    /// The table named `n`, if any.
    pub open spec fn table(self, n: Seq<char>) -> Option<TableView> {
        match find(table_names(self.tables), n) {
            Some(i) => Some(self.tables[i]),
            None => None,
        }
    }

    /// The database with `t` stored under its name: in place of a table of
    /// that name, else at the end.
    pub open spec fn with_table(self, t: TableView) -> DbView {
        DbView {
            tables: match find(table_names(self.tables), t.name) {
                Some(i) => self.tables.update(i, t),
                None => self.tables.push(t),
            },
            ..self
        }
    }

    /// The database without the table named `n`.
    pub open spec fn without_table(self, n: Seq<char>) -> DbView {
        DbView {
            tables: match find(table_names(self.tables), n) {
                Some(i) => self.tables.remove(i),
                None => self.tables,
            },
            ..self
        }
    }
}

/// Storing a table under its name keeps a database well formed.
pub proof fn lemma_with_table_wf(d: DbView, t: TableView)
    requires
        d.wf(),
        t.wf(),
    ensures
        d.with_table(t).wf(),
{
    let names = table_names(d.tables);
    lemma_find(names, t.name);
    let r = d.with_table(t);
    match find(names, t.name) {
        Some(i) => {
            assert(table_names(r.tables) =~= names.update(i, t.name));
        },
        None => {
            assert(table_names(r.tables) =~= names.push(t.name));
        },
    }
}

/// Removing a table keeps a database well formed.
pub proof fn lemma_without_table_wf(d: DbView, n: Seq<char>)
    requires
        d.wf(),
    ensures
        d.without_table(n).wf(),
{
    let names = table_names(d.tables);
    lemma_find(names, n);
    let r = d.without_table(n);
    match find(names, n) {
        Some(i) => {
            assert(table_names(r.tables) =~= names.remove(i));
            assert forall|k: int| 0 <= k < r.tables.len() implies (#[trigger] r.tables[k]).wf() by {
                if k < i {
                    assert(r.tables[k] == d.tables[k]);
                } else {
                    assert(r.tables[k] == d.tables[k + 1]);
                }
            }
        },
        None => {},
    }
}

/// The text shown before a database's table names: its name between spaces.
pub open spec fn db_label(name: Seq<char>) -> Seq<char> {
    " "@ + name + " "@
}

/// The background colours a database's label may be shown on, by the
/// number drawn.
pub open spec fn shade_for(k: u32) -> (u8, u8, u8) {
    if k == 1 {
        (0, 128, 128)
    } else if k == 2 {
        (128, 0, 128)
    } else if k == 3 {
        (64, 64, 128)
    } else if k == 4 {
        (43, 12, 28)
    } else if k == 5 {
        (91, 17, 138)
    } else if k == 6 {
        (128, 100, 30)
    } else if k == 7 {
        (128, 64, 0)
    } else {
        (0, 64, 0)
    }
}

/// The line listing a database's tables, its label on the colour drawn as `k`.
pub open spec fn tables_line(d: DbView, k: u32) -> OutputView {
    OutputView::Tables { label: db_label(d.name), shade: shade_for(k), names: table_names(d.tables) }
}

/// The colour for the number drawn.
pub fn shade(k: u32) -> (r: (u8, u8, u8))
    ensures
        r == shade_for(k),
{
    if k == 1 {
        (0, 128, 128)
    } else if k == 2 {
        (128, 0, 128)
    } else if k == 3 {
        (64, 64, 128)
    } else if k == 4 {
        (43, 12, 28)
    } else if k == 5 {
        (91, 17, 138)
    } else if k == 6 {
        (128, 100, 30)
    } else if k == 7 {
        (128, 64, 0)
    } else {
        (0, 64, 0)
    }
}

/// What creating the table `x` with columns `order` of types `model` in the
/// database `d` answers, and the database after it: 3 and the empty table
/// added at the end, or -3 and `d` unchanged where a table is named `x`.
pub open spec fn table_created(d: DbView, x: Seq<char>, order: Seq<Seq<char>>, model: Seq<Seq<char>>) -> (i32, DbView) {
    if d.has_table(x) {
        (-3i32, d)
    } else {
        (3i32, DbView { tables: d.tables.push(empty_table(x, model, order)), ..d })
    }
}

/// An empty database.
pub open spec fn empty_db(name: Seq<char>) -> DbView {
    DbView { name, tables: Seq::empty() }
}

impl Db {
    /// An empty database named `name`.
    pub fn new(name: String) -> (d: Db)
        ensures
            d@ == empty_db(name@),
            d@.wf(),
    {
        let d = Db { name, table: Vec::new() };
        assert(table_views(d.table@) =~= Seq::<TableView>::empty());
        d
    }

    #[allow(non_snake_case)]
    pub fn getName(&self) -> (r: &String)
        ensures
            r@ == self@.name,
    {
        return &self.name;
    }

    #[allow(non_snake_case)]
    pub fn getTables(&self) -> (r: &Vec<Table>)
        ensures
            table_views(r@) == self@.tables,
    {
        return &self.table;
    }

    /// The position of the table named `n`.
    pub fn find_table(&self, n: &String) -> (r: Option<usize>)
        ensures
            r matches Some(i) ==> find(table_names(self@.tables), n@) == Some(i as int),
            r is None ==> find(table_names(self@.tables), n@) is None,
    {
        let mut i: usize = 0;
        while i < self.table.len()
            invariant
                i <= self.table.len(),
                table_views(self.table@) == self@.tables,
                forall|j: int| 0 <= j < i ==> table_names(self@.tables)[j] != n@,
            decreases self.table.len() - i,
        {
            if *self.table[i].name() == *n {
                proof {
                    let names = table_names(self@.tables);
                    assert(is_first(names, n@, i as int));
                    lemma_find(names, n@);
                    lemma_first_unique(names, n@, i as int, find(names, n@)->0);
                }
                return Some(i);
            }
            i = i + 1;
        }
        proof {
            lemma_find(table_names(self@.tables), n@);
        }
        None
    }

    /// Adds an empty table named `x` with columns `y` of types `z` and
    /// answers 3; where a table of that name exists, changes nothing and
    /// answers -3.
    #[allow(non_snake_case)]
    pub fn createTable(&mut self, x: String, y: Vec<String>, z: Vec<String>) -> (code: i32)
        requires
            old(self)@.wf(),
        ensures
            final(self)@.wf(),
            (code, final(self)@) == table_created(old(self)@, x@, texts(y@), texts(z@)),
    {
        if self.find_table(&x).is_some() {
            return -3;
        }
        let v = Table::new(x, z, y);
        self.insert_table(v);
        return 3;
    }

    /// Stores `t` under its name, in place of a table of that name.
    pub fn insert_table(&mut self, t: Table)
        requires
            old(self)@.wf(),
            t@.wf(),
        ensures
            final(self)@ == old(self)@.with_table(t@),
            final(self)@.wf(),
    {
        let ghost d0 = self@;
        let ghost tv = t@;
        let pos = self.find_table(t.name());
        match pos {
            Some(i) => {
                self.table.set(i, t);
                assert(table_views(self.table@) =~= d0.tables.update(i as int, tv));
            },
            None => {
                self.table.push(t);
                assert(table_views(self.table@) =~= d0.tables.push(tv));
            },
        }
        proof {
            lemma_with_table_wf(d0, tv);
        }
    }

    /// Removes the table named `n`, if there is one.
    pub fn remove_table(&mut self, n: &String)
        requires
            old(self)@.wf(),
        ensures
            final(self)@ == old(self)@.without_table(n@),
            final(self)@.wf(),
    {
        let ghost d0 = self@;
        match self.find_table(n) {
            Some(i) => {
                self.table.remove(i);
                assert(table_views(self.table@) =~= d0.tables.remove(i as int));
            },
            None => {},
        }
        proof {
            lemma_without_table_wf(d0, n@);
        }
    }

    /// Puts `t` at position `i` and hands back the table that stood there.
    pub fn swap_table(&mut self, i: usize, t: Table) -> (old_t: Table)
        requires
            i < old(self)@.tables.len(),
        ensures
            old_t@ == old(self)@.tables[i as int],
            final(self)@ == (DbView { tables: old(self)@.tables.update(i as int, t@), ..old(self)@ }),
    {
        let mut t = t;
        let ghost tv = t@;
        let ghost d0 = self@;
        std::mem::swap(&mut t, &mut self.table[i]);
        assert(table_views(self.table@) =~= d0.tables.update(i as int, tv));
        t
    }

    /// The table at position `i`.
    pub fn table_ref(&self, i: usize) -> (t: &Table)
        requires
            i < self@.tables.len(),
        ensures
            t@ == self@.tables[i as int],
    {
        &self.table[i]
    }

    /// The names of the tables, in order.
    pub fn table_name_list(&self) -> (r: Vec<String>)
        ensures
            texts(r@) == table_names(self@.tables),
    {
        let mut r: Vec<String> = Vec::new();
        let mut i: usize = 0;
        while i < self.table.len()
            invariant
                i <= self.table.len(),
                table_views(self.table@) == self@.tables,
                texts(r@) == table_names(self@.tables).take(i as int),
            decreases self.table.len() - i,
        {
            let ghost r0 = r@;
            r.push(self.table[i].name().clone());
            proof {
                assert(texts(r@) =~= texts(r0).push(table_names(self@.tables)[i as int]));
                assert(table_names(self@.tables).take(i + 1) =~= table_names(self@.tables).take(
                    i as int,
                ).push(table_names(self@.tables)[i as int]));
            }
            i = i + 1;
        }
        assert(table_names(self@.tables).take(i as int) =~= table_names(self@.tables));
        r
    }

    /// The line listing the tables, the label on the colour drawn as `k`.
    pub fn tables_line_for(&self, k: u32) -> (o: Output)
        ensures
            o@ == tables_line(self@, k),
    {
        let mut label = String::from_str(" ");
        label.append(self.name.as_str());
        label.append(" ");
        Output::Tables { label, shade: shade(k), names: self.table_name_list() }
    }

    /// The line listing the tables, the label on a colour drawn at random.
    pub fn print(&self) -> (o: Output)
        ensures
            exists|k: u32| k < 9 && o@ == tables_line(self@, k),
    {
        let num = random_below(9);
        self.tables_line_for(num)
    }
}

// ---------------------------------------------------------------------------
// Workspaces
// ---------------------------------------------------------------------------

/// A workspace: a name, an author, a line of metadata, its databases, each
/// name held once, and its logger.
#[derive(Debug)]
pub struct Workspace {
    name: String,
    author: String,
    metadata: String,
    database: Vec<Db>,
    logger: Logger,
}

pub struct WorkspaceView {
    pub name: Seq<char>,
    pub author: Seq<char>,
    pub metadata: Seq<char>,
    pub databases: Seq<DbView>,
    pub log: LoggerView,
}

impl View for Workspace {
    type V = WorkspaceView;

    closed spec fn view(&self) -> WorkspaceView {
        WorkspaceView {
            name: self.name@,
            author: self.author@,
            metadata: self.metadata@,
            databases: db_views(self.database@),
            log: self.logger@,
        }
    }
}

pub open spec fn workspace_views(v: Seq<Workspace>) -> Seq<WorkspaceView> {
    Seq::new(v.len(), |i: int| v[i]@)
}

pub open spec fn workspace_names(v: Seq<WorkspaceView>) -> Seq<Seq<char>> {
    Seq::new(v.len(), |i: int| v[i].name)
}

/// The names joined with `, ` between them.
pub open spec fn joined_names(names: Seq<Seq<char>>) -> Seq<char>
    decreases names.len(),
{
    if names.len() == 0 {
        Seq::empty()
    } else if names.len() == 1 {
        names[0]
    } else {
        joined_names(names.drop_last()) + ", "@ + names.last()
    }
}

/// The names as a bracketed list: `[a, b]`, and `[]` for none.
pub open spec fn name_list_text(names: Seq<Seq<char>>) -> Seq<char> {
    "["@ + joined_names(names) + "]"@
}

/// The text that starts the metadata of a workspace.
pub open spec fn created_prefix() -> Seq<char> {
    "Date Created : "@
}

/// A new workspace with no databases, created at the time written `stamp`.
pub open spec fn new_workspace(x: Seq<char>, y: Seq<char>, stamp: Seq<char>) -> WorkspaceView {
    WorkspaceView {
        name: x,
        author: y,
        metadata: created_prefix() + stamp,
        databases: Seq::empty(),
        log: fresh_logger(),
    }
}

/// The lines that show a workspace: a blank line, its name, author,
/// metadata and database names, then a line per database with its tables,
/// each on the colour drawn for it.
pub open spec fn workspace_lines(w: WorkspaceView, draws: Seq<u32>) -> Seq<OutputView> {
    seq![
        OutputView::Blank,
        text_line("Name => "@ + debug_of(w.name)),
        text_line("Author => "@ + debug_of(w.author)),
        text_line("Metadata => "@ + debug_of(w.metadata)),
        text_line("Databases => "@ + debug_of(name_list_text(db_names(w.databases)))),
    ] + Seq::new(w.databases.len(), |i: int| tables_line(w.databases[i], draws[i]))
}

impl WorkspaceView {
    /// Database names are distinct and every database is well formed.
    pub open spec fn wf(self) -> bool {
        &&& distinct(db_names(self.databases))
        &&& forall|i: int| 0 <= i < self.databases.len() ==> (#[trigger] self.databases[i]).wf()
    }

    /// Whether a database is named `n`.
    pub open spec fn has_db(self, n: Seq<char>) -> bool {
        find(db_names(self.databases), n) is Some
    }

    /// The database named `n`, if any.
    pub open spec fn db(self, n: Seq<char>) -> Option<DbView> {
        match find(db_names(self.databases), n) {
            Some(i) => Some(self.databases[i]),
            None => None,
        }
    }

    /// The logger after logging `code` with subject `subject`.
    pub open spec fn logged(self, code: i32, subject: Seq<char>) -> LoggerView {
        after_update(self.log, code, subject)
    }
}

/// The workspace after adding the database `x`: an empty database at the
/// end where none is named `x`, else the code -3 logged with subject `x`.
pub open spec fn db_added(w: WorkspaceView, x: Seq<char>) -> WorkspaceView {
    if w.has_db(x) {
        WorkspaceView { log: w.logged(-3i32, x), ..w }
    } else {
        WorkspaceView { databases: w.databases.push(empty_db(x)), ..w }
    }
}

/// A new workspace named `x` by author `y`, created at the time written `stamp`.
pub fn create_workspace_at(x: String, y: String, stamp: String) -> (w: Workspace)
    ensures
        w@ == new_workspace(x@, y@, stamp@),
        w@.wf(),
{
    let mut meta = String::new();
    meta.append("Date Created : ");
    meta.append(stamp.as_str());
    let w = Workspace { name: x, author: y, metadata: meta, database: Vec::new(), logger: init_Logger() };
    assert(db_views(w.database@) =~= Seq::<DbView>::empty());
    w
}

/// A new workspace named `x` by author `y`, created now.
pub fn create_workspace(x: String, y: String) -> (w: Workspace)
    ensures
        exists|stamp: Seq<char>| w@ == new_workspace(x@, y@, stamp),
        w@.wf(),
{
    let stamp = local_now_text();
    create_workspace_at(x, y, stamp)
}

impl Workspace {
    #[allow(non_snake_case)]
    pub fn getName(&self) -> (r: &String)
        ensures
            r@ == self@.name,
    {
        return &self.name;
    }

    #[allow(non_snake_case)]
    pub fn getAuthor(&self) -> (r: &String)
        ensures
            r@ == self@.author,
    {
        return &self.author;
    }

    #[allow(non_snake_case)]
    pub fn getMetadata(&self) -> (r: &String)
        ensures
            r@ == self@.metadata,
    {
        return &self.metadata;
    }

    #[allow(non_snake_case)]
    pub fn getDB(&self) -> (r: &Vec<Db>)
        ensures
            db_views(r@) == self@.databases,
    {
        return &self.database;
    }

    /// The workspace's logger.
    pub fn logger(&self) -> (r: &Logger)
        ensures
            r@ == self@.log,
    {
        &self.logger
    }

    /// Hands out the notices the workspace's logger has shown.
    pub fn take_notices(&mut self) -> (r: Vec<crate::notice::Notice>)
        ensures
            r@.map_values(|n: crate::notice::Notice| n@) == old(self)@.log.shown,
            final(self)@ == (WorkspaceView {
                log: LoggerView { shown: Seq::empty(), ..old(self)@.log },
                ..old(self)@
            }),
    {
        self.logger.take_notices()
    }

    /// Logs a code with no documented meaning.
    #[allow(non_snake_case)]
    pub fn throwUC(&mut self)
        ensures
            final(self)@ == (WorkspaceView { log: old(self)@.logged(-99999i32, Seq::empty()), ..old(self)@ }),
    {
        //Force throws undocumented error code exception!
        self.logger.update(-99999, String::from_str(""));
    }

    /// Switches the logger between showing and hiding positive codes.
    #[allow(non_snake_case)]
    pub fn toggleLogger(&mut self)
        ensures
            final(self)@ == (WorkspaceView {
                log: LoggerView { positives: !old(self)@.log.positives, ..old(self)@.log },
                ..old(self)@
            }),
    {
        self.logger.toggle();
    }

    /// The position of the database named `n`.
    pub fn find_db(&self, n: &String) -> (r: Option<usize>)
        ensures
            r matches Some(i) ==> find(db_names(self@.databases), n@) == Some(i as int),
            r is None ==> find(db_names(self@.databases), n@) is None,
    {
        let mut i: usize = 0;
        while i < self.database.len()
            invariant
                i <= self.database.len(),
                db_views(self.database@) == self@.databases,
                forall|j: int| 0 <= j < i ==> db_names(self@.databases)[j] != n@,
            decreases self.database.len() - i,
        {
            if *self.database[i].getName() == *n {
                proof {
                    let names = db_names(self@.databases);
                    assert(is_first(names, n@, i as int));
                    lemma_find(names, n@);
                    lemma_first_unique(names, n@, i as int, find(names, n@)->0);
                }
                return Some(i);
            }
            i = i + 1;
        }
        proof {
            lemma_find(db_names(self@.databases), n@);
        }
        None
    }

    /// The database names as a bracketed list, `[a, b]`.
    #[allow(non_snake_case)]
    pub fn getDBNames(&self) -> (r: String)
        ensures
            r@ == name_list_text(db_names(self@.databases)),
    {
        let g = &self.database;
        let mut x = String::from_str("[");
        if g.len() == 0 {
            proof {
                reveal_strlit("[]");
                reveal_strlit("[");
                reveal_strlit("]");
                assert(db_names(self@.databases) =~= Seq::<Seq<char>>::empty());
                assert("[]"@ =~= "["@ + joined_names(Seq::<Seq<char>>::empty()) + "]"@);
            }
            return String::from_str("[]");
        }
        let ghost names = db_names(self@.databases);
        let mut i: usize = 0;
        while i < g.len()
            invariant
                g@ == self.database@,
                db_views(g@) == self@.databases,
                names == db_names(self@.databases),
                i <= g.len(),
                x@ == "["@ + joined_names(names.take(i as int)),
            decreases g.len() - i,
        {
            if i > 0 {
                x.append(", ");
            }
            x.append(g[i].getName().as_str());
            proof {
                let t = names.take(i + 1);
                assert(t.drop_last() =~= names.take(i as int));
                assert(t.last() == names[i as int]);
                if i == 0 {
                    assert(joined_names(t) == names[0]);
                    assert(x@ =~= "["@ + joined_names(t));
                } else {
                    assert(x@ =~= "["@ + joined_names(t));
                }
            }
            i = i + 1;
        }
        x.append("]");
        assert(names.take(i as int) =~= names);
        return x;
    }

    /// The lines that show the workspace, each database's colour drawn at random.
    pub fn print(&self) -> (r: Vec<Output>)
        ensures
            exists|draws: Seq<u32>|
                draws.len() == self@.databases.len() && (forall|i: int| 0 <= i < draws.len() ==> draws[i] < 9)
                    && output_views(r@) == workspace_lines(self@, draws),
    {
        let mut r: Vec<Output> = Vec::new();
        r.push(Output::Blank);
        let l1 = joined(&String::from_str("Name => "), debug_text(self.name.as_str()).as_str());
        r.push(line_of(l1));
        let l2 = joined(&String::from_str("Author => "), debug_text(self.author.as_str()).as_str());
        r.push(line_of(l2));
        let l3 = joined(&String::from_str("Metadata => "), debug_text(self.metadata.as_str()).as_str());
        r.push(line_of(l3));
        let names = self.getDBNames();
        let l4 = joined(&String::from_str("Databases => "), debug_text(names.as_str()).as_str());
        r.push(line_of(l4));
        let ghost head = output_views(r@);
        let ghost mut draws: Seq<u32> = Seq::empty();
        let mut i: usize = 0;
        while i < self.database.len()
            invariant
                i <= self.database.len(),
                db_views(self.database@) == self@.databases,
                draws.len() == i,
                forall|k: int| 0 <= k < i ==> draws[k] < 9,
                output_views(r@) == head + Seq::new(
                    i as nat,
                    |k: int| tables_line(self@.databases[k], draws[k]),
                ),
            decreases self.database.len() - i,
        {
            let num = random_below(9);
            let o = self.database[i].tables_line_for(num);
            let ghost r0 = output_views(r@);
            r.push(o);
            proof {
                let d1 = draws.push(num);
                assert(output_views(r@) =~= r0.push(o@));
                assert(Seq::new((i + 1) as nat, |k: int| tables_line(self@.databases[k], d1[k]))
                    =~= Seq::new(i as nat, |k: int| tables_line(self@.databases[k], draws[k])).push(o@));
                draws = d1;
            }
            i = i + 1;
        }
        proof {
            let w = self@;
            assert(head =~= seq![
                OutputView::Blank,
                text_line("Name => "@ + debug_of(w.name)),
                text_line("Author => "@ + debug_of(w.author)),
                text_line("Metadata => "@ + debug_of(w.metadata)),
                text_line("Databases => "@ + debug_of(name_list_text(db_names(w.databases)))),
            ]);
            assert(output_views(r@) =~= workspace_lines(w, draws));
        }
        r
    }

    /// Adds an empty database named `x`; where one of that name exists,
    /// logs code -3 with subject `x` instead.
    #[allow(non_snake_case)]
    pub fn addDB(&mut self, x: String)
        requires
            old(self)@.wf(),
        ensures
            final(self)@.wf(),
            final(self)@ == db_added(old(self)@, x@),
    {
        if self.find_db(&x).is_some() {
            self.logger.update(-3, x);
            return;
        }
        let ghost w0 = self@;
        let y = Db::new(x.clone());
        self.database.push(y);
        proof {
            lemma_find(db_names(w0.databases), x@);
            assert(db_views(self.database@) =~= w0.databases.push(empty_db(x@)));
            assert(db_names(self@.databases) =~= db_names(w0.databases).push(x@));
            assert forall|i: int| 0 <= i < self@.databases.len() implies (#[trigger] self@.databases[i]).wf() by {
                if i < w0.databases.len() {
                    assert(self@.databases[i] == w0.databases[i]);
                }
            }
        }
    }

    /// The databases, to change in place.
    #[allow(non_snake_case)]
    pub fn fetchDB(&mut self) -> (r: &mut Vec<Db>)
        ensures
            db_views(r@) == old(self)@.databases,
            final(self)@ == (WorkspaceView { databases: db_views(final(r)@), ..old(self)@ }),
    {
        return &mut self.database;
    }

    /// Puts `d` at position `i` and hands back the database that stood there.
    pub fn swap_db(&mut self, i: usize, d: Db) -> (old_d: Db)
        requires
            i < old(self)@.databases.len(),
        ensures
            old_d@ == old(self)@.databases[i as int],
            final(self)@ == (WorkspaceView {
                databases: old(self)@.databases.update(i as int, d@),
                ..old(self)@
            }),
    {
        let mut d = d;
        let ghost dv = d@;
        let ghost w0 = self@;
        std::mem::swap(&mut d, &mut self.database[i]);
        assert(db_views(self.database@) =~= w0.databases.update(i as int, dv));
        d
    }

    /// The database at position `i`.
    pub fn db_ref(&self, i: usize) -> (d: &Db)
        requires
            i < self@.databases.len(),
        ensures
            d@ == self@.databases[i as int],
    {
        &self.database[i]
    }

    /// Removes the database named `n`, if there is one.
    pub fn remove_db(&mut self, n: &String)
        requires
            old(self)@.wf(),
        ensures
            final(self)@.wf(),
            final(self)@ == (WorkspaceView {
                databases: match find(db_names(old(self)@.databases), n@) {
                    Some(i) => old(self)@.databases.remove(i),
                    None => old(self)@.databases,
                },
                ..old(self)@
            }),
    {
        let ghost w0 = self@;
        proof {
            lemma_find(db_names(w0.databases), n@);
        }
        match self.find_db(n) {
            Some(i) => {
                self.database.remove(i);
                proof {
                    assert(db_views(self.database@) =~= w0.databases.remove(i as int));
                    assert(db_names(self@.databases) =~= db_names(w0.databases).remove(i as int));
                    assert forall|k: int| 0 <= k < self@.databases.len() implies (#[trigger] self@.databases[k]).wf() by {
                        if k < i {
                            assert(self@.databases[k] == w0.databases[k]);
                        } else {
                            assert(self@.databases[k] == w0.databases[k + 1]);
                        }
                    }
                }
            },
            None => {},
        }
    }

    /// Whether a database is named `x`; where none is, logs code -1 with
    /// subject `x`.
    #[allow(non_snake_case)]
    pub fn fetchDB_name(&mut self, x: String) -> (r: bool)
        ensures
            r == old(self)@.has_db(x@),
            r ==> final(self)@ == old(self)@,
            !r ==> final(self)@ == (WorkspaceView { log: old(self)@.logged(-1i32, x@), ..old(self)@ }),
    {
        if self.find_db(&x).is_some() {
            return true;
        } else {
            self.logger.update(-1, x);
            return false;
        }
    }

    /// In the database `DB`, adds an empty table `name` whose columns are
    /// the comma-separated `headers`, each typed by the comma-separated
    /// `model` at its position, and logs the code `Db::createTable`
    /// answered with subject `name`. Where there is no such database, logs
    /// code -1 with subject `DB` instead.
    #[allow(non_snake_case)]
    pub fn createTable(&mut self, DB: String, name: String, headers: String, model: String)
        requires
            old(self)@.wf(),
            old(self)@.has_db(DB@) ==> split_on(model@, ',').len() >= split_on(headers@, ',').len(),
        ensures
            final(self)@.wf(),
            !old(self)@.has_db(DB@) ==> final(self)@ == (WorkspaceView {
                log: old(self)@.logged(-1i32, DB@),
                ..old(self)@
            }),
            old(self)@.has_db(DB@) ==> {
                let d = old(self)@.db(DB@)->0;
                let i = find(db_names(old(self)@.databases), DB@)->0;
                let cols = split_on(headers@, ',');
                let types = split_on(model@, ',').take(cols.len() as int);
                if d.has_table(name@) {
                    final(self)@ == (WorkspaceView { log: old(self)@.logged(-3i32, name@), ..old(self)@ })
                } else {
                    final(self)@ == (WorkspaceView {
                        databases: old(self)@.databases.update(
                            i,
                            DbView { tables: d.tables.push(empty_table(name@, types, cols)), ..d },
                        ),
                        log: old(self)@.logged(3i32, name@),
                        ..old(self)@
                    })
                }
            },
    {
        #[allow(non_snake_case)]
        let check_DB = self.fetchDB_name(DB.clone());
        if !check_DB {
            return;
        }
        let ghost w0 = self@;
        let pos = self.find_db(&DB);
        let i = match pos {
            Some(i) => i,
            None => {
                return;
            },
        };
        let x = split_text(headers.as_str(), ',');
        let y = split_text(model.as_str(), ',');
        #[allow(non_snake_case)]
        let mut HEAD: Vec<String> = Vec::new();
        #[allow(non_snake_case)]
        let mut MDL: Vec<String> = Vec::new();
        let mut k: usize = 0;
        while k < x.len()
            invariant
                k <= x.len() <= y.len(),
                texts(HEAD@) == texts(x@).take(k as int),
                texts(MDL@) == texts(y@).take(k as int),
            decreases x.len() - k,
        {
            let ghost h0 = HEAD@;
            let ghost m0 = MDL@;
            HEAD.push(x[k].clone());
            MDL.push(y[k].clone());
            proof {
                assert(texts(HEAD@) =~= texts(h0).push(texts(x@)[k as int]));
                assert(texts(MDL@) =~= texts(m0).push(texts(y@)[k as int]));
                assert(texts(x@).take(k + 1) =~= texts(x@).take(k as int).push(texts(x@)[k as int]));
                assert(texts(y@).take(k + 1) =~= texts(y@).take(k as int).push(texts(y@)[k as int]));
            }
            k = k + 1;
        }
        assert(texts(x@).take(k as int) =~= texts(x@));
        proof {
            assert(self@.databases[i as int].wf());
            lemma_find(db_names(w0.databases), DB@);
            assert(w0.has_db(DB@));
        }
        let mut db = self.swap_db(i, Db::new(String::new()));
        let ghost d0 = db@;
        let ec = db.createTable(name.clone(), HEAD, MDL);
        let ghost d1 = db@;
        let _ = self.swap_db(i, db);
        proof {
            assert(d0 == w0.databases[i as int]);
            assert(self@.databases == w0.databases.update(i as int, d1));
            assert(db_names(self@.databases) =~= db_names(w0.databases));
            assert forall|j: int| 0 <= j < self@.databases.len() implies (#[trigger] self@.databases[j]).wf() by {
                if j != i {
                    assert(self@.databases[j] == w0.databases[j]);
                }
            }
            if d0.has_table(name@) {
                assert(self@.databases =~= w0.databases);
            }
            lemma_find(db_names(w0.databases), DB@);
        }
        self.logger.update(ec, name.clone());
    }
}

} // verus!
