//! What the commands are for, stated over their inputs and results: which
//! columns a grouping or an ordering works on, which column types a table
//! may declare and how each is stored and written.
use vstd::prelude::*;
use crate::command::CommandView;
use crate::exchange::{cell_export, value_kind, with_empty_columns, Format, ValueKind};
use crate::order::{greatest, group_result, least, sums_fit, total, GroupView};
use crate::output::{OutputView, PieceView, ReplyView, RequestView};
use crate::outside::lowercase_of;
use crate::session::{command_effect, record_cell, SessionView};
use crate::table::{empty_table, find, lemma_find, shown_as, table_names, CellView, TableView};
use crate::text::{int_text, parse_i32, parse_i64, replace_all, split_on};

verus! {

/// The lengths and first two letters of the words the commands and types
/// use, which tell them apart.
proof fn lemma_words()
    ensures
        "integer"@.len() == 7,
        "integer"@[0] == 'i',
        "integer"@[1] == 'n',
        "int"@.len() == 3,
        "int"@[0] == 'i',
        "int"@[1] == 'n',
        "i32"@.len() == 3,
        "i32"@[0] == 'i',
        "i32"@[1] == '3',
        "number"@.len() == 6,
        "number"@[0] == 'n',
        "number"@[1] == 'u',
        "string"@.len() == 6,
        "string"@[0] == 's',
        "string"@[1] == 't',
        "word"@.len() == 4,
        "word"@[0] == 'w',
        "word"@[1] == 'o',
        "str"@.len() == 3,
        "str"@[0] == 's',
        "str"@[1] == 't',
        "char"@.len() == 4,
        "char"@[0] == 'c',
        "char"@[1] == 'h',
        "letter"@.len() == 6,
        "letter"@[0] == 'l',
        "letter"@[1] == 'e',
        "float"@.len() == 5,
        "float"@[0] == 'f',
        "float"@[1] == 'l',
        "f64"@.len() == 3,
        "f64"@[0] == 'f',
        "f64"@[1] == '6',
        "bool"@.len() == 4,
        "bool"@[0] == 'b',
        "bool"@[1] == 'o',
        "boolean"@.len() == 7,
        "boolean"@[0] == 'b',
        "boolean"@[1] == 'o',
        "i64"@.len() == 3,
        "i64"@[0] == 'i',
        "i64"@[1] == '6',
        "f32"@.len() == 3,
        "f32"@[0] == 'f',
        "f32"@[1] == '3',
        "orderby"@.len() == 7,
        "orderby"@[0] == 'o',
        "orderby"@[1] == 'r',
        "orderbyrev"@.len() == 10,
        "orderbyrev"@[0] == 'o',
        "orderbyrev"@[1] == 'r',
        "print"@.len() == 5,
        "print"@[0] == 'p',
        "print"@[1] == 'r',
        "groupby"@.len() == 7,
        "groupby"@[0] == 'g',
        "groupby"@[1] == 'r',
{
    reveal_strlit("integer");
    reveal_strlit("int");
    reveal_strlit("i32");
    reveal_strlit("number");
    reveal_strlit("string");
    reveal_strlit("word");
    reveal_strlit("str");
    reveal_strlit("char");
    reveal_strlit("letter");
    reveal_strlit("float");
    reveal_strlit("f64");
    reveal_strlit("bool");
    reveal_strlit("boolean");
    reveal_strlit("i64");
    reveal_strlit("f32");
    reveal_strlit("orderby");
    reveal_strlit("orderbyrev");
    reveal_strlit("print");
    reveal_strlit("groupby");
}

/// How the values of a column are rendered when they are handed out:
/// value `r` in position `r`, each as the table shows it.
pub open spec fn rendered(values: Seq<CellView>) -> Seq<PieceView> {
    Seq::new(values.len(), |r: int| shown_as(values[r], false))
}

// ---------------------------------------------------------------------------
// Grouping and ordering
// ---------------------------------------------------------------------------

/// `groupby column function target` hands out, where it asks for the
/// grouping, the rendered values of the column named `column` as the keys
/// that form the groups, and those of the column named `target` as the
/// values the function is applied to, both of the active table.
pub proof fn law_groupby_uses_its_columns(
    s: SessionView,
    column: Seq<char>,
    function: Seq<char>,
    target: Seq<char>,
    s2: SessionView,
    r: ReplyView,
)
    requires
        command_effect(s, CommandView::GroupBy { column, function, target }, s2, r),
        r.request is Group,
    ensures
        s.tb_at() is Some,
        ({
            let (i, j, k) = s.tb_at()->0;
            let t = s.table_view(i, j, k);
            &&& t.column(column) is Some
            &&& t.column(target) is Some
            &&& r.request == RequestView::Group {
                function,
                keys: rendered(t.column(column)->0.values),
                values: rendered(t.column(target)->0.values),
            }
        }),
        s2 == s,
{
}

/// `print orderby column` and `print orderbyrev column` hand out, where
/// they ask for the ordering, the rendered values of the column named
/// `column` of the active table, and the direction the command gave.
pub proof fn law_order_keeps_direction(
    s: SessionView,
    column: Seq<char>,
    reverse: bool,
    s2: SessionView,
    r: ReplyView,
)
    requires
        command_effect(s, CommandView::Order { column, reverse }, s2, r),
        r.request is Order,
    ensures
        s.tb_at() is Some,
        ({
            let (i, j, k) = s.tb_at()->0;
            let t = s.table_view(i, j, k);
            &&& t.column(column) is Some
            &&& r.request == RequestView::Order { column, keys: rendered(t.column(column)->0.values), reverse }
        }),
        s2 == s,
{
}

/// A line of input `print orderby x` asks for the ascending order by `x`
/// and `print orderbyrev x` for the descending order, whatever the case of
/// the two words; `groupby a f b` groups by `a` and applies `f` to `b`,
/// each taken in lower case.
pub proof fn law_order_and_group_words(input: Seq<char>)
    ensures
        ({
            let g = split_on(input, ' ');
            &&& g.len() == 3 && lowercase_of(g[0]) == "print"@ && lowercase_of(g[1]) == "orderby"@
                ==> crate::command::command_of(input) == CommandView::Order { column: g[2], reverse: false }
            &&& g.len() == 3 && lowercase_of(g[0]) == "print"@ && lowercase_of(g[1]) == "orderbyrev"@
                ==> crate::command::command_of(input) == CommandView::Order { column: g[2], reverse: true }
            &&& g.len() == 4 && lowercase_of(g[0]) == "groupby"@
                ==> crate::command::command_of(input) == CommandView::GroupBy {
                    column: lowercase_of(g[1]),
                    function: lowercase_of(g[2]),
                    target: lowercase_of(g[3]),
                }
        }),
{
    lemma_words();
    reveal_strlit("print");
    reveal_strlit("orderby");
    reveal_strlit("orderbyrev");
    reveal_strlit("groupby");
    reveal_strlit("insert");
    reveal_strlit("set");
    reveal_strlit("create");
    reveal_strlit("delete");
    reveal_strlit("unset");
    reveal_strlit("export");
    reveal_strlit("save");
    reveal_strlit("table");
    reveal_strlit("import");
}

// ---------------------------------------------------------------------------
// Column types
// ---------------------------------------------------------------------------

/// The column types a table may declare, in lower case.
pub open spec fn declarable(ty: Seq<char>) -> bool {
    ||| ty == "integer"@ || ty == "int"@ || ty == "i32"@ || ty == "number"@
    ||| ty == "string"@ || ty == "word"@ || ty == "str"@
    ||| ty == "char"@ || ty == "letter"@
    ||| ty == "float"@ || ty == "f64"@
    ||| ty == "bool"@ || ty == "boolean"@
}

/// Every type a table may declare is written with its value by an export:
/// integers as numbers, texts and letters quoted, floats as floats and
/// booleans as booleans. No other type is written.
pub proof fn law_export_kinds(ty: Seq<char>)
    ensures
        (ty == "integer"@ || ty == "int"@ || ty == "i32"@ || ty == "number"@) ==> value_kind(ty) == ValueKind::Number,
        (ty == "string"@ || ty == "word"@ || ty == "str"@) ==> value_kind(ty) == ValueKind::Quoted,
        (ty == "char"@ || ty == "letter"@) ==> value_kind(ty) == ValueKind::Letter,
        (ty == "float"@ || ty == "f64"@) ==> value_kind(ty) == ValueKind::Wide,
        (ty == "bool"@ || ty == "boolean"@) ==> value_kind(ty) == ValueKind::Flag,
        declarable(ty) <==> value_kind(ty) != ValueKind::Skip,
{
    lemma_words();
}

/// A boolean cell of a boolean column is written as `true` or `false`, in
/// every format, and shown as such where the format shows values.
pub proof fn law_export_booleans(fmt: Format, ty: Seq<char>, b: bool)
    requires
        ty == "bool"@ || ty == "boolean"@,
    ensures
        cell_export(fmt, value_kind(ty), Some(CellView::Bool(b))) matches Some((d, e)) && d == seq![
            PieceView::Text(if b { "true"@ } else { "false"@ }),
        ] && (fmt != Format::Xml ==> e == seq![crate::output::text_line(if b { "true"@ } else { "false"@ })]),
{
    law_export_kinds(ty);
}

/// The types a table may declare are exactly those listed in `declarable`.
pub proof fn law_declarable_types(ty: Seq<char>)
    ensures
        crate::session::is_known_type(ty) <==> declarable(ty),
{
    lemma_words();
}

/// What a field of `insert record` stores, by the lower-case type of its
/// column: a boolean column stores `true` exactly when the field, in lower
/// case, is `true`; an integer column the integer the field reads as, the
/// program stopping where it does not read; a text column the field with
/// `%20` read as a space; a character column the field as it is; a column
/// of another type nothing.
pub proof fn law_record_cells(ty: Seq<char>, v: Seq<char>)
    ensures
        ty == "boolean"@ ==> record_cell(ty, v) == Some(Some(CellView::Bool(lowercase_of(v) == "true"@))),
        (ty == "i32"@ || ty == "integer"@ || ty == "int"@) ==> record_cell(ty, v) == match parse_i32(v) {
            Some(x) => Some(Some(CellView::Int(x))),
            None => None,
        },
        ty == "i64"@ ==> record_cell(ty, v) == match parse_i64(v) {
            Some(x) => Some(Some(CellView::Long(x))),
            None => None,
        },
        ty == "string"@ ==> record_cell(ty, v) == Some(Some(CellView::Text(replace_all(v, "%20"@, " "@)))),
        ty == "char"@ ==> record_cell(ty, v) == Some(Some(CellView::Text(v))),
        (ty == "word"@ || ty == "str"@ || ty == "letter"@ || ty == "number"@ || ty == "bool"@ || ty == "f64"@)
            ==> record_cell(ty, v) == Some(None::<CellView>),
{
    lemma_words();
    reveal_strlit("boolean");
    reveal_strlit("i32");
    reveal_strlit("integer");
    reveal_strlit("int");
    reveal_strlit("i64");
    reveal_strlit("string");
    reveal_strlit("char");
    reveal_strlit("f32");
    reveal_strlit("float");
    reveal_strlit("word");
    reveal_strlit("str");
    reveal_strlit("letter");
    reveal_strlit("number");
    reveal_strlit("bool");
    reveal_strlit("f64");
}

proof fn lemma_with_empty_columns_keeps(t: TableView, names: Seq<Seq<char>>)
    ensures
        with_empty_columns(t, names).name == t.name,
        with_empty_columns(t, names).model == t.model,
        with_empty_columns(t, names).order == t.order,
        with_empty_columns(t, names).rows == t.rows,
    decreases names.len(),
{
    if names.len() > 0 {
        lemma_with_empty_columns_keeps(t, names.drop_last());
    }
}

proof fn lemma_with_table_holds(d: crate::store::DbView, t: TableView)
    ensures
        d.with_table(t).table(t.name) == Some(t),
{
    let names = table_names(d.tables);
    lemma_find(names, t.name);
    match find(names, t.name) {
        Some(p) => {
            assert(table_names(d.with_table(t).tables) =~= names);
        },
        None => {
            let n2 = names.push(t.name);
            assert(table_names(d.with_table(t).tables) =~= n2);
            assert(crate::table::is_first(n2, t.name, names.len() as int));
            lemma_find(n2, t.name);
            crate::table::lemma_first_unique(n2, t.name, names.len() as int, find(n2, t.name)->0);
        },
    }
}

/// `create table name columns types` in a session with an active
/// workspace and database, with as many `:`-separated types as columns and
/// every type, in lower case, one a table may declare: the active database
/// then holds an empty table `name` with those columns and types, and no
/// notice is shown.
pub proof fn law_create_table_accepts(
    s: SessionView,
    name: Seq<char>,
    columns: Seq<char>,
    types: Seq<char>,
    s2: SessionView,
    r: ReplyView,
)
    requires
        s.has_ws,
        s.has_db,
        s.db_at() is Some,
        split_on(columns, ':').len() == split_on(types, ':').len(),
        forall|i: int| 0 <= i < split_on(types, ':').len()
            ==> declarable(lowercase_of(#[trigger] split_on(types, ':')[i])),
        command_effect(s, CommandView::CreateTable { name, columns, types }, s2, r),
    ensures
        r.request == RequestView::Continue,
        r.outputs == seq![OutputView::Blank],
        ({
            let (i, j) = s.db_at()->0;
            let t = s2.db_view(i, j).table(name);
            &&& t is Some
            &&& t->0.name == name
            &&& t->0.model == split_on(types, ':')
            &&& t->0.order == split_on(columns, ':')
            &&& t->0.rows == 0
        }),
{
    let x = split_on(columns, ':');
    let y = split_on(types, ':');
    assert forall|k: int| 0 <= k < y.len() implies crate::session::is_known_type(lowercase_of(#[trigger] y[k])) by {
        law_declarable_types(lowercase_of(y[k]));
    }
    assert(crate::session::all_known(y));
    let (i, j) = s.db_at()->0;
    lemma_find(workspace_names_of(s), s.ws);
    let t = with_empty_columns(empty_table(name, y, x), x);
    lemma_with_empty_columns_keeps(empty_table(name, y, x), x);
    let d2 = s.db_view(i, j).with_table(t);
    lemma_with_table_holds(s.db_view(i, j), t);
    let s3 = s.with_db(i, j, d2);
    lemma_find(crate::store::db_names(s.workspaces[i].databases), s.db);
    assert(s3.db_view(i, j) == d2);
}

/// `create table name columns types` with as many types as columns, where
/// some type, in lower case, is not one a table may declare: no workspace,
/// database or table changes, and the last code logged is -8.
pub proof fn law_create_table_refuses(
    s: SessionView,
    name: Seq<char>,
    columns: Seq<char>,
    types: Seq<char>,
    s2: SessionView,
    r: ReplyView,
)
    requires
        split_on(columns, ':').len() == split_on(types, ':').len(),
        exists|i: int| 0 <= i < split_on(types, ':').len()
            && !declarable(lowercase_of(#[trigger] split_on(types, ':')[i])),
        command_effect(s, CommandView::CreateTable { name, columns, types }, s2, r),
    ensures
        r.request == RequestView::Continue,
        s2.workspaces == s.workspaces,
        s2.log.codes.last() == -8i32,
{
    let y = split_on(types, ':');
    let k = choose|i: int| 0 <= i < y.len() && !declarable(lowercase_of(#[trigger] y[i]));
    law_declarable_types(lowercase_of(y[k]));
    assert(!crate::session::all_known(y));
    crate::selection::lemma_unknown_types_keep(s, y, y.len() as int, name);
}

/// The names of the workspaces of a session.
pub open spec fn workspace_names_of(s: SessionView) -> Seq<Seq<char>> {
    crate::store::workspace_names(s.workspaces)
}

// ---------------------------------------------------------------------------
// Aggregates
// ---------------------------------------------------------------------------

proof fn lemma_least(xs: Seq<int>)
    requires
        xs.len() > 0,
    ensures
        xs.contains(least(xs)),
        forall|i: int| 0 <= i < xs.len() ==> least(xs) <= #[trigger] xs[i],
    decreases xs.len(),
{
    if xs.len() > 1 {
        lemma_least(xs.drop_last());
        let m = least(xs.drop_last());
        let k = choose|k: int| 0 <= k < xs.drop_last().len() && xs.drop_last()[k] == m;
        assert(xs[k] == m);
        assert(xs[xs.len() - 1] == xs.last());
        assert forall|i: int| 0 <= i < xs.len() implies least(xs) <= #[trigger] xs[i] by {
            if i < xs.len() - 1 {
                assert(xs[i] == xs.drop_last()[i]);
            }
        }
    } else {
        assert(xs[0] == xs[0]);
    }
}

proof fn lemma_greatest(xs: Seq<int>)
    requires
        xs.len() > 0,
    ensures
        xs.contains(greatest(xs)),
        forall|i: int| 0 <= i < xs.len() ==> #[trigger] xs[i] <= greatest(xs),
    decreases xs.len(),
{
    if xs.len() > 1 {
        lemma_greatest(xs.drop_last());
        let m = greatest(xs.drop_last());
        let k = choose|k: int| 0 <= k < xs.drop_last().len() && xs.drop_last()[k] == m;
        assert(xs[k] == m);
        assert(xs[xs.len() - 1] == xs.last());
        assert forall|i: int| 0 <= i < xs.len() implies #[trigger] xs[i] <= greatest(xs) by {
            if i < xs.len() - 1 {
                assert(xs[i] == xs.drop_last()[i]);
            }
        }
    } else {
        assert(xs[0] == xs[0]);
    }
}

/// The integers the values of a group's rows read as, zero for one that
/// does not read as an `i32`.
pub open spec fn group_ints(values: Seq<Seq<char>>, g: GroupView) -> Seq<int> {
    Seq::new(g.rows.len(), |i: int| match parse_i32(values[g.rows[i] as int]) {
        Some(x) => x as int,
        None => 0,
    })
}

/// The line `For group <key>: <label> = <value>`.
pub open spec fn group_line(key: Seq<char>, label: Seq<char>, value: int) -> OutputView {
    crate::output::text_line("For group "@ + key + ": "@ + label + " = "@ + int_text(value))
}

/// What `groupby` shows for a group with rows whose values it reads:
/// `count` the number of rows; `min` and `max` a value of the group that no
/// other lies below, or above; `sum` the sum of the values, where every
/// running sum fits an `i32`; `avg` the group's values, for the mean; any
/// other function is named as unknown.
pub proof fn law_group_results(function: Seq<char>, g: GroupView, values: Seq<Seq<char>>)
    requires
        g.rows.len() > 0,
        forall|i: int| 0 <= i < g.rows.len() ==> (#[trigger] g.rows[i]) < values.len(),
    ensures
        function == "count"@ ==> group_result(function, g, values) == Some(group_line(g.key, "COUNT"@, g.rows.len() as int)),
        function == "min"@ ==> exists|m: int| #![trigger group_line(g.key, "MIN"@, m)]
            group_result(function, g, values) == Some(group_line(g.key, "MIN"@, m))
            && group_ints(values, g).contains(m)
            && forall|i: int| 0 <= i < g.rows.len() ==> m <= #[trigger] group_ints(values, g)[i],
        function == "max"@ ==> exists|m: int| #![trigger group_line(g.key, "MAX"@, m)]
            group_result(function, g, values) == Some(group_line(g.key, "MAX"@, m))
            && group_ints(values, g).contains(m)
            && forall|i: int| 0 <= i < g.rows.len() ==> #[trigger] group_ints(values, g)[i] <= m,
        function == "sum"@ ==> (group_result(function, g, values) is Some <==> sums_fit(group_ints(values, g))),
        function == "sum"@ && sums_fit(group_ints(values, g)) ==> group_result(function, g, values) == Some(
            group_line(g.key, "SUM"@, total(group_ints(values, g))),
        ),
        function == "avg"@ ==> group_result(function, g, values) == Some(OutputView::Average {
            group: g.key,
            values: Seq::new(g.rows.len(), |i: int| values[g.rows[i] as int]),
        }),
        !(function == "count"@ || function == "min"@ || function == "max"@ || function == "sum"@ || function == "avg"@)
            ==> group_result(function, g, values) == Some(crate::output::text_line("Unknown function: "@ + function)),
{
    reveal_strlit("count");
    reveal_strlit("sum");
    reveal_strlit("avg");
    reveal_strlit("min");
    reveal_strlit("max");
    assert("count"@.len() == 5 && "sum"@[0] == 's' && "avg"@[0] == 'a' && "min"@[0] == 'm' && "max"@[0] == 'm');
    assert("min"@[1] == 'i' && "max"@[1] == 'a');
    let xs = group_ints(values, g);
    assert(crate::order::row_ints(values, g.rows) =~= xs);
    assert(crate::order::rows_below(g.rows, values.len()));
    lemma_least(xs);
    lemma_greatest(xs);
    if function == "min"@ {
        assert(group_result(function, g, values) == Some(group_line(g.key, "MIN"@, least(xs))));
    }
    if function == "max"@ {
        assert(group_result(function, g, values) == Some(group_line(g.key, "MAX"@, greatest(xs))));
    }
}

// ---------------------------------------------------------------------------
// Choosing what is active
// ---------------------------------------------------------------------------

/// `set workspace x` makes the workspace `x` active, with no database or
/// table, where the session has one named `x`; otherwise it logs -1003 and
/// changes nothing else. No workspace changes either way.
pub proof fn law_set_workspace(s: SessionView, x: Seq<char>, s2: SessionView, r: ReplyView)
    requires
        command_effect(s, CommandView::SetWorkspace(x), s2, r),
    ensures
        r.request == RequestView::Continue,
        s2.workspaces == s.workspaces,
        crate::store::workspace_names(s.workspaces).contains(x) ==> {
            &&& s2.has_ws && s2.ws == x && !s2.has_db && !s2.has_tb
            &&& s2.log == s.log && s2.name == s.name
        },
        !crate::store::workspace_names(s.workspaces).contains(x) ==> s2 == s.logged(-1003i32),
{
    let names = crate::store::workspace_names(s.workspaces);
    lemma_find(names, x);
    if names.contains(x) {
        let k = choose|k: int| 0 <= k < names.len() && names[k] == x;
    }
}

/// `set database x`, with an active workspace that exists, makes the
/// database `x` of that workspace active, with no table, where it has one
/// named `x`; otherwise it logs -1004. Without an active workspace it logs
/// -1003. Nothing else changes.
pub proof fn law_set_database(s: SessionView, x: Seq<char>, s2: SessionView, r: ReplyView)
    requires
        command_effect(s, CommandView::SetDatabase(x), s2, r),
        s.has_ws ==> s.ws_at() is Some,
    ensures
        r.request == RequestView::Continue,
        s2.workspaces == s.workspaces,
        !s.has_ws ==> s2 == s.logged(-1003i32),
        s.has_ws && crate::store::db_names(s.workspaces[s.ws_at()->0].databases).contains(x) ==> {
            &&& s2.has_db && s2.db == x && !s2.has_tb
            &&& s2.has_ws && s2.ws == s.ws && s2.log == s.log
        },
        s.has_ws && !crate::store::db_names(s.workspaces[s.ws_at()->0].databases).contains(x)
            ==> s2 == s.logged(-1004i32),
{
    if s.has_ws {
        let names = crate::store::db_names(s.workspaces[s.ws_at()->0].databases);
        lemma_find(names, x);
        if names.contains(x) {
            let k = choose|k: int| 0 <= k < names.len() && names[k] == x;
        }
    }
}

/// `set table x`, with an active workspace and database that exist, makes
/// the table `x` of that database active where it has one named `x`;
/// otherwise it logs -1005. Without an active workspace and database it
/// logs -1004. Nothing else changes.
pub proof fn law_set_table(s: SessionView, x: Seq<char>, s2: SessionView, r: ReplyView)
    requires
        command_effect(s, CommandView::SetTable(x), s2, r),
        s.has_ws && s.has_db ==> s.db_at() is Some,
    ensures
        r.request == RequestView::Continue,
        s2.workspaces == s.workspaces,
        !(s.has_ws && s.has_db) ==> s2 == s.logged(-1004i32),
        s.has_ws && s.has_db ==> ({
            let (i, j) = s.db_at()->0;
            let names = table_names(s.db_view(i, j).tables);
            &&& names.contains(x) ==> s2 == (SessionView { has_tb: true, tb: x, ..s })
            &&& !names.contains(x) ==> s2 == s.logged(-1005i32)
        }),
{
    if s.has_ws && s.has_db {
        let (i, j) = s.db_at()->0;
        let names = table_names(s.db_view(i, j).tables);
        lemma_find(names, x);
        if names.contains(x) {
            let k = choose|k: int| 0 <= k < names.len() && names[k] == x;
        }
    }
}

/// `delete table x`, with an active workspace and database that exist and
/// a table named `x` in that database: afterwards the database has no
/// table named `x`, every other table is still there, and no table is
/// active.
pub proof fn law_delete_table(s: SessionView, x: Seq<char>, s2: SessionView, r: ReplyView)
    requires
        s.wf(),
        s.has_ws && s.has_db,
        s.db_at() is Some,
        ({
            let (i, j) = s.db_at()->0;
            table_names(s.db_view(i, j).tables).contains(x)
        }),
        command_effect(s, CommandView::DeleteTable(x), s2, r),
    ensures
        ({
            let (i, j) = s.db_at()->0;
            &&& !table_names(s2.db_view(i, j).tables).contains(x)
            &&& forall|n: Seq<char>| n != x ==> #[trigger] s2.db_view(i, j).table(n) == s.db_view(i, j).table(n)
            &&& !s2.has_tb
            &&& s2.workspaces.len() == s.workspaces.len()
        }),
{
    let (i, j) = s.db_at()->0;
    let d = s.db_view(i, j);
    lemma_find(crate::store::workspace_names(s.workspaces), s.ws);
    lemma_find(crate::store::db_names(s.workspaces[i].databases), s.db);
    assert(s.workspaces[i].wf());
    assert(d.wf());
    let names = table_names(d.tables);
    lemma_find(names, x);
    let k = find(names, x)->0;
    let d2 = d.without_table(x);
    let n2 = table_names(d2.tables);
    assert(n2 =~= names.remove(k));
    assert(s2.db_view(i, j) == d2);
    assert(!n2.contains(x)) by {
        if n2.contains(x) {
            let m = choose|m: int| 0 <= m < n2.len() && n2[m] == x;
            if m < k {
                assert(names[m] == x);
            } else {
                assert(names[m + 1] == x);
            }
        }
    }
    assert forall|n: Seq<char>| n != x implies #[trigger] d2.table(n) == d.table(n) by {
        lemma_find(names, n);
        lemma_find(n2, n);
        match find(names, n) {
            Some(q) => {
                let q2 = if q < k { q } else { q - 1 };
                assert(q != k);
                assert(n2[q2] == n);
                assert(crate::table::is_first(n2, n, q2)) by {
                    assert forall|z: int| 0 <= z < q2 implies n2[z] != n by {
                        if z < k {
                            assert(n2[z] == names[z]);
                        } else {
                            assert(n2[z] == names[z + 1]);
                        }
                    }
                }
                crate::table::lemma_first_unique(n2, n, q2, find(n2, n)->0);
                assert(d2.tables[q2] == d.tables[q]);
            },
            None => {
                if find(n2, n) is Some {
                    let m = find(n2, n)->0;
                    if m < k {
                        assert(names[m] == n);
                    } else {
                        assert(names[m + 1] == n);
                    }
                }
            },
        }
    }
}

// ---------------------------------------------------------------------------
// Showing rows in order
// ---------------------------------------------------------------------------

/// The lines that `print orderby` (`reverse` false) and `print orderbyrev`
/// (`reverse` true) show, for an order `p` of the rows by their rendered
/// `keys`, show each row once, one per line, in the order of their keys:
/// ascending for `orderby`, descending for `orderbyrev`. Each line shows
/// the row as the ordering prints rows.
pub proof fn law_ordered_lines_direction(t: TableView, keys: Seq<Seq<char>>, p: Seq<usize>, reverse: bool)
    requires
        crate::order::stably_sorted(keys, p),
        keys.len() <= usize::MAX,
    ensures
        crate::session::ordered_lines(t, p, reverse).len() == keys.len(),
        exists|q: Seq<usize>| {
            &&& q.len() == keys.len()
            &&& forall|r: usize| r < keys.len() ==> #[trigger] q.contains(r)
            &&& forall|m: int| 0 <= m < q.len() ==> #[trigger] crate::session::ordered_lines(t, p, reverse)[m]
                == OutputView::Line(crate::session::order_row(t, q[m] as int, reverse, t.order.len() as int))
            &&& forall|m1: int, m2: int| 0 <= m1 < m2 < q.len() ==> if reverse {
                !crate::order::text_lt(keys[#[trigger] q[m1] as int], keys[#[trigger] q[m2] as int])
            } else {
                !crate::order::text_lt(keys[q[m2] as int], keys[q[m1] as int])
            }
        },
{
    crate::order::lemma_stably_sorted_permutation(keys, p);
    let n = p.len() as int;
    let q = if reverse { Seq::new(n as nat, |m: int| p[n - 1 - m]) } else { p };
    assert forall|r: usize| r < keys.len() implies #[trigger] q.contains(r) by {
        assert(p.contains(r));
        let z = choose|z: int| 0 <= z < p.len() && p[z] == r;
        if reverse {
            assert(q[n - 1 - z] == r);
        }
    }
    assert forall|m1: int, m2: int| 0 <= m1 < m2 < q.len() implies if reverse {
        !crate::order::text_lt(keys[#[trigger] q[m1] as int], keys[#[trigger] q[m2] as int])
    } else {
        !crate::order::text_lt(keys[q[m2] as int], keys[q[m1] as int])
    } by {
        if reverse {
            let a = n - 1 - m2;
            let b = n - 1 - m1;
            assert(crate::order::row_before(keys, p[a] as int, p[b] as int));
            crate::order::lemma_text_lt_total(keys[p[a] as int], keys[p[b] as int]);
        } else {
            assert(crate::order::row_before(keys, p[m1] as int, p[m2] as int));
            crate::order::lemma_text_lt_total(keys[p[m1] as int], keys[p[m2] as int]);
        }
    }
    let lines = crate::session::ordered_lines(t, p, reverse);
    assert forall|m: int| 0 <= m < q.len() implies #[trigger] lines[m]
        == OutputView::Line(crate::session::order_row(t, q[m] as int, reverse, t.order.len() as int)) by {}
    assert(q.len() == keys.len());
}

} // verus!
