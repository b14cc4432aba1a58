//! Reading tables from CSV and XML text, and writing tables as JSON, XML
//! and CSV text.
use vstd::prelude::*;
use crate::output::{append_outputs, line_of, output_views, text_line, Output, OutputView, Piece, PieceView, piece_views};
use crate::outside::{debug_of, debug_text, lowercase, lowercase_of};
use crate::table::{bool_text, empty_table, Cell, CellView, Table, TableView};
use crate::text::{
    float_text_ok, int_text, is_float_text, parse_bool, parse_bool_text, parse_char,
    parse_char_text, parse_i32, parse_i32_text, parse_i64, parse_i64_text, replace_all,
    replace_text, split_on, split_text, string_of, texts, trim, trim_text, chars_of, lines_of,
    lines_text, text_is,
};

verus! {

// ---------------------------------------------------------------------------
// Lists shown with Debug
// ---------------------------------------------------------------------------

/// The items, each formatted with `Debug`, joined with `, `.
pub open spec fn debug_items(items: Seq<Seq<char>>) -> Seq<char>
    decreases items.len(),
{
    if items.len() == 0 {
        Seq::empty()
    } else if items.len() == 1 {
        debug_of(items[0])
    } else {
        debug_items(items.drop_last()) + ", "@ + debug_of(items.last())
    }
}

/// A list of texts as `Debug` shows a `Vec<String>`: `["a", "b"]`.
pub open spec fn debug_list(items: Seq<Seq<char>>) -> Seq<char> {
    "["@ + debug_items(items) + "]"@
}

/// A list of texts as `Debug` shows it.
pub fn debug_list_text(items: &Vec<String>) -> (r: String)
    ensures
        r@ == debug_list(texts(items@)),
{
    let ghost v = texts(items@);
    let mut r = String::from_str("[");
    let mut i: usize = 0;
    while i < items.len()
        invariant
            v == texts(items@),
            i <= items.len(),
            r@ == "["@ + debug_items(v.take(i as int)),
        decreases items.len() - i,
    {
        if i > 0 {
            r.append(", ");
        }
        let d = debug_text(items[i].as_str());
        r.append(d.as_str());
        proof {
            let t = v.take(i + 1);
            assert(t.drop_last() =~= v.take(i as int));
            assert(t.last() == items@[i as int]@);
            if i == 0 {
                assert(v.take(0) =~= Seq::<Seq<char>>::empty());
                reveal_strlit("[");
                assert(r@ =~= "["@ + debug_items(t));
            } else {
                assert(r@ =~= "["@ + debug_items(t));
            }
        }
        i = i + 1;
    }
    r.append("]");
    assert(v.take(i as int) =~= v);
    r
}

// ---------------------------------------------------------------------------
// Reading a table from CSV lines
// ---------------------------------------------------------------------------

/// `s` without a leading byte order mark.
pub open spec fn strip_bom(s: Seq<char>) -> Seq<char> {
    if s.len() > 0 && s[0] == '\u{feff}' {
        s.skip(1)
    } else {
        s
    }
}

/// The column names of a CSV header line: the comma-separated fields,
/// trimmed, a leading byte order mark removed.
pub open spec fn csv_header(line: Seq<char>) -> Seq<Seq<char>> {
    let p = split_on(line, ',');
    Seq::new(p.len(), |i: int| strip_bom(trim(p[i])))
}

/// The column types of a CSV type line: the comma-separated fields, trimmed.
pub open spec fn csv_types(line: Seq<char>) -> Seq<Seq<char>> {
    let p = split_on(line, ',');
    Seq::new(p.len(), |i: int| trim(p[i]))
}

/// The cell a CSV field holds for a column of type `ty`; `None` where the
/// field does not read as that type.
pub open spec fn csv_cell(ty: Seq<char>, v: Seq<char>) -> Option<CellView> {
    let t = trim(v);
    if ty == "i32"@ {
        match parse_i32(t) {
            Some(x) => Some(CellView::Int(x)),
            None => None,
        }
    } else if ty == "f32"@ {
        if is_float_text(t) { Some(CellView::Single(t)) } else { None }
    } else if ty == "bool"@ {
        match parse_bool(t) {
            Some(b) => Some(CellView::Bool(b)),
            None => None,
        }
    } else if ty == "char"@ {
        match parse_char(t) {
            Some(c) => Some(CellView::Char(c)),
            None => None,
        }
    } else {
        Some(CellView::Text(t))
    }
}

/// The table after storing the fields of one data line, field `i` in the
/// column named `order[i]` and typed `model[i]`; `None` where the program
/// stops: a field beyond the types or the names, or one that does not read.
pub open spec fn csv_fields(t: TableView, order: Seq<Seq<char>>, model: Seq<Seq<char>>, fields: Seq<Seq<char>>) -> Option<TableView>
    decreases fields.len(),
{
    if fields.len() == 0 {
        Some(t)
    } else {
        match csv_fields(t, order, model, fields.drop_last()) {
            None => None,
            Some(t1) => {
                let i = fields.len() - 1;
                if i >= model.len() {
                    None
                } else {
                    match csv_cell(model[i], fields.last()) {
                        None => None,
                        Some(c) => if i >= order.len() { None } else { Some(t1.with_value(order[i], c)) },
                    }
                }
            },
        }
    }
}

/// The table after the data lines: each readable line adds its fields and
/// counts a row; an unreadable line is skipped.
pub open spec fn csv_rows(t: TableView, order: Seq<Seq<char>>, model: Seq<Seq<char>>, lines: Seq<Option<Seq<char>>>) -> Option<TableView>
    decreases lines.len(),
{
    if lines.len() == 0 {
        Some(t)
    } else {
        match csv_rows(t, order, model, lines.drop_last()) {
            None => None,
            Some(t1) => match lines.last() {
                None => Some(t1),
                Some(l) => match csv_fields(t1, order, model, split_on(l, ',')) {
                    None => None,
                    Some(t2) => if t2.rows == i32::MAX {
                        None
                    } else {
                        Some(TableView { rows: (t2.rows + 1) as i32, ..t2 })
                    },
                },
            },
        }
    }
}

/// What reading a CSV file named `name` with lines `lines` gives: the lines
/// shown, the table read, and whether the program stops. A file without a
/// readable header line and type line gives nothing.
pub open spec fn csv_import(name: Seq<char>, lines: Seq<Option<Seq<char>>>) -> (Seq<OutputView>, Option<TableView>, bool) {
    if lines.len() < 2 || lines[0] is None || lines[1] is None {
        (Seq::empty(), None, false)
    } else {
        let order = csv_header(lines[0]->0);
        let model = csv_types(lines[1]->0);
        let shown = seq![
            text_line("Table name: "@ + name),
            text_line("Table columns: "@ + debug_list(order)),
            text_line("Table datatypes: "@ + debug_list(model)),
        ];
        match csv_rows(empty_table(name, model, order), order, model, lines.skip(2)) {
            Some(t) => (shown, Some(t), false),
            None => (shown, None, true),
        }
    }
}

/// The trimmed fields of a line, each made by `f` from its trimmed text.
fn trimmed_fields(line: &String, bom: bool) -> (r: Vec<String>)
    ensures
        bom ==> texts(r@) == csv_header(line@),
        !bom ==> texts(r@) == csv_types(line@),
{
    let parts = split_text(line.as_str(), ',');
    let ghost p = split_on(line@, ',');
    let mut r: Vec<String> = Vec::new();
    let mut i: usize = 0;
    while i < parts.len()
        invariant
            texts(parts@) == p,
            i <= parts.len(),
            r@.len() == i,
            forall|k: int| 0 <= k < i ==> #[trigger] r@[k]@ == if bom { strip_bom(trim(p[k])) } else { trim(p[k]) },
        decreases parts.len() - i,
    {
        let t = trim_text(parts[i].as_str());
        assert(p[i as int] == parts@[i as int]@);
        let u = if bom {
            let cs = chars_of(t.as_str());
            if cs.len() > 0 && cs[0] == '\u{feff}' {
                let mut rest: Vec<char> = Vec::new();
                let mut k: usize = 1;
                while k < cs.len()
                    invariant
                        1 <= k <= cs.len(),
                        rest@ == cs@.subrange(1, k as int),
                    decreases cs.len() - k,
                {
                    rest.push(cs[k]);
                    k = k + 1;
                    assert(rest@ =~= cs@.subrange(1, k as int));
                }
                assert(cs@.subrange(1, cs.len() as int) =~= cs@.skip(1));
                string_of(&rest)
            } else {
                t
            }
        } else {
            t
        };
        r.push(u);
        i = i + 1;
    }
    assert(texts(r@) =~= if bom { csv_header(line@) } else { csv_types(line@) });
    r
}

/// The cell a CSV field holds for a column of type `ty`.
pub fn csv_cell_of(ty: &String, v: &String) -> (r: Option<Cell>)
    ensures
        match r {
            Some(c) => csv_cell(ty@, v@) == Some(c@),
            None => csv_cell(ty@, v@) is None,
        },
{
    let t = trim_text(v.as_str());
    let tys = ty.as_str();
    if text_is(tys, "i32") {
        match parse_i32_text(t.as_str()) {
            Some(x) => Some(Cell::Int(x)),
            None => None,
        }
    } else if text_is(tys, "f32") {
        if float_text_ok(t.as_str()) { Some(Cell::Single(t)) } else { None }
    } else if text_is(tys, "bool") {
        match parse_bool_text(t.as_str()) {
            Some(b) => Some(Cell::Bool(b)),
            None => None,
        }
    } else if text_is(tys, "char") {
        match parse_char_text(t.as_str()) {
            Some(c) => Some(Cell::Char(c)),
            None => None,
        }
    } else {
        Some(Cell::Text(t))
    }
}

/// What reading a CSV file gives.
pub struct CsvImport {
    pub outputs: Vec<Output>,
    pub table: Option<Table>,
    pub halted: bool,
}

/// Reads a table named `name` from the lines of a CSV file: a header line
/// of column names, a line of column types, then one line per row. `None`
/// stands for a line that could not be read.
pub fn import_csv(name: String, lines: &Vec<Option<String>>) -> (r: CsvImport)
    ensures
        ({
            let ls = Seq::new(lines@.len(), |i: int| match lines@[i] { Some(s) => Some(s@), None => None });
            let (shown, t, halted) = csv_import(name@, ls);
            &&& output_views(r.outputs@) == shown
            &&& r.halted == halted
            &&& match r.table {
                Some(tb) => t == Some(tb@) && tb@.wf(),
                None => t is None,
            }
        }),
{
    let ghost ls = Seq::new(lines@.len(), |i: int| match lines@[i] { Some(s) => Some(s@), None => None });
    let mut outputs: Vec<Output> = Vec::new();
    if lines.len() < 2 {
        assert(output_views(outputs@) =~= Seq::<OutputView>::empty());
        return CsvImport { outputs, table: None, halted: false };
    }
    let head = match &lines[0] {
        Some(l) => l,
        None => {
            assert(output_views(outputs@) =~= Seq::<OutputView>::empty());
            return CsvImport { outputs, table: None, halted: false };
        },
    };
    let types = match &lines[1] {
        Some(l) => l,
        None => {
            assert(output_views(outputs@) =~= Seq::<OutputView>::empty());
            return CsvImport { outputs, table: None, halted: false };
        },
    };
    let order = trimmed_fields(head, true);
    let model = trimmed_fields(types, false);
    let mut l1 = String::from_str("Table name: ");
    l1.append(name.as_str());
    outputs.push(line_of(l1));
    let mut l2 = String::from_str("Table columns: ");
    l2.append(debug_list_text(&order).as_str());
    outputs.push(line_of(l2));
    let mut l3 = String::from_str("Table datatypes: ");
    l3.append(debug_list_text(&model).as_str());
    outputs.push(line_of(l3));
    let ghost ov = texts(order@);
    let ghost mv = texts(model@);
    assert(output_views(outputs@) =~= seq![
        text_line("Table name: "@ + name@),
        text_line("Table columns: "@ + debug_list(ov)),
        text_line("Table datatypes: "@ + debug_list(mv)),
    ]);
    let ghost shown = output_views(outputs@);
    assert(ls[0] == Some(head@) && ls[1] == Some(types@));
    let mut table = Table::new(name.clone(), model.clone(), order.clone());
    let ghost rest = ls.skip(2);
    let mut li: usize = 2;
    while li < lines.len()
        invariant
            2 <= li <= lines.len(),
            ls == Seq::new(lines@.len(), |i: int| match lines@[i] { Some(s) => Some(s@), None => None }),
            rest == ls.skip(2),
            ov == texts(order@),
            mv == texts(model@),
            table@.wf(),
            csv_rows(empty_table(name@, mv, ov), ov, mv, rest.take(li - 2)) == Some(table@),
            shown == output_views(outputs@),
            ls.len() >= 2,
            ls[0] == Some(head@),
            ls[1] == Some(types@),
            ov == csv_header(head@),
            mv == csv_types(types@),
            shown == seq![
                text_line("Table name: "@ + name@),
                text_line("Table columns: "@ + debug_list(ov)),
                text_line("Table datatypes: "@ + debug_list(mv)),
            ],
        decreases lines.len() - li,
    {
        let ghost t0 = table@;
        proof {
            assert(rest.take(li - 1).drop_last() =~= rest.take(li - 2));
            assert(rest.take(li - 1).last() == ls[li as int]);
        }
        match &lines[li] {
            None => {},
            Some(line) => {
                let fields = split_text(line.as_str(), ',');
                let ghost fv = texts(fields@);
                assert(rest[li - 2] == Some(line@));
                let mut fi: usize = 0;
                assert(fv.take(0) =~= Seq::<Seq<char>>::empty());
                while fi < fields.len()
                    invariant
                        fi <= fields.len(),
                        fv == texts(fields@),
                        fv == split_on(line@, ','),
                        2 <= li < lines.len(),
                        ls == Seq::new(lines@.len(), |i: int| match lines@[i] { Some(s) => Some(s@), None => None }),
                        rest == ls.skip(2),
                        rest[li - 2] == Some(line@),
                        shown == output_views(outputs@),
                        ls.len() >= 2,
                        ls[0] == Some(head@),
                        ls[1] == Some(types@),
                        ov == csv_header(head@),
                        mv == csv_types(types@),
                        shown == seq![
                            text_line("Table name: "@ + name@),
                            text_line("Table columns: "@ + debug_list(ov)),
                            text_line("Table datatypes: "@ + debug_list(mv)),
                        ],
                        csv_rows(empty_table(name@, mv, ov), ov, mv, rest.take(li - 2)) == Some(t0),
                        ov == texts(order@),
                        mv == texts(model@),
                        table@.wf(),
                        csv_fields(t0, ov, mv, fv.take(fi as int)) == Some(table@),
                    decreases fields.len() - fi,
                {
                    proof {
                        assert(fv.take(fi + 1).drop_last() =~= fv.take(fi as int));
                        assert(fv.take(fi + 1).last() == fields@[fi as int]@);
                    }
                    if fi >= model.len() {
                        proof {
                            lemma_csv_fields_stop(t0, ov, mv, fv, fi as int + 1);
                            lemma_csv_rows_stop(empty_table(name@, mv, ov), ov, mv, rest, li - 1, t0, line@);
                        }
                        return CsvImport { outputs, table: None, halted: true };
                    }
                    let cell = match csv_cell_of(&model[fi], &fields[fi]) {
                        Some(c) => c,
                        None => {
                            proof {
                                lemma_csv_fields_stop(t0, ov, mv, fv, fi as int + 1);
                                lemma_csv_rows_stop(empty_table(name@, mv, ov), ov, mv, rest, li - 1, t0, line@);
                            }
                            return CsvImport { outputs, table: None, halted: true };
                        },
                    };
                    if fi >= order.len() {
                        proof {
                            lemma_csv_fields_stop(t0, ov, mv, fv, fi as int + 1);
                            lemma_csv_rows_stop(empty_table(name@, mv, ov), ov, mv, rest, li - 1, t0, line@);
                        }
                        return CsvImport { outputs, table: None, halted: true };
                    }
                    table.append_value(&order[fi], cell);
                    fi = fi + 1;
                }
                assert(fv.take(fi as int) =~= fv);
                assert(split_on(line@, ',') == fv);
                if table.rows() == i32::MAX {
                    proof {
                        lemma_csv_rows_stop(empty_table(name@, mv, ov), ov, mv, rest, li - 1, t0, line@);
                    }
                    return CsvImport { outputs, table: None, halted: true };
                }
                table.count_row();
            },
        }
        li = li + 1;
    }
    assert(rest.take(li - 2) =~= rest);
    CsvImport { outputs, table: Some(table), halted: false }
}

proof fn lemma_csv_fields_stop(t: TableView, order: Seq<Seq<char>>, model: Seq<Seq<char>>, fields: Seq<Seq<char>>, k: int)
    requires
        0 < k <= fields.len(),
        csv_fields(t, order, model, fields.take(k)) is None,
    ensures
        csv_fields(t, order, model, fields) is None,
    decreases fields.len() - k,
{
    if k < fields.len() {
        assert(fields.take(k + 1).drop_last() =~= fields.take(k));
        lemma_csv_fields_stop(t, order, model, fields, k + 1);
    } else {
        assert(fields.take(k) =~= fields);
    }
}

proof fn lemma_csv_rows_stop(t: TableView, order: Seq<Seq<char>>, model: Seq<Seq<char>>, lines: Seq<Option<Seq<char>>>, k: int, t1: TableView, l: Seq<char>)
    requires
        0 < k <= lines.len(),
        csv_rows(t, order, model, lines.take(k - 1)) == Some(t1),
        lines[k - 1] == Some(l),
        match csv_fields(t1, order, model, split_on(l, ',')) {
            None => true,
            Some(t2) => t2.rows == i32::MAX,
        },
    ensures
        csv_rows(t, order, model, lines) is None,
{
    assert(lines.take(k).drop_last() =~= lines.take(k - 1));
    assert(lines.take(k).last() == lines[k - 1]);
    lemma_csv_rows_none(t, order, model, lines, k);
}

proof fn lemma_csv_rows_none(t: TableView, order: Seq<Seq<char>>, model: Seq<Seq<char>>, lines: Seq<Option<Seq<char>>>, k: int)
    requires
        0 < k <= lines.len(),
        csv_rows(t, order, model, lines.take(k)) is None,
    ensures
        csv_rows(t, order, model, lines) is None,
    decreases lines.len() - k,
{
    if k < lines.len() {
        assert(lines.take(k + 1).drop_last() =~= lines.take(k));
        lemma_csv_rows_none(t, order, model, lines, k + 1);
    } else {
        assert(lines.take(k) =~= lines);
    }
}

// ---------------------------------------------------------------------------
// Reading a table from an XML export
// ---------------------------------------------------------------------------

/// The names listed on a header line of an XML export: the line without
/// `tag` and `/>`, split at `:`.
pub open spec fn xml_header(line: Seq<char>, tag: Seq<char>) -> Seq<Seq<char>> {
    split_on(replace_all(replace_all(line, tag, Seq::empty()), "/>"@, Seq::empty()), ':')
}

/// The name of the table read from the file `file`: the file name without `.xml`.
pub open spec fn xml_table_name(file: Seq<char>) -> Seq<char> {
    replace_all(file, ".xml"@, Seq::empty())
}

/// The fields of a record line: the line without `<Record ` and `/>`,
/// trimmed, split at spaces.
pub open spec fn record_fields(line: Seq<char>) -> Seq<Seq<char>> {
    split_on(trim(replace_all(replace_all(line, "<Record "@, Seq::empty()), "/>"@, Seq::empty())), ' ')
}

/// What a record value stores in a column whose type is `ty` in lower
/// case: `None` where the program stops as the value does not read,
/// `Some(None)` where the type stores nothing.
pub open spec fn xml_cell(ty: Seq<char>, value: Seq<char>) -> Option<Option<CellView>> {
    if ty == "string"@ {
        Some(Some(CellView::Text(replace_all(replace_all(value, "\""@, Seq::empty()), "%20"@, " "@))))
    } else if ty == "char"@ {
        Some(Some(CellView::Text(replace_all(value, "\""@, Seq::empty()))))
    } else if ty == "i32"@ || ty == "integer"@ || ty == "int"@ {
        match parse_i32(value) {
            Some(x) => Some(Some(CellView::Int(x))),
            None => None,
        }
    } else if ty == "i64"@ {
        match parse_i64(value) {
            Some(x) => Some(Some(CellView::Long(x))),
            None => None,
        }
    } else if ty == "f32"@ {
        if is_float_text(value) { Some(Some(CellView::Single(value))) } else { None }
    } else if ty == "float"@ {
        if is_float_text(value) { Some(Some(CellView::Double(value))) } else { None }
    } else if ty == "boolean"@ {
        Some(Some(CellView::Bool(lowercase_of(value) == "true"@)))
    } else {
        Some(None)
    }
}

/// The table after storing the fields of a record, field `k` typed by
/// `model[k]` and stored in the column its text before `=` names; `None`
/// where the program stops.
pub open spec fn xml_fields(t: TableView, model: Seq<Seq<char>>, fields: Seq<Seq<char>>) -> Option<TableView>
    decreases fields.len(),
{
    if fields.len() == 0 {
        Some(t)
    } else {
        match xml_fields(t, model, fields.drop_last()) {
            None => None,
            Some(t1) => {
                let k = fields.len() - 1;
                let val = split_on(fields.last(), '=');
                if val.len() < 2 || k >= model.len() || t1.column(val[0]) is None {
                    None
                } else {
                    match xml_cell(lowercase_of(model[k]), val[1]) {
                        None => None,
                        Some(None) => Some(t1),
                        Some(Some(c)) => Some(t1.with_value(val[0], c)),
                    }
                }
            },
        }
    }
}

/// The table after storing the record lines in order.
pub open spec fn xml_records(t: TableView, model: Seq<Seq<char>>, records: Seq<Seq<char>>) -> Option<TableView>
    decreases records.len(),
{
    if records.len() == 0 {
        Some(t)
    } else {
        match xml_records(t, model, records.drop_last()) {
            None => None,
            Some(t1) => xml_fields(t1, model, record_fields(records.last())),
        }
    }
}

/// The table with an empty column stored for each name, in order.
pub open spec fn with_empty_columns(t: TableView, names: Seq<Seq<char>>) -> TableView
    decreases names.len(),
{
    if names.len() == 0 {
        t
    } else {
        with_empty_columns(t, names.drop_last()).with_empty_column(names.last())
    }
}

/// The record lines of an export: every line from the fourth up to, not
/// including, the last.
pub open spec fn record_lines(ls: Seq<Seq<char>>) -> Seq<Seq<char>> {
    if ls.len() >= 4 { ls.subrange(3, ls.len() - 1) } else { Seq::empty() }
}

/// The table read from the XML export `contents` of the file `file`;
/// `None` where the program stops: fewer than two lines, more lines than an
/// `i32` counts, or a record that does not read.
pub open spec fn xml_import(file: Seq<char>, contents: Seq<char>) -> Option<TableView> {
    let ls = lines_of(contents);
    if ls.len() < 2 || ls.len() > i32::MAX {
        None
    } else {
        let model = xml_header(ls[0], "<dtypes = "@);
        let order = xml_header(ls[1], "<colnames = "@);
        let t0 = with_empty_columns(
            TableView { rows: (ls.len() - 4) as i32, ..empty_table(xml_table_name(file), model, order) },
            order,
        );
        xml_records(t0, model, record_lines(ls))
    }
}

/// The names of a header line of an XML export.
fn xml_header_of(line: &String, tag: &str) -> (r: Vec<String>)
    requires
        tag@.len() > 0,
    ensures
        texts(r@) == xml_header(line@, tag@),
{
    proof {
        reveal_strlit("/>");
        reveal_strlit("");
        assert(""@ =~= Seq::<char>::empty());
    }
    let a = replace_text(line.as_str(), tag, "");
    let b = replace_text(a.as_str(), "/>", "");
    split_text(b.as_str(), ':')
}

/// What a record value stores in a column of lower-case type `ty`.
pub fn xml_cell_of(ty: &String, value: &String) -> (r: Option<Option<Cell>>)
    ensures
        match r {
            None => xml_cell(ty@, value@) is None,
            Some(None) => xml_cell(ty@, value@) == Some(None::<CellView>),
            Some(Some(c)) => xml_cell(ty@, value@) == Some(Some(c@)),
        },
{
    proof {
        reveal_strlit("\"");
        reveal_strlit("%20");
        reveal_strlit("");
        assert(""@ =~= Seq::<char>::empty());
    }
    let t = ty.as_str();
    let v = value.as_str();
    if text_is(t, "string") {
        let a = replace_text(v, "\"", "");
        Some(Some(Cell::Text(replace_text(a.as_str(), "%20", " "))))
    } else if text_is(t, "char") {
        Some(Some(Cell::Text(replace_text(v, "\"", ""))))
    } else if text_is(t, "i32") || text_is(t, "integer") || text_is(t, "int") {
        match parse_i32_text(v) {
            Some(x) => Some(Some(Cell::Int(x))),
            None => None,
        }
    } else if text_is(t, "i64") {
        match parse_i64_text(v) {
            Some(x) => Some(Some(Cell::Long(x))),
            None => None,
        }
    } else if text_is(t, "f32") {
        if float_text_ok(v) { Some(Some(Cell::Single(value.clone()))) } else { None }
    } else if text_is(t, "float") {
        if float_text_ok(v) { Some(Some(Cell::Double(value.clone()))) } else { None }
    } else if text_is(t, "boolean") {
        let l = lowercase(v);
        Some(Some(Cell::Bool(text_is(l.as_str(), "true"))))
    } else {
        Some(None)
    }
}

/// Stores the fields of one record in `t`; `false` where the program stops.
fn store_record(t: &mut Table, model: &Vec<String>, line: &String) -> (ok: bool)
    requires
        old(t)@.wf(),
    ensures
        final(t)@.wf(),
        ok ==> xml_fields(old(t)@, texts(model@), record_fields(line@)) == Some(final(t)@),
        !ok ==> xml_fields(old(t)@, texts(model@), record_fields(line@)) is None,
{
    proof {
        reveal_strlit("<Record ");
        reveal_strlit("/>");
        reveal_strlit("");
        assert(""@ =~= Seq::<char>::empty());
    }
    let a = replace_text(line.as_str(), "<Record ", "");
    let b = replace_text(a.as_str(), "/>", "");
    let c = trim_text(b.as_str());
    let fields = split_text(c.as_str(), ' ');
    let ghost fv = texts(fields@);
    let ghost t0 = t@;
    let ghost mv = texts(model@);
    assert(fv == record_fields(line@));
    let mut k: usize = 0;
    assert(fv.take(0) =~= Seq::<Seq<char>>::empty());
    while k < fields.len()
        invariant
            k <= fields.len(),
            fv == texts(fields@),
            mv == texts(model@),
            t0 == old(t)@,
            fv == record_fields(line@),
            t@.wf(),
            xml_fields(t0, mv, fv.take(k as int)) == Some(t@),
        decreases fields.len() - k,
    {
        proof {
            assert(fv.take(k + 1).drop_last() =~= fv.take(k as int));
            assert(fv.take(k + 1).last() == fields@[k as int]@);
        }
        let val = split_text(fields[k].as_str(), '=');
        proof {
            assert(fv[k as int] == fields@[k as int]@);
            assert(split_on(fv[k as int], '=') == texts(val@));
            assert(texts(val@).len() == val@.len());
            if val@.len() >= 1 {
                assert(texts(val@)[0] == val@[0]@);
            }
            if val@.len() >= 2 {
                assert(texts(val@)[1] == val@[1]@);
            }
            if k < model@.len() {
                assert(mv[k as int] == model@[k as int]@);
            }
        }
        if val.len() < 2 || k >= model.len() {
            proof {
                let pre = fv.take(k + 1);
                assert(pre.drop_last() =~= fv.take(k as int));
                assert(xml_fields(t0, mv, pre.drop_last()) == Some(t@));
                assert(pre.last() == fv[k as int]);
                assert(pre.len() - 1 == k);
                assert(xml_fields(t0, mv, pre) is None);
                lemma_xml_fields_stop(t0, mv, fv, k + 1);
                assert(xml_fields(t0, mv, fv) is None);
                assert(t0 == old(t)@);
            }
            return false;
        }
        let pos = t.find_column(&val[0]);
        proof {
            crate::table::lemma_find(crate::table::column_names(t@.columns), val@[0]@);
        }
        if pos.is_none() {
            proof { lemma_xml_fields_stop(t0, mv, fv, k + 1); }
            return false;
        }
        let ty = lowercase(model[k].as_str());
        match xml_cell_of(&ty, &val[1]) {
            None => {
                proof { lemma_xml_fields_stop(t0, mv, fv, k + 1); }
                return false;
            },
            Some(None) => {},
            Some(Some(cell)) => {
                t.append_value(&val[0], cell);
            },
        }
        k = k + 1;
    }
    assert(fv.take(k as int) =~= fv);
    true
}

proof fn lemma_xml_fields_stop(t: TableView, model: Seq<Seq<char>>, fields: Seq<Seq<char>>, k: int)
    requires
        0 < k <= fields.len(),
        xml_fields(t, model, fields.take(k)) is None,
    ensures
        xml_fields(t, model, fields) is None,
    decreases fields.len() - k,
{
    if k < fields.len() {
        assert(fields.take(k + 1).drop_last() =~= fields.take(k));
        lemma_xml_fields_stop(t, model, fields, k + 1);
    } else {
        assert(fields.take(k) =~= fields);
    }
}

proof fn lemma_xml_records_stop(t: TableView, model: Seq<Seq<char>>, records: Seq<Seq<char>>, k: int)
    requires
        0 < k <= records.len(),
        xml_records(t, model, records.take(k)) is None,
    ensures
        xml_records(t, model, records) is None,
    decreases records.len() - k,
{
    if k < records.len() {
        assert(records.take(k + 1).drop_last() =~= records.take(k));
        lemma_xml_records_stop(t, model, records, k + 1);
    } else {
        assert(records.take(k) =~= records);
    }
}

/// Reads the table exported as XML in `contents` from the file `file`;
/// `None` where the program stops.
pub fn import_xml(file: &String, contents: &String) -> (r: Option<Table>)
    ensures
        match r {
            Some(t) => xml_import(file@, contents@) == Some(t@) && t@.wf(),
            None => xml_import(file@, contents@) is None,
        },
{
    proof {
        reveal_strlit("<dtypes = ");
        reveal_strlit("<colnames = ");
        reveal_strlit(".xml");
        reveal_strlit("");
        assert(""@ =~= Seq::<char>::empty());
    }
    let ls = lines_text(contents.as_str());
    let ghost lv = texts(ls@);
    if ls.len() < 2 || ls.len() > 2147483647 {
        return None;
    }
    let datatypes = xml_header_of(&ls[0], "<dtypes = ");
    let tablename = replace_text(file.as_str(), ".xml", "");
    let colnames = xml_header_of(&ls[1], "<colnames = ");
    let ghost mv = texts(datatypes@);
    let ghost ov = texts(colnames@);
    let mut temp = Table::new(tablename, datatypes.clone(), colnames.clone());
    temp.set_rows(ls.len() as i32 - 4);
    let ghost base = temp@;
    let mut i: usize = 0;
    assert(ov.take(0) =~= Seq::<Seq<char>>::empty());
    while i < colnames.len()
        invariant
            i <= colnames.len(),
            ov == texts(colnames@),
            temp@.wf(),
            temp@ == with_empty_columns(base, ov.take(i as int)),
        decreases colnames.len() - i,
    {
        proof {
            assert(ov.take(i + 1).drop_last() =~= ov.take(i as int));
            assert(ov.take(i + 1).last() == colnames@[i as int]@);
        }
        temp.put_empty_column(colnames[i].clone());
        i = i + 1;
    }
    assert(ov.take(i as int) =~= ov);
    let ghost t0 = temp@;
    let ghost recs = record_lines(lv);
    proof {
        assert(lv == lines_of(contents@));
        assert(mv == xml_header(lv[0], "<dtypes = "@));
        assert(ov == xml_header(lv[1], "<colnames = "@));
        assert(xml_import(file@, contents@) == xml_records(t0, mv, recs));
    }
    let mut j: usize = 3;
    let end: usize = ls.len() - 1;
    assert(recs.take(0) =~= Seq::<Seq<char>>::empty());
    while j < end
        invariant
            3 <= j,
            end == ls.len() - 1,
            lv == texts(ls@),
            mv == texts(datatypes@),
            j < end ==> lv.len() >= 4 && recs == lv.subrange(3, lv.len() - 1),
            j <= end ==> j - 3 <= recs.len(),
            xml_import(file@, contents@) == xml_records(t0, mv, recs),
            temp@.wf(),
            j <= end ==> xml_records(t0, mv, recs.take(j - 3)) == Some(temp@),
            j > end ==> xml_records(t0, mv, recs) == Some(temp@),
        decreases end - j,
    {
        proof {
            assert(recs.take(j - 2).drop_last() =~= recs.take(j - 3));
            assert(recs[j - 3] == lv[j as int]);
            assert(lv[j as int] == ls@[j as int]@);
            assert(recs.take(j - 2).last() == ls@[j as int]@);
        }
        let ok = store_record(&mut temp, &datatypes, &ls[j]);
        if !ok {
            proof { lemma_xml_records_stop(t0, mv, recs, j - 2); }
            return None;
        }
        j = j + 1;
    }
    proof {
        if j <= end {
            assert(recs.take(j - 3) =~= recs) by {
                if lv.len() >= 4 {
                    assert(j == end);
                }
            }
        }
    }
    Some(temp)
}

// ---------------------------------------------------------------------------
// Writing a table as JSON, XML or CSV text
// ---------------------------------------------------------------------------

/// The formats a table is exported in.
#[derive(Clone, Copy, PartialEq, Eq, Structural)]
pub enum Format {
    Json,
    Xml,
    Csv,
}

/// How a column's values are written, by the column's type in lower case.
#[derive(Clone, Copy, PartialEq, Eq, Structural)]
pub enum ValueKind {
    /// `string`, `word`, `str`: text, quoted.
    Quoted,
    /// `integer`, `int`, `i32`, `number`: a 32-bit integer.
    Number,
    /// `char`, `letter`: text, quoted.
    Letter,
    /// `float`, `f64`: a 64-bit float.
    Wide,
    /// `bool`, `boolean`: a boolean.
    Flag,
    /// Any other type: nothing is written.
    Skip,
}

/// How a column of type `ty`, in lower case, is written.
pub open spec fn value_kind(ty: Seq<char>) -> ValueKind {
    if ty == "string"@ || ty == "word"@ || ty == "str"@ {
        ValueKind::Quoted
    } else if ty == "integer"@ || ty == "int"@ || ty == "i32"@ || ty == "number"@ {
        ValueKind::Number
    } else if ty == "char"@ || ty == "letter"@ {
        ValueKind::Letter
    } else if ty == "float"@ || ty == "f64"@ {
        ValueKind::Wide
    } else if ty == "bool"@ || ty == "boolean"@ {
        ValueKind::Flag
    } else {
        ValueKind::Skip
    }
}

/// What one cell adds to the data and to the lines shown; `None` where the
/// program stops as the cell is missing or holds another kind of value.
pub open spec fn cell_export(fmt: Format, kind: ValueKind, cell: Option<CellView>) -> Option<(Seq<PieceView>, Seq<OutputView>)> {
    let echo = |o: OutputView| if fmt == Format::Xml { Seq::<OutputView>::empty() } else { seq![o] };
    if kind == ValueKind::Skip {
        Some((Seq::empty(), Seq::empty()))
    } else {
        match cell {
            None => None,
            Some(c) => match c {
                CellView::Text(s) => if kind == ValueKind::Quoted {
                    let w = if fmt == Format::Csv { s } else { replace_all(s, " "@, "%20"@) };
                    Some((seq![PieceView::Text(debug_of(w))], echo(text_line(s))))
                } else if kind == ValueKind::Letter {
                    Some((seq![PieceView::Text(debug_of(s))], echo(text_line(s))))
                } else {
                    None
                },
                CellView::Int(x) => if kind == ValueKind::Number {
                    Some((seq![PieceView::Text(int_text(x as int))], echo(text_line(int_text(x as int)))))
                } else {
                    None
                },
                CellView::Double(s) => if kind == ValueKind::Wide {
                    Some((seq![PieceView::DoubleDebug(s)], echo(OutputView::Line(seq![PieceView::Double(s)]))))
                } else {
                    None
                },
                CellView::Bool(b) => if kind == ValueKind::Flag {
                    Some((seq![PieceView::Text(bool_text(b))], echo(text_line(bool_text(b)))))
                } else {
                    None
                },
                _ => None,
            },
        }
    }
}

/// What is written before the value of column `j` named `name`.
pub open spec fn cell_lead(fmt: Format, name: Seq<char>) -> Seq<PieceView> {
    if fmt == Format::Json {
        seq![PieceView::Text("\""@ + name + "\":"@)]
    } else if fmt == Format::Xml {
        seq![PieceView::Text(" "@ + name + "="@)]
    } else {
        Seq::empty()
    }
}

/// What is written after the value of column `j` of `n`.
pub open spec fn cell_trail(fmt: Format, j: int, n: int) -> Seq<PieceView> {
    if fmt != Format::Xml && j != n - 1 { seq![PieceView::Text(","@)] } else { Seq::empty() }
}

/// The values of the columns named in `order`, each looked up by name.
pub open spec fn order_columns(t: TableView) -> Seq<Seq<CellView>> {
    Seq::new(t.order.len(), |j: int| t.column(t.order[j])->0.values)
}

/// Whether every name in `order` has a stored column.
pub open spec fn order_stored(t: TableView) -> bool {
    forall|j: int| 0 <= j < t.order.len() ==> #[trigger] t.column(t.order[j]) is Some
}

/// The data and the lines shown for the first `m` cells of row `i`, and
/// whether the program goes on.
pub open spec fn row_cells(fmt: Format, t: TableView, i: int, m: int) -> (Seq<PieceView>, Seq<OutputView>, bool)
    decreases m,
{
    if m <= 0 {
        (Seq::empty(), Seq::empty(), true)
    } else {
        let (d, e, ok) = row_cells(fmt, t, i, m - 1);
        let j = m - 1;
        if !ok || j >= t.model.len() {
            (d, e, false)
        } else {
            let col = order_columns(t)[j];
            let cell = if i < col.len() { Some(col[i]) } else { None };
            match cell_export(fmt, value_kind(lowercase_of(t.model[j])), cell) {
                None => (d, e, false),
                Some((cd, ce)) => (d + cell_lead(fmt, t.order[j]) + cd + cell_trail(fmt, j, t.order.len() as int), e + ce, true),
            }
        }
    }
}

/// What opens row `i`.
pub open spec fn row_open(fmt: Format) -> Seq<PieceView> {
    if fmt == Format::Json {
        seq![PieceView::Text("{ \r\n"@)]
    } else if fmt == Format::Xml {
        seq![PieceView::Text("<Record"@)]
    } else {
        Seq::empty()
    }
}

/// What closes row `i` of `n`.
pub open spec fn row_close(fmt: Format, i: int, n: int) -> Seq<PieceView> {
    if fmt == Format::Json {
        if i == n - 1 { seq![PieceView::Text("\r\n}\r\n"@)] } else { seq![PieceView::Text("\r\n},\r\n"@)] }
    } else if fmt == Format::Xml {
        seq![PieceView::Text("/>\r\n"@)]
    } else {
        seq![PieceView::Text("\r\n"@)]
    }
}

/// The data and the lines shown for the first `k` rows of `n`, and whether
/// the program goes on.
pub open spec fn rows_export(fmt: Format, t: TableView, k: int, n: int) -> (Seq<PieceView>, Seq<OutputView>, bool)
    decreases k,
{
    if k <= 0 {
        (Seq::empty(), Seq::empty(), true)
    } else {
        let (d, e, ok) = rows_export(fmt, t, k - 1, n);
        if !ok {
            (d, e, false)
        } else {
            let (cd, ce, cok) = row_cells(fmt, t, k - 1, t.order.len() as int);
            if cok {
                (d + row_open(fmt) + cd + row_close(fmt, k - 1, n), e + ce, true)
            } else {
                (d, e + ce, false)
            }
        }
    }
}

/// The number of rows an export walks: the row count, or, for a negative
/// count, the count taken as an unsigned machine word.
pub open spec fn row_bound(rows: i32) -> int {
    if rows >= 0 { rows as int } else { usize::MAX + 1 + rows }
}

/// The items each followed by `:`, after `prefix`, the last character dropped.
pub open spec fn colon_list(prefix: Seq<char>, items: Seq<Seq<char>>) -> Seq<char> {
    (prefix + colon_items(items)).drop_last()
}

pub open spec fn colon_items(items: Seq<Seq<char>>) -> Seq<char>
    decreases items.len(),
{
    if items.len() == 0 {
        Seq::empty()
    } else {
        colon_items(items.drop_last()) + items.last() + ":"@
    }
}

/// What comes before the rows.
pub open spec fn export_head(fmt: Format, t: TableView, tb: Seq<char>) -> Seq<PieceView> {
    if fmt == Format::Xml {
        seq![
            PieceView::Text(colon_list("<dtypes = "@, t.model)),
            PieceView::Text("/>\r\n"@),
            PieceView::Text(colon_list("<colnames = "@, t.order)),
            PieceView::Text("/>\r\n"@),
            PieceView::Text("<"@ + tb + ">\r\n"@),
        ]
    } else {
        seq![
            PieceView::Text(colon_list("//"@, t.model)),
            PieceView::Text("\r\n"@),
            PieceView::Text(colon_list("//"@, t.order)),
            PieceView::Text("\r\n"@),
        ] + if fmt == Format::Json { seq![PieceView::Text("[\r\n"@)] } else { Seq::empty() }
    }
}

/// What comes after the rows.
pub open spec fn export_tail(fmt: Format, tb: Seq<char>) -> Seq<PieceView> {
    if fmt == Format::Json {
        seq![PieceView::Text("]"@)]
    } else if fmt == Format::Xml {
        seq![PieceView::Text("<"@ + tb + "/>"@)]
    } else {
        Seq::empty()
    }
}

/// What exporting the table `t`, active under the name `tb`, gives: the
/// lines shown and, where the program goes on, the data to write.
pub open spec fn export(fmt: Format, t: TableView, tb: Seq<char>) -> (Seq<OutputView>, Option<Seq<PieceView>>) {
    if !order_stored(t) {
        (Seq::empty(), None)
    } else {
        let n = row_bound(t.rows);
        let (d, e, ok) = rows_export(fmt, t, n, n);
        if ok {
            (e, Some(export_head(fmt, t, tb) + d + export_tail(fmt, tb)))
        } else {
            (e, None)
        }
    }
}

/// How a column of type `ty`, in lower case, is written.
pub fn value_kind_of(ty: &String) -> (k: ValueKind)
    ensures
        k == value_kind(ty@),
{
    let t = ty.as_str();
    if text_is(t, "string") || text_is(t, "word") || text_is(t, "str") {
        ValueKind::Quoted
    } else if text_is(t, "integer") || text_is(t, "int") || text_is(t, "i32") || text_is(t, "number") {
        ValueKind::Number
    } else if text_is(t, "char") || text_is(t, "letter") {
        ValueKind::Letter
    } else if text_is(t, "float") || text_is(t, "f64") {
        ValueKind::Wide
    } else if text_is(t, "bool") || text_is(t, "boolean") {
        ValueKind::Flag
    } else {
        ValueKind::Skip
    }
}

fn text_piece(s: String) -> (p: Vec<Piece>)
    ensures
        piece_views(p@) == seq![PieceView::Text(s@)],
{
    let mut v: Vec<Piece> = Vec::new();
    v.push(Piece::Text(s));
    assert(piece_views(v@) =~= seq![PieceView::Text(s@)]) by {
        assert(v@.len() == 1);
    }
    v
}

fn echo_of(fmt: Format, o: Output) -> (r: Vec<Output>)
    ensures
        output_views(r@) == if fmt == Format::Xml { Seq::<OutputView>::empty() } else { seq![o@] },
{
    let mut v: Vec<Output> = Vec::new();
    if fmt != Format::Xml {
        v.push(o);
        assert(output_views(v@) =~= seq![o@]) by {
            assert(v@.len() == 1);
        }
    } else {
        assert(output_views(v@) =~= Seq::<OutputView>::empty());
    }
    v
}

/// What one cell adds to the data and to the lines shown, or `None` where
/// the program stops.
pub fn cell_export_of(fmt: Format, kind: ValueKind, cell: Option<&Cell>) -> (r: Option<(Vec<Piece>, Vec<Output>)>)
    ensures
        match r {
            Some((d, e)) => cell_export(fmt, kind, match cell { Some(c) => Some(c@), None => None })
                == Some((piece_views(d@), output_views(e@))),
            None => cell_export(fmt, kind, match cell { Some(c) => Some(c@), None => None }) is None,
        },
{
    proof {
        reveal_strlit(" ");
        reveal_strlit("%20");
    }
    if kind == ValueKind::Skip {
        let d: Vec<Piece> = Vec::new();
        let e: Vec<Output> = Vec::new();
        assert(piece_views(d@) =~= Seq::<PieceView>::empty());
        assert(output_views(e@) =~= Seq::<OutputView>::empty());
        return Some((d, e));
    }
    let c = match cell {
        None => {
            return None;
        },
        Some(c) => c,
    };
    match c {
        Cell::Text(s) => {
            if kind == ValueKind::Quoted {
                let w = if fmt == Format::Csv { s.clone() } else { replace_text(s.as_str(), " ", "%20") };
                let d = text_piece(debug_text(w.as_str()));
                let e = echo_of(fmt, line_of(s.clone()));
                Some((d, e))
            } else if kind == ValueKind::Letter {
                let d = text_piece(debug_text(s.as_str()));
                let e = echo_of(fmt, line_of(s.clone()));
                Some((d, e))
            } else {
                None
            }
        },
        Cell::Int(x) => {
            if kind == ValueKind::Number {
                let d = text_piece(crate::text::int_string(*x as i64));
                let e = echo_of(fmt, line_of(crate::text::int_string(*x as i64)));
                Some((d, e))
            } else {
                None
            }
        },
        Cell::Double(s) => {
            if kind == ValueKind::Wide {
                let mut d: Vec<Piece> = Vec::new();
                d.push(Piece::DoubleDebug(s.clone()));
                let mut l: Vec<Piece> = Vec::new();
                l.push(Piece::Double(s.clone()));
                assert(piece_views(d@) =~= seq![PieceView::DoubleDebug(s@)]) by {
                    assert(d@.len() == 1);
                }
                assert(piece_views(l@) =~= seq![PieceView::Double(s@)]) by {
                    assert(l@.len() == 1);
                }
                let e = echo_of(fmt, Output::Line(l));
                Some((d, e))
            } else {
                None
            }
        },
        Cell::Bool(b) => {
            if kind == ValueKind::Flag {
                let d = text_piece(crate::table::bool_string(*b));
                let e = echo_of(fmt, line_of(crate::table::bool_string(*b)));
                Some((d, e))
            } else {
                None
            }
        },
        _ => None,
    }
}

/// Appends the pieces `more` to `out`.
pub fn append_pieces(out: &mut Vec<Piece>, more: Vec<Piece>)
    ensures
        piece_views(final(out)@) == piece_views(old(out)@) + piece_views(more@),
{
    let mut more = more;
    let ghost o0 = piece_views(out@);
    let ghost m0 = piece_views(more@);
    out.append(&mut more);
    assert(piece_views(out@) =~= o0 + m0);
}

/// `s` without its last character.
fn drop_last_char(s: &String) -> (r: String)
    requires
        s@.len() > 0,
    ensures
        r@ == s@.drop_last(),
{
    let cs = chars_of(s.as_str());
    let mut v: Vec<char> = Vec::new();
    let mut i: usize = 0;
    while i + 1 < cs.len()
        invariant
            cs@ == s@,
            cs.len() > 0,
            i < cs.len(),
            v@ == cs@.take(i as int),
        decreases cs.len() - i,
    {
        v.push(cs[i]);
        i = i + 1;
        assert(v@ =~= cs@.take(i as int));
    }
    assert(cs@.take(i as int) =~= s@.drop_last());
    string_of(&v)
}

/// The items each followed by `:`, after `prefix`, the last character dropped.
fn colon_list_of(prefix: &str, items: &Vec<String>) -> (r: String)
    requires
        prefix@.len() > 0,
    ensures
        r@ == colon_list(prefix@, texts(items@)),
{
    let ghost v = texts(items@);
    let mut s = String::from_str(prefix);
    let mut i: usize = 0;
    assert(v.take(0) =~= Seq::<Seq<char>>::empty());
    assert(s@ =~= prefix@ + colon_items(v.take(0)));
    while i < items.len()
        invariant
            v == texts(items@),
            i <= items.len(),
            s@ == prefix@ + colon_items(v.take(i as int)),
        decreases items.len() - i,
    {
        s.append(items[i].as_str());
        s.append(":");
        proof {
            assert(v.take(i + 1).drop_last() =~= v.take(i as int));
            assert(v.take(i + 1).last() == items@[i as int]@);
            assert(s@ =~= prefix@ + colon_items(v.take(i + 1)));
        }
        i = i + 1;
    }
    assert(v.take(i as int) =~= v);
    drop_last_char(&s)
}

/// The number of rows an export walks.
pub fn row_bound_of(rows: i32) -> (r: usize)
    ensures
        r as int == row_bound(rows),
{
    if rows >= 0 {
        rows as usize
    } else {
        usize::MAX - ((-(rows as i64) - 1) as usize)
    }
}

/// What comes before the rows.
fn export_head_of(fmt: Format, t: &Table, tb: &String) -> (r: Vec<Piece>)
    ensures
        piece_views(r@) == export_head(fmt, t@, tb@),
{
    proof {
        reveal_strlit("<dtypes = ");
        reveal_strlit("<colnames = ");
        reveal_strlit("//");
    }
    let mut r: Vec<Piece> = Vec::new();
    if fmt == Format::Xml {
        r.push(Piece::Text(colon_list_of("<dtypes = ", t.model())));
        r.push(Piece::Text(String::from_str("/>\r\n")));
        r.push(Piece::Text(colon_list_of("<colnames = ", t.order())));
        r.push(Piece::Text(String::from_str("/>\r\n")));
        let mut l = String::from_str("<");
        l.append(tb.as_str());
        l.append(">\r\n");
        r.push(Piece::Text(l));
    } else {
        r.push(Piece::Text(colon_list_of("//", t.model())));
        r.push(Piece::Text(String::from_str("\r\n")));
        r.push(Piece::Text(colon_list_of("//", t.order())));
        r.push(Piece::Text(String::from_str("\r\n")));
        if fmt == Format::Json {
            r.push(Piece::Text(String::from_str("[\r\n")));
        }
    }
    assert(piece_views(r@) =~= export_head(fmt, t@, tb@));
    r
}

/// What comes after the rows.
fn export_tail_of(fmt: Format, tb: &String) -> (r: Vec<Piece>)
    ensures
        piece_views(r@) == export_tail(fmt, tb@),
{
    let mut r: Vec<Piece> = Vec::new();
    if fmt == Format::Json {
        r.push(Piece::Text(String::from_str("]")));
    } else if fmt == Format::Xml {
        let mut l = String::from_str("<");
        l.append(tb.as_str());
        l.append("/>");
        r.push(Piece::Text(l));
    }
    assert(piece_views(r@) =~= export_tail(fmt, tb@));
    r
}

/// The positions of the stored columns named in `order`, or `None` where
/// a name has no stored column.
fn order_positions(t: &Table) -> (r: Option<Vec<usize>>)
    ensures
        r is Some <==> order_stored(t@),
        r matches Some(p) ==> p@.len() == t@.order.len() && forall|j: int| 0 <= j < p@.len() ==> #[trigger] p@[j] < t@.columns.len()
            && t@.column(t@.order[j]) == Some(t@.columns[p@[j] as int]),
{
    let order = t.order();
    let mut p: Vec<usize> = Vec::new();
    let mut j: usize = 0;
    while j < order.len()
        invariant
            texts(order@) == t@.order,
            j <= order.len(),
            p@.len() == j,
            forall|k: int| 0 <= k < j ==> #[trigger] p@[k] < t@.columns.len() && t@.column(t@.order[k]) == Some(t@.columns[p@[k] as int]),
        decreases order.len() - j,
    {
        assert(t@.order[j as int] == order@[j as int]@);
        match t.find_column(&order[j]) {
            Some(c) => {
                p.push(c);
            },
            None => {
                assert(t@.column(t@.order[j as int]) is None);
                return None;
            },
        }
        j = j + 1;
    }
    assert forall|k: int| 0 <= k < t@.order.len() implies #[trigger] t@.column(t@.order[k]) is Some by {
        assert(p@[k] < t@.columns.len());
    }
    Some(p)
}

/// The data and lines shown for row `i`, and whether the program goes on.
fn row_cells_of(fmt: Format, t: &Table, pos: &Vec<usize>, i: usize) -> (r: (Vec<Piece>, Vec<Output>, bool))
    requires
        order_stored(t@),
        pos@.len() == t@.order.len(),
        forall|j: int| 0 <= j < pos@.len() ==> #[trigger] pos@[j] < t@.columns.len()
            && t@.column(t@.order[j]) == Some(t@.columns[pos@[j] as int]),
    ensures
        (piece_views(r.0@), output_views(r.1@), r.2) == row_cells(fmt, t@, i as int, t@.order.len() as int),
{
    let n = pos.len();
    let mut d: Vec<Piece> = Vec::new();
    let mut e: Vec<Output> = Vec::new();
    let mut j: usize = 0;
    assert(piece_views(d@) =~= Seq::<PieceView>::empty());
    assert(output_views(e@) =~= Seq::<OutputView>::empty());
    while j < n
        invariant
            n == pos@.len() == t@.order.len(),
            j <= n,
            order_stored(t@),
            forall|k: int| 0 <= k < pos@.len() ==> #[trigger] pos@[k] < t@.columns.len()
                && t@.column(t@.order[k]) == Some(t@.columns[pos@[k] as int]),
            row_cells(fmt, t@, i as int, j as int) == (piece_views(d@), output_views(e@), true),
        decreases n - j,
    {
        let model = t.model();
        if j >= model.len() {
            proof { lemma_row_cells_stop(fmt, t@, i as int, j as int + 1, n as int); }
            return (d, e, false);
        }
        let ty = lowercase(model[j].as_str());
        let kind = value_kind_of(&ty);
        let col = &t.columns()[pos[j]];
        let cell = if i < col.values.len() { Some(&col.values[i]) } else { None };
        proof {
            assert(t@.model[j as int] == model@[j as int]@);
            assert(col@ == t@.columns[pos@[j as int] as int]);
            assert(order_columns(t@)[j as int] == col@.values);
            if i < col.values.len() {
                assert(col@.values[i as int] == col.values@[i as int]@);
            }
        }
        match cell_export_of(fmt, kind, cell) {
            None => {
                proof { lemma_row_cells_stop(fmt, t@, i as int, j as int + 1, n as int); }
                return (d, e, false);
            },
            Some((cd, ce)) => {
                let order = t.order();
                let mut lead: Vec<Piece> = Vec::new();
                if fmt == Format::Json {
                    let mut l = String::from_str("\"");
                    l.append(order[j].as_str());
                    l.append("\":");
                    lead.push(Piece::Text(l));
                } else if fmt == Format::Xml {
                    let mut l = String::from_str(" ");
                    l.append(order[j].as_str());
                    l.append("=");
                    lead.push(Piece::Text(l));
                }
                assert(t@.order[j as int] == order@[j as int]@);
                assert(piece_views(lead@) =~= cell_lead(fmt, t@.order[j as int]));
                let mut trail: Vec<Piece> = Vec::new();
                if fmt != Format::Xml && j + 1 != n {
                    trail.push(Piece::Text(String::from_str(",")));
                }
                assert(piece_views(trail@) =~= cell_trail(fmt, j as int, n as int));
                let ghost d0 = piece_views(d@);
                append_pieces(&mut d, lead);
                append_pieces(&mut d, cd);
                append_pieces(&mut d, trail);
                append_outputs(&mut e, ce);
                proof {
                    assert(piece_views(d@) =~= d0 + cell_lead(fmt, t@.order[j as int]) + piece_views(cd@) + cell_trail(fmt, j as int, n as int));
                }
            },
        }
        j = j + 1;
    }
    (d, e, true)
}

proof fn lemma_row_cells_stop(fmt: Format, t: TableView, i: int, m: int, n: int)
    requires
        0 < m <= n,
        !row_cells(fmt, t, i, m).2,
    ensures
        row_cells(fmt, t, i, n) == row_cells(fmt, t, i, m),
    decreases n - m,
{
    if m < n {
        lemma_row_cells_stop(fmt, t, i, m + 1, n);
    }
}

proof fn lemma_rows_export_stop(fmt: Format, t: TableView, k: int, n: int)
    requires
        0 < k <= n,
        !rows_export(fmt, t, k, n).2,
    ensures
        rows_export(fmt, t, n, n) == rows_export(fmt, t, k, n),
    decreases n - k,
{
    if k < n {
        lemma_rows_export_stop(fmt, t, k + 1, n);
        assert(rows_export(fmt, t, k + 1, n) == rows_export(fmt, t, k, n));
    }
}

/// Exports the table `t`, active under the name `tb`, in the format `fmt`:
/// the lines shown and, where the program goes on, the data to write.
pub fn export_table(fmt: Format, t: &Table, tb: &String) -> (r: (Vec<Output>, Option<Vec<Piece>>))
    ensures
        output_views(r.0@) == export(fmt, t@, tb@).0,
        match r.1 {
            Some(d) => export(fmt, t@, tb@).1 == Some(piece_views(d@)),
            None => export(fmt, t@, tb@).1 is None,
        },
{
    let pos = match order_positions(t) {
        Some(p) => p,
        None => {
            let e: Vec<Output> = Vec::new();
            assert(output_views(e@) =~= Seq::<OutputView>::empty());
            return (e, None);
        },
    };
    let n = row_bound_of(t.rows());
    let mut d: Vec<Piece> = Vec::new();
    let mut e: Vec<Output> = Vec::new();
    let mut i: usize = 0;
    assert(piece_views(d@) =~= Seq::<PieceView>::empty());
    assert(output_views(e@) =~= Seq::<OutputView>::empty());
    while i < n
        invariant
            n as int == row_bound(t@.rows),
            i <= n,
            order_stored(t@),
            pos@.len() == t@.order.len(),
            forall|j: int| 0 <= j < pos@.len() ==> #[trigger] pos@[j] < t@.columns.len()
                && t@.column(t@.order[j]) == Some(t@.columns[pos@[j] as int]),
            rows_export(fmt, t@, i as int, n as int) == (piece_views(d@), output_views(e@), true),
        decreases n - i,
    {
        let (cd, ce, ok) = row_cells_of(fmt, t, &pos, i);
        append_outputs(&mut e, ce);
        if !ok {
            proof { lemma_rows_export_stop(fmt, t@, i as int + 1, n as int); }
            return (e, None);
        }
        let mut open: Vec<Piece> = Vec::new();
        let mut close: Vec<Piece> = Vec::new();
        if fmt == Format::Json {
            open.push(Piece::Text(String::from_str("{ \r\n")));
            if i + 1 == n {
                close.push(Piece::Text(String::from_str("\r\n}\r\n")));
            } else {
                close.push(Piece::Text(String::from_str("\r\n},\r\n")));
            }
        } else if fmt == Format::Xml {
            open.push(Piece::Text(String::from_str("<Record")));
            close.push(Piece::Text(String::from_str("/>\r\n")));
        } else {
            close.push(Piece::Text(String::from_str("\r\n")));
        }
        assert(piece_views(open@) =~= row_open(fmt));
        assert(piece_views(close@) =~= row_close(fmt, i as int, n as int));
        let ghost d0 = piece_views(d@);
        append_pieces(&mut d, open);
        append_pieces(&mut d, cd);
        append_pieces(&mut d, close);
        assert(piece_views(d@) =~= d0 + row_open(fmt) + piece_views(cd@) + row_close(fmt, i as int, n as int));
        i = i + 1;
    }
    let mut all = export_head_of(fmt, t, tb);
    let ghost h = piece_views(all@);
    let ghost dv = piece_views(d@);
    append_pieces(&mut all, d);
    append_pieces(&mut all, export_tail_of(fmt, tb));
    assert(piece_views(all@) =~= h + dv + export_tail(fmt, tb@));
    (e, Some(all))
}

} // verus!
