use databased::exchange::{export_table, import_csv, import_xml, Format};
use databased::notice::{init_Logger, make_notice, Tone};
use databased::order::{aggregate, compare_text, group_rows, stable_order};
use databased::output::{Output, Piece};
use databased::store::{create_workspace, create_workspace_at, Db};
use databased::table::{Cell, Table};
use databased::text::{
    float_text_ok, int_string, lines_text, parse_bool_text, parse_char_text, parse_i32_text,
    parse_i64_text, replace_text, split_text, trim_text,
};

fn s(x: &str) -> String {
    x.to_string()
}

fn chars(x: &str) -> Vec<char> {
    x.chars().collect()
}

fn line_text(o: &Output) -> String {
    match o {
        Output::Line(ps) => {
            let mut t = String::new();
            for p in ps {
                match p {
                    Piece::Text(x) | Piece::Single(x) | Piece::Double(x) | Piece::DoubleDebug(x) => t.push_str(x),
                }
            }
            t
        }
        _ => String::new(),
    }
}

// ---------------------------------------------------------------------------
// Text
// ---------------------------------------------------------------------------

#[test]
fn split_keeps_empty_pieces() {
    assert_eq!(split_text("a,,b", ','), vec![s("a"), s(""), s("b")]);
    assert_eq!(split_text("", ','), vec![s("")]);
    assert_eq!(split_text("abc", ','), vec![s("abc")]);
    assert_eq!(split_text("a,", ','), vec![s("a"), s("")]);
}

#[test]
fn trim_removes_outer_whitespace() {
    assert_eq!(trim_text("  a b \t\r\n"), "a b");
    assert_eq!(trim_text("   "), "");
    assert_eq!(trim_text("x"), "x");
}

#[test]
fn replace_every_occurrence() {
    assert_eq!(replace_text("a%20b%20c", "%20", " "), "a b c");
    assert_eq!(replace_text("plain", "%20", " "), "plain");
    assert_eq!(replace_text("aaa", "aa", "b"), "ba");
    assert_eq!(replace_text("file.xml", ".xml", ""), "file");
}

#[test]
fn lines_drop_carriage_returns_and_a_final_newline() {
    assert_eq!(lines_text("a\r\nb\nc\n"), vec![s("a"), s("b"), s("c")]);
    assert_eq!(lines_text("a\r\n\r\nb"), vec![s("a"), s(""), s("b")]);
    assert!(lines_text("").is_empty());
}

#[test]
fn integers_are_written_in_decimal() {
    assert_eq!(int_string(0), "0");
    assert_eq!(int_string(-42), "-42");
    assert_eq!(int_string(1234567890), "1234567890");
    assert_eq!(int_string(i64::MIN), "-9223372036854775808");
    assert_eq!(int_string(i64::MAX), "9223372036854775807");
}

#[test]
fn integers_read_back_as_written() {
    for n in [0i64, 7, -7, 2147483647, -2147483648, 120, -99999] {
        assert_eq!(parse_i32_text(&int_string(n)), Some(n as i32));
        assert_eq!(parse_i64_text(&int_string(n)), Some(n));
    }
    assert_eq!(parse_i64_text(&int_string(i64::MIN)), Some(i64::MIN));
}

#[test]
fn parse_integers_as_from_str_does() {
    assert_eq!(parse_i32_text("+5"), Some(5));
    assert_eq!(parse_i32_text("-0"), Some(0));
    assert_eq!(parse_i32_text("2147483648"), None);
    assert_eq!(parse_i32_text("-2147483649"), None);
    assert_eq!(parse_i32_text(""), None);
    assert_eq!(parse_i32_text("-"), None);
    assert_eq!(parse_i32_text(" 1"), None);
    assert_eq!(parse_i32_text("1a"), None);
    assert_eq!(parse_i64_text("9223372036854775808"), None);
}

#[test]
fn parse_booleans_and_characters() {
    assert_eq!(parse_bool_text("true"), Some(true));
    assert_eq!(parse_bool_text("false"), Some(false));
    assert_eq!(parse_bool_text("True"), None);
    assert_eq!(parse_char_text("x"), Some('x'));
    assert_eq!(parse_char_text("xy"), None);
    assert_eq!(parse_char_text(""), None);
}

#[test]
fn float_literals_as_from_str_accepts_them() {
    for ok in ["1", "1.5", "-.5", "5.", "+1e10", "1E-3", "inf", "-Infinity", "NaN", "nan"] {
        assert!(float_text_ok(ok), "{}", ok);
        assert!(ok.parse::<f64>().is_ok());
    }
    for bad in ["", ".", "e5", "1e", "1.2.3", "abc", " 1", "--1"] {
        assert!(!float_text_ok(bad), "{}", bad);
        assert!(bad.parse::<f64>().is_err());
    }
}

// ---------------------------------------------------------------------------
// Notices and the logger
// ---------------------------------------------------------------------------

#[test]
fn notices_are_worded_by_code() {
    let n = make_notice(-1, s("shop"));
    assert_eq!(n.tone, Tone::Red);
    assert_eq!(n.label, " Error Code ");
    assert_eq!(n.code_text, "-1 ");
    assert_eq!(n.before, "Database named");
    assert_eq!(n.subject, Some(s("shop")));
    assert_eq!(n.after, "does not exist in the current workplace!");
    let n = make_notice(-12, s("ignored"));
    assert_eq!(n.tone, Tone::Yellow);
    assert_eq!(n.subject, None);
    let n = make_notice(77, s("x"));
    assert_eq!(n.tone, Tone::Blue);
    assert_eq!(n.label, " Undocumented Code ");
    assert_eq!(n.code_text, "77 ");
    assert_eq!(n.before, "No definition found for this error!");
}

#[test]
fn logger_keeps_codes_and_hides_positive_ones() {
    let mut l = init_Logger();
    l.update(3, s("t"));
    assert!(l.take_notices().is_empty());
    l.update(-2, s("d"));
    assert_eq!(l.take_notices().len(), 1);
    assert_eq!(l.codes(), &vec![3, -2]);
    assert_eq!(l.reveal_count(), 2);
    l.toggle();
    assert!(l.shows_positives());
    l.update(3, s("t"));
    assert_eq!(l.take_notices().len(), 1);
    l.toggle();
    assert!(!l.shows_positives());
    l.reset();
    assert_eq!(l.reveal_count(), 0);
    assert!(!l.shows_positives());
}

// ---------------------------------------------------------------------------
// Workspaces and databases
// ---------------------------------------------------------------------------

#[test]
fn workspace_adds_each_database_once() {
    let mut w = create_workspace_at(s("w"), s("me"), s("today"));
    assert_eq!(w.getMetadata(), "Date Created : today");
    assert_eq!(w.getDBNames(), "[]");
    w.addDB(s("a"));
    w.addDB(s("b"));
    w.addDB(s("a"));
    assert_eq!(w.getDBNames(), "[a, b]");
    assert_eq!(w.logger().codes(), &vec![-3]);
    assert!(w.fetchDB_name(s("b")));
    assert!(!w.fetchDB_name(s("c")));
    assert_eq!(w.logger().codes(), &vec![-3, -1]);
}

#[test]
fn workspace_creates_tables_in_its_databases() {
    let mut w = create_workspace(s("w"), s("me"));
    assert!(w.getMetadata().starts_with("Date Created : "));
    w.addDB(s("d"));
    w.createTable(s("d"), s("t"), s("a,b"), s("int,string"));
    w.createTable(s("d"), s("t"), s("a,b"), s("int,string"));
    w.createTable(s("zz"), s("t"), s("a"), s("int"));
    assert_eq!(w.logger().codes(), &vec![3, -3, -1]);
    let t = &w.getDB()[0].getTables()[0];
    assert_eq!(t.name(), "t");
    assert_eq!(t.order(), &vec![s("a"), s("b")]);
    assert_eq!(t.model(), &vec![s("int"), s("string")]);
}

#[test]
fn workspace_toggles_its_logger() {
    let mut w = create_workspace_at(s("w"), s("me"), s("now"));
    w.toggleLogger();
    assert!(w.logger().shows_positives());
    w.throwUC();
    assert_eq!(w.logger().codes(), &vec![-99999]);
    w.toggleLogger();
    assert!(!w.logger().shows_positives());
}

#[test]
fn database_creates_each_table_once() {
    let mut d = Db::new(s("d"));
    assert_eq!(d.createTable(s("t"), vec![s("a")], vec![s("int")]), 3);
    assert_eq!(d.createTable(s("t"), vec![s("b")], vec![s("string")]), -3);
    assert_eq!(d.getTables().len(), 1);
    assert_eq!(d.getTables()[0].order(), &vec![s("a")]);
    assert_eq!(d.getName(), "d");
    match d.print() {
        Output::Tables { label, names, .. } => {
            assert_eq!(label, " d ");
            assert_eq!(names, vec![s("t")]);
        }
        _ => panic!("expected the table names"),
    }
}

// ---------------------------------------------------------------------------
// Ordering and grouping
// ---------------------------------------------------------------------------

#[test]
fn compare_text_orders_by_characters() {
    assert_eq!(compare_text(&chars("a"), &chars("b")), -1);
    assert_eq!(compare_text(&chars("b"), &chars("a")), 1);
    assert_eq!(compare_text(&chars("ab"), &chars("ab")), 0);
    assert_eq!(compare_text(&chars("a"), &chars("ab")), -1);
    assert_eq!(compare_text(&chars("B"), &chars("a")), -1);
}

#[test]
fn stable_order_keeps_ties_in_place() {
    let keys = vec![chars("b"), chars("a"), chars("b"), chars("a"), chars("c")];
    assert_eq!(stable_order(&keys), vec![1, 3, 0, 2, 4]);
    assert!(stable_order(&Vec::new()).is_empty());
}

#[test]
fn rows_group_by_key_in_order_of_first_occurrence() {
    let keys = vec![s("x"), s("y"), s("x"), s("z"), s("y")];
    let g = group_rows(&keys);
    assert_eq!(g.len(), 3);
    assert_eq!(g[0].key, "x");
    assert_eq!(g[0].rows, vec![0, 2]);
    assert_eq!(g[1].key, "y");
    assert_eq!(g[1].rows, vec![1, 4]);
    assert_eq!(g[2].key, "z");
    assert_eq!(g[2].rows, vec![3]);
}

#[test]
fn aggregates_per_group() {
    let keys = vec![s("x"), s("y"), s("x")];
    let values = vec![s("5"), s("-2"), s("oops")];
    let g = group_rows(&keys);
    let (out, stopped) = aggregate(&s("count"), &g, &values);
    assert!(!stopped);
    assert_eq!(out.iter().map(line_text).collect::<Vec<_>>(), vec!["For group x: COUNT = 2", "For group y: COUNT = 1"]);
    let (out, _) = aggregate(&s("sum"), &g, &values);
    assert_eq!(out.iter().map(line_text).collect::<Vec<_>>(), vec!["For group x: SUM = 5", "For group y: SUM = -2"]);
    let (out, _) = aggregate(&s("min"), &g, &values);
    assert_eq!(out.iter().map(line_text).collect::<Vec<_>>(), vec!["For group x: MIN = 0", "For group y: MIN = -2"]);
    let (out, _) = aggregate(&s("max"), &g, &values);
    assert_eq!(out.iter().map(line_text).collect::<Vec<_>>(), vec!["For group x: MAX = 5", "For group y: MAX = -2"]);
    let (out, _) = aggregate(&s("avg"), &g, &values);
    match &out[0] {
        Output::Average { group, values } => {
            assert_eq!(group, "x");
            assert_eq!(values, &vec![s("5"), s("oops")]);
        }
        _ => panic!("expected an average"),
    }
    let (out, _) = aggregate(&s("median"), &g, &values);
    assert_eq!(line_text(&out[0]), "Unknown function: median");
}

#[test]
fn a_sum_that_overflows_stops() {
    let keys = vec![s("x"), s("x")];
    let values = vec![s("2147483647"), s("1")];
    let (out, stopped) = aggregate(&s("sum"), &group_rows(&keys), &values);
    assert!(stopped);
    assert!(out.is_empty());
}

// ---------------------------------------------------------------------------
// Import and export
// ---------------------------------------------------------------------------

#[test]
fn csv_import_reads_header_types_and_rows() {
    let lines = vec![
        Some(s("\u{feff}n, ok, c, r")),
        Some(s("i32, bool, char, f32")),
        Some(s(" 4 , true, z, 1.5")),
        None,
        Some(s("5, false, y, 2")),
    ];
    let r = import_csv(s("things"), &lines);
    assert!(!r.halted);
    let t = r.table.unwrap();
    assert_eq!(t.order(), &vec![s("n"), s("ok"), s("c"), s("r")]);
    assert_eq!(t.model(), &vec![s("i32"), s("bool"), s("char"), s("f32")]);
    assert_eq!(t.rows(), 2);
    let i = t.find_column(&s("n")).unwrap();
    assert!(matches!(t.columns()[i].values[..], [Cell::Int(4), Cell::Int(5)]));
    let i = t.find_column(&s("ok")).unwrap();
    assert!(matches!(t.columns()[i].values[..], [Cell::Bool(true), Cell::Bool(false)]));
    let i = t.find_column(&s("c")).unwrap();
    assert!(matches!(t.columns()[i].values[..], [Cell::Char('z'), Cell::Char('y')]));
    assert_eq!(r.outputs.len(), 3);
}

#[test]
fn csv_import_of_a_short_file_gives_nothing() {
    let r = import_csv(s("x"), &vec![Some(s("a"))]);
    assert!(r.table.is_none());
    assert!(!r.halted);
    assert!(r.outputs.is_empty());
}

#[test]
fn csv_import_stops_on_an_unreadable_field() {
    let lines = vec![Some(s("n")), Some(s("i32")), Some(s("seven"))];
    let r = import_csv(s("x"), &lines);
    assert!(r.halted);
    assert!(r.table.is_none());
}

#[test]
fn xml_import_reads_records() {
    let text = "<dtypes = string:boolean:i64/>\n<colnames = who:ok:big/>\n<t>\n<Record who=\"A%20B\" ok=TRUE big=-9/>\n<Record who=\"C\" ok=no big=1/>\n<t/>";
    let t = import_xml(&s("t.xml"), &s(text)).unwrap();
    assert_eq!(t.name(), "t");
    assert_eq!(t.rows(), 2);
    let i = t.find_column(&s("who")).unwrap();
    assert!(matches!(&t.columns()[i].values[..], [Cell::Text(a), Cell::Text(b)] if a == "A B" && b == "C"));
    let i = t.find_column(&s("ok")).unwrap();
    assert!(matches!(t.columns()[i].values[..], [Cell::Bool(true), Cell::Bool(false)]));
    let i = t.find_column(&s("big")).unwrap();
    assert!(matches!(t.columns()[i].values[..], [Cell::Long(-9), Cell::Long(1)]));
}

#[test]
fn xml_import_of_a_one_line_file_stops() {
    assert!(import_xml(&s("t.xml"), &s("<dtypes = int/>")).is_none());
}

#[test]
fn export_of_a_table_with_a_missing_cell_stops() {
    let mut t = Table::new(s("t"), vec![s("int")], vec![s("a")]);
    t.put_empty_column(s("a"));
    t.count_row();
    let (out, data) = export_table(Format::Csv, &t, &s("t"));
    assert!(out.is_empty());
    assert!(data.is_none());
}

#[test]
fn export_of_an_empty_table_writes_the_header() {
    let mut t = Table::new(s("t"), vec![s("int"), s("bool")], vec![s("a"), s("b")]);
    t.put_empty_column(s("a"));
    t.put_empty_column(s("b"));
    let (_, data) = export_table(Format::Json, &t, &s("t"));
    let data = data.unwrap();
    let text = line_text(&Output::Line(data));
    assert_eq!(text, "//int:bool\r\n//a:b\r\n[\r\n]");
}
