use databased::output::{Output, Piece, Reply, Request};
use databased::session::{finish_group, Session};
use databased::table::Cell;

fn run(s: &mut Session, line: &str) -> Reply {
    s.execute(&line.to_string())
}

/// The codes of the notices a reply shows, in order.
fn codes(r: &Reply) -> Vec<String> {
    let mut v = Vec::new();
    for o in &r.outputs {
        if let Output::Notice(n) = o {
            v.push(n.code_text.trim().to_string());
        }
    }
    v
}

/// The subjects of the notices a reply shows, in order.
fn subjects(r: &Reply) -> Vec<Option<String>> {
    let mut v = Vec::new();
    for o in &r.outputs {
        if let Output::Notice(n) = o {
            v.push(n.subject.clone());
        }
    }
    v
}

/// The text of each line a reply shows, pieces joined.
fn lines(r: &Reply) -> Vec<String> {
    let mut v = Vec::new();
    for o in &r.outputs {
        if let Output::Line(ps) = o {
            v.push(pieces_text(ps));
        }
    }
    v
}

fn pieces_text(ps: &Vec<Piece>) -> String {
    let mut s = String::new();
    for p in ps {
        match p {
            Piece::Text(t) => s.push_str(t),
            Piece::Single(t) => s.push_str(t),
            Piece::Double(t) => s.push_str(t),
            Piece::DoubleDebug(t) => s.push_str(t),
        }
    }
    s
}

fn ends_blank(r: &Reply) -> bool {
    matches!(r.outputs.last(), Some(Output::Blank))
}

fn is_continue(r: &Reply) -> bool {
    matches!(r.request, Request::Continue)
}

/// A session with workspace `w`, database `d` and table `t` (columns
/// `name` of type string and `age` of type int) all active.
fn ready() -> Session {
    let mut s = Session::new("s".to_string());
    assert!(is_continue(&run(&mut s, "create workspace w")));
    assert!(is_continue(&run(&mut s, "set workspace w")));
    assert!(is_continue(&run(&mut s, "create database d")));
    assert!(is_continue(&run(&mut s, "set database d")));
    let r = run(&mut s, "create table t name:age string:int");
    assert!(codes(&r).is_empty());
    assert!(is_continue(&run(&mut s, "set table t")));
    s
}

fn active_table(s: &Session) -> &databased::table::Table {
    let (i, j, k) = s.resolve_tb().unwrap();
    s.table_at(i, j, k)
}

fn column<'a>(t: &'a databased::table::Table, name: &str) -> &'a Vec<Cell> {
    let i = t.find_column(&name.to_string()).unwrap();
    &t.columns()[i].values
}

#[test]
fn new_session_prompt_is_its_name() {
    let s = Session::new("main".to_string());
    assert_eq!(s.prompt(), "main");
    assert!(s.workspaces().is_empty());
}

#[test]
fn create_workspace_adds_one_dated_workspace() {
    let mut s = Session::new("alice".to_string());
    let r = run(&mut s, "create workspace w");
    assert!(is_continue(&r));
    assert_eq!(r.outputs.len(), 1);
    assert!(ends_blank(&r));
    assert_eq!(s.workspaces().len(), 1);
    let w = &s.workspaces()[0];
    assert_eq!(w.getName(), "w");
    assert_eq!(w.getAuthor(), "alice");
    assert!(w.getMetadata().starts_with("Date Created : "));
    assert!(w.getMetadata().len() > "Date Created : ".len());
    assert!(w.getDB().is_empty());
}

#[test]
fn create_workspace_twice_logs_1002() {
    let mut s = Session::new("s".to_string());
    run(&mut s, "create workspace w");
    let r = run(&mut s, "create ws w");
    assert_eq!(codes(&r), vec!["-1002"]);
    assert_eq!(subjects(&r), vec![Some("w".to_string())]);
    assert_eq!(s.workspaces().len(), 1);
    assert_eq!(s.logger().codes(), &vec![-1002]);
}

#[test]
fn created_workspace_can_be_set() {
    let mut s = Session::new("s".to_string());
    run(&mut s, "create workspace w");
    let r = run(&mut s, "set workspace w");
    assert!(is_continue(&r));
    assert!(codes(&r).is_empty());
    assert_eq!(s.prompt(), "s>w");
}

#[test]
fn set_missing_workspace_logs_1003() {
    let mut s = Session::new("s".to_string());
    let r = run(&mut s, "set workspace nope");
    assert_eq!(codes(&r), vec!["-1003"]);
    assert_eq!(subjects(&r), vec![Some("nope".to_string())]);
    assert_eq!(s.prompt(), "s");
}

#[test]
fn set_database_without_workspace_logs_1003() {
    let mut s = Session::new("s".to_string());
    let r = run(&mut s, "set database d");
    assert_eq!(codes(&r), vec!["-1003"]);
    assert_eq!(subjects(&r), vec![Some(String::new())]);
}

#[test]
fn created_database_can_be_set() {
    let mut s = Session::new("s".to_string());
    run(&mut s, "create workspace w");
    run(&mut s, "set workspace w");
    let r = run(&mut s, "create db d");
    assert!(codes(&r).is_empty());
    let r = run(&mut s, "set db d");
    assert!(codes(&r).is_empty());
    assert_eq!(s.prompt(), "s>w>d");
    assert_eq!(s.workspaces()[0].getDBNames(), "[d]");
}

#[test]
fn create_database_twice_logs_3_in_the_workspace() {
    let mut s = Session::new("s".to_string());
    run(&mut s, "create workspace w");
    run(&mut s, "set workspace w");
    run(&mut s, "create database d");
    let r = run(&mut s, "create database d");
    assert_eq!(codes(&r), vec!["-3"]);
    assert_eq!(s.workspaces()[0].getDB().len(), 1);
    assert_eq!(s.workspaces()[0].logger().codes(), &vec![-3]);
    assert!(s.logger().codes().is_empty());
}

#[test]
fn create_database_without_workspace_logs_4() {
    let mut s = Session::new("s".to_string());
    let r = run(&mut s, "create database d");
    assert_eq!(codes(&r), vec!["-4"]);
}

#[test]
fn set_missing_database_logs_1004() {
    let mut s = Session::new("s".to_string());
    run(&mut s, "create workspace w");
    run(&mut s, "set workspace w");
    let r = run(&mut s, "set database nope");
    assert_eq!(codes(&r), vec!["-1004"]);
}

#[test]
fn created_table_can_be_set() {
    let s = ready();
    assert_eq!(s.prompt(), "s>w>d>t");
    let t = active_table(&s);
    assert_eq!(t.name(), "t");
    assert_eq!(t.order(), &vec!["name".to_string(), "age".to_string()]);
    assert_eq!(t.model(), &vec!["string".to_string(), "int".to_string()]);
    assert_eq!(t.rows(), 0);
    assert_eq!(t.columns().len(), 2);
}

#[test]
fn set_missing_table_logs_1005() {
    let mut s = ready();
    let r = run(&mut s, "set table nope");
    assert_eq!(codes(&r), vec!["-1005"]);
}

#[test]
fn set_table_without_database_logs_1004() {
    let mut s = Session::new("s".to_string());
    let r = run(&mut s, "set table t");
    assert_eq!(codes(&r), vec!["-1004"]);
}

#[test]
fn create_table_with_more_columns_logs_5() {
    let mut s = ready();
    let r = run(&mut s, "create table u a:b:c int:int");
    assert_eq!(codes(&r), vec!["-5"]);
    assert_eq!(subjects(&r), vec![Some("u".to_string())]);
}

#[test]
fn create_table_with_more_types_logs_6() {
    let mut s = ready();
    let r = run(&mut s, "create table u a int:int");
    assert_eq!(codes(&r), vec!["-6"]);
}

#[test]
fn create_table_with_unknown_types_logs_7_each_then_8() {
    let mut s = ready();
    let r = run(&mut s, "create table u a:b:c blob:int:thing");
    assert_eq!(codes(&r), vec!["-7", "-7", "-8"]);
    assert_eq!(s.workspaces()[0].getDB()[0].getTables().len(), 1);
}

#[test]
fn create_table_without_database_logs_9() {
    let mut s = Session::new("s".to_string());
    run(&mut s, "create workspace w");
    run(&mut s, "set workspace w");
    let r = run(&mut s, "create table u a int");
    assert_eq!(codes(&r), vec!["-9"]);
}

#[test]
fn create_table_without_workspace_logs_10() {
    let mut s = Session::new("s".to_string());
    let r = run(&mut s, "create table u a int");
    assert_eq!(codes(&r), vec!["-10"]);
}

#[test]
fn insert_record_appends_a_row() {
    let mut s = ready();
    let r = run(&mut s, "insert record Bob:42");
    assert!(is_continue(&r));
    assert!(codes(&r).is_empty());
    let t = active_table(&s);
    assert_eq!(t.rows(), 1);
    assert!(matches!(column(t, "name")[..], [Cell::Text(ref n)] if n == "Bob"));
    assert!(matches!(column(t, "age")[..], [Cell::Int(42)]));
}

#[test]
fn insert_record_reads_percent_20_as_space() {
    let mut s = ready();
    run(&mut s, "insert record Bob%20Smith:7");
    let t = active_table(&s);
    assert!(matches!(column(t, "name")[..], [Cell::Text(ref n)] if n == "Bob Smith"));
}

#[test]
fn insert_record_with_wrong_field_count_logs_1007() {
    let mut s = ready();
    let r = run(&mut s, "insert record Bob");
    assert_eq!(codes(&r), vec!["-1007"]);
    assert_eq!(subjects(&r), vec![Some("t".to_string())]);
    assert_eq!(active_table(&s).rows(), 0);
}

#[test]
fn insert_record_without_table_logs_14() {
    let mut s = Session::new("s".to_string());
    let r = run(&mut s, "insert record a:b");
    assert_eq!(codes(&r), vec!["-14"]);
}

#[test]
fn insert_record_with_unreadable_integer_halts() {
    let mut s = ready();
    let r = run(&mut s, "insert record Bob:old");
    assert!(matches!(r.request, Request::Halt(_)));
}

#[test]
fn print_shows_each_row() {
    let mut s = ready();
    run(&mut s, "insert record Ann:30");
    run(&mut s, "insert record Bob:25");
    let r = run(&mut s, "print");
    assert!(is_continue(&r));
    assert_eq!(lines(&r), vec!["name : Ann, age : 30, ", "name : Bob, age : 25, "]);
    assert!(ends_blank(&r));
}

#[test]
fn deleted_table_cannot_be_set() {
    let mut s = ready();
    let r = run(&mut s, "delete table t");
    assert!(codes(&r).is_empty());
    assert_eq!(s.prompt(), "s>w>d");
    let r = run(&mut s, "set table t");
    assert_eq!(codes(&r), vec!["-1005"]);
}

#[test]
fn delete_missing_table_logs_17() {
    let mut s = ready();
    let r = run(&mut s, "delete table nope");
    assert_eq!(codes(&r), vec!["-17"]);
}

#[test]
fn delete_database_unsets_it() {
    let mut s = ready();
    run(&mut s, "delete database d");
    assert!(s.workspaces()[0].getDB().is_empty());
    assert_eq!(s.prompt(), "s>w>t");
}

#[test]
fn delete_workspace_unsets_it() {
    let mut s = ready();
    run(&mut s, "delete workspace w");
    assert!(s.workspaces().is_empty());
    assert_eq!(s.prompt(), "s>d>t");
}

#[test]
fn unset_all_leaves_only_the_name() {
    let mut s = ready();
    let r = run(&mut s, "unset all");
    assert!(is_continue(&r));
    assert_eq!(s.prompt(), "s");
    assert_eq!(s.workspaces().len(), 1);
}

#[test]
fn unset_db_and_tb() {
    let mut s = ready();
    run(&mut s, "unset tb");
    assert_eq!(s.prompt(), "s>w>d");
    run(&mut s, "set table t");
    run(&mut s, "unset db");
    assert_eq!(s.prompt(), "s>w");
}

#[test]
fn unset_unknown_logs_1011() {
    let mut s = Session::new("s".to_string());
    let r = run(&mut s, "unset foo");
    assert_eq!(codes(&r), vec!["-1011"]);
}

#[test]
fn clear_table_forgets_rows() {
    let mut s = ready();
    run(&mut s, "insert record Ann:30");
    let r = run(&mut s, "cleartable");
    assert!(is_continue(&r));
    let t = active_table(&s);
    assert_eq!(t.rows(), 0);
    assert!(t.columns().is_empty());
}

#[test]
fn clear_table_without_table_logs_9999() {
    let mut s = Session::new("s".to_string());
    let r = run(&mut s, "cleartable");
    assert_eq!(codes(&r), vec!["-9999"]);
}

#[test]
fn help_and_empty_and_unknown_commands() {
    let mut s = Session::new("s".to_string());
    let r = run(&mut s, "HELP");
    assert_eq!(lines(&r), vec!["Help is on the way!"]);
    let r = run(&mut s, "");
    assert_eq!(codes(&r), vec!["-1001"]);
    let r = run(&mut s, "dance");
    assert_eq!(codes(&r), vec!["-1000"]);
    assert_eq!(subjects(&r), vec![Some("dance".to_string())]);
}

#[test]
fn exit_asks_to_stop() {
    let mut s = Session::new("s".to_string());
    let r = run(&mut s, "exit");
    assert!(matches!(r.request, Request::Exit));
    assert!(r.outputs.is_empty());
}

#[test]
fn status_without_workspaces_logs_1010() {
    let mut s = Session::new("s".to_string());
    let r = run(&mut s, "status");
    assert_eq!(codes(&r), vec!["-1010"]);
}

#[test]
fn status_shows_every_workspace() {
    let s0 = ready();
    let mut s = s0;
    let r = run(&mut s, "status");
    assert!(is_continue(&r));
    let ls = lines(&r);
    assert_eq!(ls[0], "Name => \"w\"");
    assert_eq!(ls[1], "Author => \"s\"");
    assert!(ls[2].starts_with("Metadata => \"Date Created : "));
    assert_eq!(ls[3], "Databases => \"[d]\"");
    let tables = r.outputs.iter().filter(|o| matches!(o, Output::Tables { .. })).count();
    assert_eq!(tables, 1);
    for o in &r.outputs {
        if let Output::Tables { label, names, .. } = o {
            assert_eq!(label, " d ");
            assert_eq!(names, &vec!["t".to_string()]);
        }
    }
}

#[test]
fn save_workspace_shows_the_active_workspace() {
    let mut s = ready();
    let r = run(&mut s, "save workspace");
    assert!(is_continue(&r));
    assert_eq!(lines(&r)[0], "Name => \"w\"");
    let r = run(&mut s, "save table");
    assert_eq!(codes(&r), vec!["-16"]);
}

#[test]
fn export_csv_asks_to_write_the_file() {
    let mut s = ready();
    run(&mut s, "insert record Ann:30");
    let r = run(&mut s, "export csv");
    match &r.request {
        Request::WriteFile { path, data } => {
            assert_eq!(path, "./t.csv");
            assert_eq!(pieces_text(data), "//string:int\r\n//name:age\r\n\"Ann\",30\r\n");
        }
        _ => panic!("expected a file to write"),
    }
    assert_eq!(lines(&r), vec!["Ann", "30"]);
}

#[test]
fn export_json_and_xml() {
    let mut s = ready();
    run(&mut s, "insert record Ann%20Lee:30");
    let r = run(&mut s, "export json");
    match &r.request {
        Request::WriteFile { path, data } => {
            assert_eq!(path, "./t.js");
            assert_eq!(
                pieces_text(data),
                "//string:int\r\n//name:age\r\n[\r\n{ \r\n\"name\":\"Ann%20Lee\",\"age\":30\r\n}\r\n]"
            );
        }
        _ => panic!("expected a file to write"),
    }
    let r = run(&mut s, "export xml");
    match &r.request {
        Request::WriteFile { path, data } => {
            assert_eq!(path, "./t.xml");
            assert_eq!(
                pieces_text(data),
                "<dtypes = string:int/>\r\n<colnames = name:age/>\r\n<t>\r\n<Record name=\"Ann%20Lee\" age=30/>\r\n<t/>"
            );
        }
        _ => panic!("expected a file to write"),
    }
    assert!(lines(&r).is_empty());
}

#[test]
fn export_other_kind_logs_1013() {
    let mut s = ready();
    let r = run(&mut s, "export pdf");
    assert_eq!(codes(&r), vec!["-1013"]);
}

#[test]
fn export_without_anything_active_logs_12_13_14() {
    let mut s = Session::new("s".to_string());
    let r = run(&mut s, "export csv");
    assert_eq!(codes(&r), vec!["-12", "-13", "-14"]);
    assert!(is_continue(&r));
}

#[test]
fn order_by_asks_for_keys_then_shows_sorted_rows() {
    let mut s = ready();
    run(&mut s, "insert record Cy:3");
    run(&mut s, "insert record Al:1");
    run(&mut s, "insert record Bo:2");
    let r = run(&mut s, "print orderby name");
    let keys = match &r.request {
        Request::Order { column, keys, reverse } => {
            assert_eq!(column, "name");
            assert!(!reverse);
            keys.iter().map(|p| pieces_text(&vec![match p {
                Piece::Text(t) => Piece::Text(t.clone()),
                Piece::Single(t) => Piece::Single(t.clone()),
                Piece::Double(t) => Piece::Double(t.clone()),
                Piece::DoubleDebug(t) => Piece::DoubleDebug(t.clone()),
            }])).collect::<Vec<String>>()
        }
        _ => panic!("expected keys to render"),
    };
    assert_eq!(keys, vec!["Cy", "Al", "Bo"]);
    let r = s.finish_order(&"name".to_string(), &keys, false);
    assert_eq!(lines(&r), vec!["name: Al age: 1 ", "name: Bo age: 2 ", "name: Cy age: 3 "]);
    let r = s.finish_order(&"name".to_string(), &keys, true);
    assert_eq!(
        lines(&r),
        vec![
            " Row # 1 => name: Cy  Row # 1 => age: 3 ",
            " Row # 3 => name: Bo  Row # 3 => age: 2 ",
            " Row # 2 => name: Al  Row # 2 => age: 1 ",
        ]
    );
}

#[test]
fn order_by_unknown_column_is_refused() {
    let mut s = ready();
    let r = run(&mut s, "print orderby height");
    assert_eq!(lines(&r), vec!["Invalid column name"]);
}

#[test]
fn group_by_asks_for_keys_and_values() {
    let mut s = ready();
    run(&mut s, "insert record a:1");
    run(&mut s, "insert record b:2");
    run(&mut s, "insert record a:3");
    let r = run(&mut s, "groupby NAME sum AGE");
    match &r.request {
        Request::Group { function, keys, values } => {
            assert_eq!(function, "sum");
            assert_eq!(keys.len(), 3);
            assert_eq!(values.len(), 3);
        }
        _ => panic!("expected a grouping"),
    }
    let keys = vec!["a".to_string(), "b".to_string(), "a".to_string()];
    let values = vec!["1".to_string(), "2".to_string(), "3".to_string()];
    let r = finish_group(&"sum".to_string(), &keys, &values);
    assert_eq!(lines(&r), vec!["For group a: SUM = 4", "For group b: SUM = 2"]);
}

#[test]
fn group_by_unknown_column_logs_1006() {
    let mut s = ready();
    let r = run(&mut s, "groupby height sum age");
    assert_eq!(codes(&r), vec!["-1006"]);
}

#[test]
fn group_by_without_table_logs_1008() {
    let mut s = Session::new("s".to_string());
    let r = run(&mut s, "groupby a sum b");
    assert_eq!(codes(&r), vec!["-1008"]);
}

#[test]
fn table_from_csv_reads_a_table_into_the_database() {
    let mut s = ready();
    let r = run(&mut s, "table from CSV ./people.csv");
    match &r.request {
        Request::ReadCsv { path } => assert_eq!(path, "./people.csv"),
        _ => panic!("expected a file to read"),
    }
    assert_eq!(lines(&r), vec!["Importing table from CSV file: ./people.csv", "File path: \"./people.csv\""]);
    let file = vec![
        Some("id, who".to_string()),
        Some("i32, string".to_string()),
        Some("1, Ann".to_string()),
        Some("2, Bob".to_string()),
    ];
    let r = s.finish_csv(Some(("people".to_string(), file)));
    assert!(is_continue(&r));
    assert_eq!(
        lines(&r),
        vec!["Table name: people", "Table columns: [\"id\", \"who\"]", "Table datatypes: [\"i32\", \"string\"]"]
    );
    let tables = s.workspaces()[0].getDB()[0].getTables();
    assert_eq!(tables.len(), 2);
    let p = &tables[1];
    assert_eq!(p.name(), "people");
    assert_eq!(p.rows(), 2);
    assert!(matches!(column(p, "id")[..], [Cell::Int(1), Cell::Int(2)]));
}

#[test]
fn table_from_csv_without_database_logs_10() {
    let mut s = Session::new("s".to_string());
    let r = run(&mut s, "table from CSV x.csv");
    assert_eq!(codes(&r), vec!["-10"]);
    assert_eq!(subjects(&r), vec![Some("CSV".to_string())]);
}

#[test]
fn import_xml_reads_an_export_back() {
    let mut s = ready();
    let r = run(&mut s, "import as xml back.xml");
    match &r.request {
        Request::ReadXml { path, file } => {
            assert_eq!(path, "./back.xml");
            assert_eq!(file, "back.xml");
        }
        _ => panic!("expected a file to read"),
    }
    let contents = "<dtypes = string:int/>\r\n<colnames = name:age/>\r\n<t>\r\n<Record name=\"Ann%20Lee\" age=30/>\r\n<t/>";
    let r = s.finish_xml(&"back.xml".to_string(), &contents.to_string());
    assert!(is_continue(&r));
    let tables = s.workspaces()[0].getDB()[0].getTables();
    let b = &tables[1];
    assert_eq!(b.name(), "back");
    assert_eq!(b.rows(), 1);
    assert!(matches!(column(b, "name")[..], [Cell::Text(ref n)] if n == "Ann Lee"));
    assert!(matches!(column(b, "age")[..], [Cell::Int(30)]));
}

#[test]
fn import_as_other_type_logs_18() {
    let mut s = ready();
    let r = run(&mut s, "import as json x.json");
    assert_eq!(codes(&r), vec!["-18"]);
}

#[test]
fn import_xml_without_database_logs_12_13() {
    let mut s = Session::new("s".to_string());
    let r = run(&mut s, "import as xml x.xml");
    assert_eq!(codes(&r), vec!["-12", "-13"]);
}

#[test]
fn xml_export_of_integer_columns_reads_back() {
    let mut s = Session::new("s".to_string());
    run(&mut s, "create workspace w");
    run(&mut s, "set workspace w");
    run(&mut s, "create database d");
    run(&mut s, "set database d");
    run(&mut s, "create table nums a:b int:i32");
    run(&mut s, "set table nums");
    run(&mut s, "insert record 1:2");
    run(&mut s, "insert record -30:2147483647");
    let r = run(&mut s, "export xml");
    let text = match &r.request {
        Request::WriteFile { path, data } => {
            assert_eq!(path, "./nums.xml");
            pieces_text(data)
        }
        _ => panic!("expected a file to write"),
    };
    run(&mut s, "delete table nums");
    let r = run(&mut s, "import as xml nums.xml");
    assert!(matches!(r.request, Request::ReadXml { .. }));
    let r = s.finish_xml(&"nums.xml".to_string(), &text);
    assert!(is_continue(&r));
    let t = &s.workspaces()[0].getDB()[0].getTables()[0];
    assert_eq!(t.name(), "nums");
    assert_eq!(t.rows(), 2);
    assert_eq!(t.order(), &vec!["a".to_string(), "b".to_string()]);
    assert_eq!(t.model(), &vec!["int".to_string(), "i32".to_string()]);
    assert!(matches!(column(t, "a")[..], [Cell::Int(1), Cell::Int(-30)]));
    assert!(matches!(column(t, "b")[..], [Cell::Int(2), Cell::Int(2147483647)]));
}

#[test]
fn csv_path_is_shown_as_a_path() {
    let mut s = ready();
    let r = run(&mut s, "table from CSV it's.csv");
    assert_eq!(lines(&r), vec!["Importing table from CSV file: it's.csv", "File path: \"it's.csv\""]);
}

#[test]
fn selection_follows_the_commands() {
    let mut s = ready();
    run(&mut s, "create table u x int");
    run(&mut s, "set table u");
    assert_eq!(s.prompt(), "s>w>d>u");
    run(&mut s, "create workspace v");
    run(&mut s, "set workspace v");
    assert_eq!(s.prompt(), "s>v");
    assert!(s.resolve_ws().is_some());
    assert!(s.resolve_db().is_none());
}

#[test]
fn csv_file_table_is_named_after_the_file_stem() {
    let mut s = ready();
    let file = vec![Some("n".to_string()), Some("i32".to_string()), Some("7".to_string())];
    let r = s.finish_csv_file(&"./data/people.v2.csv".to_string(), Some(file));
    assert!(is_continue(&r));
    let tables = s.workspaces()[0].getDB()[0].getTables();
    assert_eq!(tables[1].name(), "people.v2");
    assert_eq!(tables[1].rows(), 1);
    let r = s.finish_csv_file(&"./missing.csv".to_string(), None);
    assert!(is_continue(&r));
    assert_eq!(s.workspaces()[0].getDB()[0].getTables().len(), 2);
}

#[test]
fn csv_file_path_without_a_file_name_halts() {
    let mut s = ready();
    let r = s.finish_csv_file(&"/".to_string(), Some(vec![None]));
    assert!(matches!(r.request, Request::Halt(_)));
}
