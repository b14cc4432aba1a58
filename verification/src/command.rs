//! The command language of a session: a line split at spaces, dispatched on
//! its number of words and on its keywords in lower case.
use vstd::prelude::*;
use crate::outside::{lowercase, lowercase_of};
use crate::text::{split_on, split_text, text_is, texts};

verus! {

/// The formats a table is exported in, or another word.
pub enum ExportKind {
    Json,
    Xml,
    Csv,
    Other(String),
}

pub enum ExportKindView {
    Json,
    Xml,
    Csv,
    Other(Seq<char>),
}

/// A command of the session.
pub enum Command {
    /// Logs `code` with subject `subject`, and does nothing else.
    Log(i32, String),
    /// Nothing happens but the blank line that ends every command.
    Nothing,
    Help,
    ClearTable,
    PrintTable,
    Status,
    Exit,
    UnsetAll,
    UnsetDb,
    UnsetTb,
    Export(ExportKind),
    SaveWorkspace,
    Order { column: String, reverse: bool },
    InsertRecord(String),
    SetWorkspace(String),
    SetDatabase(String),
    SetTable(String),
    CreateWorkspace(String),
    CreateDatabase(String),
    DeleteTable(String),
    DeleteDatabase(String),
    DeleteWorkspace(String),
    GroupBy { column: String, function: String, target: String },
    TableFromCsv(String),
    ImportXml(String),
    CreateTable { name: String, columns: String, types: String },
}

pub enum CommandView {
    Log(i32, Seq<char>),
    Nothing,
    Help,
    ClearTable,
    PrintTable,
    Status,
    Exit,
    UnsetAll,
    UnsetDb,
    UnsetTb,
    Export(ExportKindView),
    SaveWorkspace,
    Order { column: Seq<char>, reverse: bool },
    InsertRecord(Seq<char>),
    SetWorkspace(Seq<char>),
    SetDatabase(Seq<char>),
    SetTable(Seq<char>),
    CreateWorkspace(Seq<char>),
    CreateDatabase(Seq<char>),
    DeleteTable(Seq<char>),
    DeleteDatabase(Seq<char>),
    DeleteWorkspace(Seq<char>),
    GroupBy { column: Seq<char>, function: Seq<char>, target: Seq<char> },
    TableFromCsv(Seq<char>),
    ImportXml(Seq<char>),
    CreateTable { name: Seq<char>, columns: Seq<char>, types: Seq<char> },
}

impl View for ExportKind {
    type V = ExportKindView;

    open spec fn view(&self) -> ExportKindView {
        match self {
            ExportKind::Json => ExportKindView::Json,
            ExportKind::Xml => ExportKindView::Xml,
            ExportKind::Csv => ExportKindView::Csv,
            ExportKind::Other(s) => ExportKindView::Other(s@),
        }
    }
}

impl View for Command {
    type V = CommandView;

    open spec fn view(&self) -> CommandView {
        match self {
            Command::Log(c, s) => CommandView::Log(*c, s@),
            Command::Nothing => CommandView::Nothing,
            Command::Help => CommandView::Help,
            Command::ClearTable => CommandView::ClearTable,
            Command::PrintTable => CommandView::PrintTable,
            Command::Status => CommandView::Status,
            Command::Exit => CommandView::Exit,
            Command::UnsetAll => CommandView::UnsetAll,
            Command::UnsetDb => CommandView::UnsetDb,
            Command::UnsetTb => CommandView::UnsetTb,
            Command::Export(k) => CommandView::Export(k@),
            Command::SaveWorkspace => CommandView::SaveWorkspace,
            Command::Order { column, reverse } => CommandView::Order { column: column@, reverse: *reverse },
            Command::InsertRecord(s) => CommandView::InsertRecord(s@),
            Command::SetWorkspace(s) => CommandView::SetWorkspace(s@),
            Command::SetDatabase(s) => CommandView::SetDatabase(s@),
            Command::SetTable(s) => CommandView::SetTable(s@),
            Command::CreateWorkspace(s) => CommandView::CreateWorkspace(s@),
            Command::CreateDatabase(s) => CommandView::CreateDatabase(s@),
            Command::DeleteTable(s) => CommandView::DeleteTable(s@),
            Command::DeleteDatabase(s) => CommandView::DeleteDatabase(s@),
            Command::DeleteWorkspace(s) => CommandView::DeleteWorkspace(s@),
            Command::GroupBy { column, function, target } => CommandView::GroupBy {
                column: column@,
                function: function@,
                target: target@,
            },
            Command::TableFromCsv(s) => CommandView::TableFromCsv(s@),
            Command::ImportXml(s) => CommandView::ImportXml(s@),
            Command::CreateTable { name, columns, types } => CommandView::CreateTable {
                name: name@,
                columns: columns@,
                types: types@,
            },
        }
    }
}

/// The second word of `set` and `create`, with `db` read as `database`
/// and `ws` as `workspace`, in lower case.
pub open spec fn object_word(w: Seq<char>) -> Seq<char> {
    let l = lowercase_of(w);
    if l == "db"@ {
        "database"@
    } else if l == "ws"@ {
        "workspace"@
    } else {
        l
    }
}

/// The command a line of input gives.
pub open spec fn command_of(input: Seq<char>) -> CommandView {
    let g = split_on(input, ' ');
    let n = g.len();
    if n == 1 {
        let l = lowercase_of(input);
        if l == ""@ {
            CommandView::Log(-1001i32, input)
        } else if l == "help"@ {
            CommandView::Help
        } else if l == "cleartable"@ {
            CommandView::ClearTable
        } else if l == "print"@ {
            CommandView::PrintTable
        } else if l == "status"@ {
            CommandView::Status
        } else if l == "exit"@ {
            CommandView::Exit
        } else {
            CommandView::Log(-1000i32, input)
        }
    } else if n == 2 {
        let c = lowercase_of(g[0]);
        let a = lowercase_of(g[1]);
        if c == "unset"@ {
            if a == "all"@ || a == "ws"@ {
                CommandView::UnsetAll
            } else if a == "db"@ {
                CommandView::UnsetDb
            } else if a == "tb"@ {
                CommandView::UnsetTb
            } else {
                CommandView::Log(-1011i32, input)
            }
        } else if c == "export"@ {
            if a == "json"@ {
                CommandView::Export(ExportKindView::Json)
            } else if a == "xml"@ {
                CommandView::Export(ExportKindView::Xml)
            } else if a == "csv"@ {
                CommandView::Export(ExportKindView::Csv)
            } else {
                CommandView::Export(ExportKindView::Other(g[1]))
            }
        } else if c == "save"@ {
            if a == "workspace"@ { CommandView::SaveWorkspace } else { CommandView::Log(-16i32, g[1]) }
        } else {
            CommandView::Nothing
        }
    } else if n == 3 {
        let c = lowercase_of(g[0]);
        let a = lowercase_of(g[1]);
        if c == "print"@ {
            if a == "orderby"@ {
                CommandView::Order { column: g[2], reverse: false }
            } else if a == "orderbyrev"@ {
                CommandView::Order { column: g[2], reverse: true }
            } else {
                CommandView::Nothing
            }
        } else if c == "insert"@ {
            if a == "record"@ { CommandView::InsertRecord(g[2]) } else { CommandView::Nothing }
        } else if c == "set"@ {
            let o = object_word(g[1]);
            if o == "workspace"@ {
                CommandView::SetWorkspace(g[2])
            } else if o == "database"@ {
                CommandView::SetDatabase(g[2])
            } else if o == "table"@ {
                CommandView::SetTable(g[2])
            } else {
                CommandView::Nothing
            }
        } else if c == "create"@ {
            let o = object_word(g[1]);
            if o == "workspace"@ {
                CommandView::CreateWorkspace(g[2])
            } else if o == "database"@ {
                CommandView::CreateDatabase(g[2])
            } else {
                CommandView::Log(-1000i32, g[1])
            }
        } else if c == "delete"@ {
            if a == "table"@ {
                CommandView::DeleteTable(g[2])
            } else if a == "database"@ {
                CommandView::DeleteDatabase(g[2])
            } else if a == "workspace"@ {
                CommandView::DeleteWorkspace(g[2])
            } else {
                CommandView::Log(-9999i32, Seq::empty())
            }
        } else {
            CommandView::Nothing
        }
    } else if n == 4 {
        let c = lowercase_of(g[0]);
        if c == "groupby"@ {
            CommandView::GroupBy {
                column: lowercase_of(g[1]),
                function: lowercase_of(g[2]),
                target: lowercase_of(g[3]),
            }
        } else if c == "table"@ {
            if g[1] == "from"@ && g[2] == "CSV"@ { CommandView::TableFromCsv(g[3]) } else { CommandView::Nothing }
        } else if c == "import"@ {
            if lowercase_of(g[1]) == "as"@ {
                if lowercase_of(g[2]) == "xml"@ { CommandView::ImportXml(g[3]) } else { CommandView::Log(-18i32, g[3]) }
            } else {
                CommandView::Log(-9999i32, Seq::empty())
            }
        } else {
            CommandView::Log(-9999i32, Seq::empty())
        }
    } else if n == 5 {
        if lowercase_of(g[0]) == "create"@ && lowercase_of(g[1]) == "table"@ {
            CommandView::CreateTable { name: g[2], columns: g[3], types: g[4] }
        } else {
            CommandView::Log(-1000i32, Seq::empty())
        }
    } else {
        CommandView::Log(-1000i32, Seq::empty())
    }
}

/// The second word of `set` and `create`, read as `object_word` reads it.
fn object_word_of(w: &String) -> (r: String)
    ensures
        r@ == object_word(w@),
{
    let mut l = lowercase(w.as_str());
    if text_is(l.as_str(), "db") {
        l = lowercase("database");
        proof {
            reveal_strlit("database");
        }
    } else if text_is(l.as_str(), "ws") {
        l = lowercase("workspace");
        proof {
            reveal_strlit("workspace");
        }
    }
    l
}

/// The command a line of input gives.
pub fn parse_command(input: &String) -> (c: Command)
    ensures
        c@ == command_of(input@),
{
    let g = split_text(input.as_str(), ' ');
    let ghost gv = texts(g@);
    proof {
        crate::text::lemma_split_nonempty(input@, ' ');
        assert(gv.len() == g@.len());
    }
    let n = g.len();
    assert(forall|k: int| 0 <= k < g@.len() ==> #[trigger] gv[k] == g@[k]@);
    if n == 1 {
        let l = lowercase(input.as_str());
        let ls = l.as_str();
        if text_is(ls, "") {
            Command::Log(-1001, input.clone())
        } else if text_is(ls, "help") {
            Command::Help
        } else if text_is(ls, "cleartable") {
            Command::ClearTable
        } else if text_is(ls, "print") {
            Command::PrintTable
        } else if text_is(ls, "status") {
            Command::Status
        } else if text_is(ls, "exit") {
            Command::Exit
        } else {
            Command::Log(-1000, input.clone())
        }
    } else if n == 2 {
        let c = lowercase((&g[0]).as_str());
        let a = lowercase((&g[1]).as_str());
        let cs = c.as_str();
        let as_ = a.as_str();
        if text_is(cs, "unset") {
            if text_is(as_, "all") || text_is(as_, "ws") {
                Command::UnsetAll
            } else if text_is(as_, "db") {
                Command::UnsetDb
            } else if text_is(as_, "tb") {
                Command::UnsetTb
            } else {
                Command::Log(-1011, input.clone())
            }
        } else if text_is(cs, "export") {
            if text_is(as_, "json") {
                Command::Export(ExportKind::Json)
            } else if text_is(as_, "xml") {
                Command::Export(ExportKind::Xml)
            } else if text_is(as_, "csv") {
                Command::Export(ExportKind::Csv)
            } else {
                Command::Export(ExportKind::Other((&g[1]).clone()))
            }
        } else if text_is(cs, "save") {
            if text_is(as_, "workspace") {
                Command::SaveWorkspace
            } else {
                Command::Log(-16, (&g[1]).clone())
            }
        } else {
            Command::Nothing
        }
    } else if n == 3 {
        let c = lowercase((&g[0]).as_str());
        let a = lowercase((&g[1]).as_str());
        let cs = c.as_str();
        let as_ = a.as_str();
        if text_is(cs, "print") {
            if text_is(as_, "orderby") {
                Command::Order { column: (&g[2]).clone(), reverse: false }
            } else if text_is(as_, "orderbyrev") {
                Command::Order { column: (&g[2]).clone(), reverse: true }
            } else {
                Command::Nothing
            }
        } else if text_is(cs, "insert") {
            if text_is(as_, "record") {
                Command::InsertRecord((&g[2]).clone())
            } else {
                Command::Nothing
            }
        } else if text_is(cs, "set") {
            let o = object_word_of((&g[1]));
            let os = o.as_str();
            if text_is(os, "workspace") {
                Command::SetWorkspace((&g[2]).clone())
            } else if text_is(os, "database") {
                Command::SetDatabase((&g[2]).clone())
            } else if text_is(os, "table") {
                Command::SetTable((&g[2]).clone())
            } else {
                Command::Nothing
            }
        } else if text_is(cs, "create") {
            let o = object_word_of((&g[1]));
            let os = o.as_str();
            if text_is(os, "workspace") {
                Command::CreateWorkspace((&g[2]).clone())
            } else if text_is(os, "database") {
                Command::CreateDatabase((&g[2]).clone())
            } else {
                Command::Log(-1000, (&g[1]).clone())
            }
        } else if text_is(cs, "delete") {
            if text_is(as_, "table") {
                Command::DeleteTable((&g[2]).clone())
            } else if text_is(as_, "database") {
                Command::DeleteDatabase((&g[2]).clone())
            } else if text_is(as_, "workspace") {
                Command::DeleteWorkspace((&g[2]).clone())
            } else {
                Command::Log(-9999, String::new())
            }
        } else {
            Command::Nothing
        }
    } else if n == 4 {
        let c = lowercase((&g[0]).as_str());
        let cs = c.as_str();
        if text_is(cs, "groupby") {
            Command::GroupBy {
                column: lowercase((&g[1]).as_str()),
                function: lowercase((&g[2]).as_str()),
                target: lowercase((&g[3]).as_str()),
            }
        } else if text_is(cs, "table") {
            if text_is((&g[1]).as_str(), "from") && text_is((&g[2]).as_str(), "CSV") {
                Command::TableFromCsv((&g[3]).clone())
            } else {
                Command::Nothing
            }
        } else if text_is(cs, "import") {
            let a = lowercase((&g[1]).as_str());
            if text_is(a.as_str(), "as") {
                let b = lowercase((&g[2]).as_str());
                if text_is(b.as_str(), "xml") {
                    Command::ImportXml((&g[3]).clone())
                } else {
                    Command::Log(-18, (&g[3]).clone())
                }
            } else {
                Command::Log(-9999, String::new())
            }
        } else {
            Command::Log(-9999, String::new())
        }
    } else if n == 5 {
        let c = lowercase((&g[0]).as_str());
        let a = lowercase((&g[1]).as_str());
        if text_is(c.as_str(), "create") && text_is(a.as_str(), "table") {
            Command::CreateTable { name: (&g[2]).clone(), columns: (&g[3]).clone(), types: (&g[4]).clone() }
        } else {
            Command::Log(-1000, String::new())
        }
    } else {
        Command::Log(-1000, String::new())
    }
}

} // verus!
