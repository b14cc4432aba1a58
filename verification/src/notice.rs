//! Status codes, the notices they are shown as, and the logger that keeps
//! the codes of a session or a workspace.
use vstd::prelude::*;
use crate::text::{int_string, int_text, joined};

verus! {

/// The background a notice's label is shown on.
#[derive(Clone, Copy, PartialEq, Eq, Structural, Debug)]
pub enum Tone {
    /// Red: a missing database.
    Red,
    /// Bright yellow: every other documented code.
    Yellow,
    /// Blue: a code with no documented meaning.
    Blue,
}

/// A notice as it is shown: `label code_text| before subject after`, the
/// subject highlighted; a notice without subject shows `label code_text| before`.
#[derive(Debug)]
pub struct Notice {
    pub tone: Tone,
    pub label: String,
    pub code_text: String,
    pub before: String,
    pub subject: Option<String>,
    pub after: String,
}

/// The abstract content of a notice.
pub struct NoticeView {
    pub tone: Tone,
    pub label: Seq<char>,
    pub code_text: Seq<char>,
    pub before: Seq<char>,
    pub subject: Option<Seq<char>>,
    pub after: Seq<char>,
}

impl View for Notice {
    type V = NoticeView;

    open spec fn view(&self) -> NoticeView {
        NoticeView {
            tone: self.tone,
            label: self.label@,
            code_text: self.code_text@,
            before: self.before@,
            subject: match self.subject {
                Some(s) => Some(s@),
                None => None,
            },
            after: self.after@,
        }
    }
}

/// How a code is worded: its tone, its label, the text before the subject,
/// whether the subject is shown, and the text after it.
pub struct Wording {
    pub tone: Tone,
    pub label: Seq<char>,
    pub before: Seq<char>,
    pub shows_subject: bool,
    pub after: Seq<char>,
}

pub open spec fn worded(tone: Tone, label: &str, before: &str, shows_subject: bool, after: &str) -> Wording {
    Wording { tone, label: label@, before: before@, shows_subject, after: after@ }
}

/// The wording of each documented code, and of every other code.
pub open spec fn wording(code: i32) -> Wording {
    if code == -1 {
        worded(Tone::Red, " Error Code ", "Database named", true, "does not exist in the current workplace!")
    } else if code == -2 {
        worded(Tone::Yellow, " Warning Code ", "Database named", true, "already exists in workspace!")
    } else if code == -3 {
        worded(Tone::Yellow, " Warning Code ", "Table named", true, "already exists in this database!")
    } else if code == -4 {
        worded(Tone::Yellow, " Warning Code ", "Cannot create database ", true, "as no workspace is set in session!")
    } else if code == -5 {
        worded(Tone::Yellow, " Error Code ", "Cannot create table ", true, "as there are more columns than their assigned datatypes!")
    } else if code == -6 || code == -11 {
        worded(Tone::Yellow, " Error Code ", "Cannot create table ", true, "as there are more assigned datatypes than their columns!")
    } else if code == -7 {
        worded(Tone::Yellow, " Error Code ", "Cannot create table as", true, "is an invalid datatype!")
    } else if code == -8 {
        worded(Tone::Yellow, " Error Code ", "Cannot create table ", true, "as there are invalid datatypes declared!")
    } else if code == -9 {
        worded(Tone::Yellow, " Error Code ", "Cannot create table", true, "as there is no database set in the current session!")
    } else if code == -10 {
        worded(Tone::Yellow, " Error Code ", "Cannot create table", true, "as there is no workspace set in the current session!")
    } else if code == -12 {
        worded(Tone::Yellow, " Error Code ", "No workspace set in this session!", false, "")
    } else if code == -13 {
        worded(Tone::Yellow, " Error Code ", "No database set in this session!", false, "")
    } else if code == -14 {
        worded(Tone::Yellow, " Error Code ", "No table set in this session!", false, "")
    } else if code == -15 {
        worded(Tone::Yellow, " Error Code ", "Export type", true, "is not supportd by dataBased!")
    } else if code == -16 {
        worded(Tone::Yellow, " Error Code ", "Object Type:", true, "cannot be saved by dataBased!")
    } else if code == -17 {
        worded(Tone::Yellow, " Error Code ", "Cannot Delete Table:", true, "as it does not exist!")
    } else if code == -18 {
        worded(Tone::Yellow, " Error Code ", "Cannot Import from Type:", true, "as it is invalid!")
    } else if code == -1000 {
        worded(Tone::Yellow, " Warning Code ", "Command", true, "does not exist!")
    } else if code == -1001 {
        worded(Tone::Yellow, " Warning Code ", "No Command typed.", false, "")
    } else if code == -1002 {
        worded(Tone::Yellow, " Warning Code ", "Workspace", true, "already exists in current session!")
    } else if code == -1003 {
        worded(Tone::Yellow, " Warning Code ", "Workspace", true, "does not exist in current session!")
    } else if code == -1004 {
        worded(Tone::Yellow, " Warning Code ", "Database", true, "does not exist in current session!")
    } else if code == -1005 {
        worded(Tone::Yellow, " Warning Code ", "Table", true, "does not exist in current session!")
    } else if code == -1007 {
        worded(Tone::Yellow, " Warning Code ", "Amount of fields in", true, "do not match the input fields")
    } else if code == -1008 {
        worded(Tone::Yellow, " Warning Code ", "There is", true, "no table selected in this session!")
    } else if code == -1010 {
        worded(Tone::Yellow, " Warning Code ", "There are", true, "zero workspaces in this session!")
    } else {
        worded(Tone::Blue, " Undocumented Code ", "No definition found for this error!", false, "")
    }
}

/// Whether a logger that shows positive codes or not (`positives`) shows `code`.
pub open spec fn is_shown(code: i32, positives: bool) -> bool {
    positives || code <= 0
}

/// The notice that shows `code` logged with subject `subject`.
pub open spec fn notice_for(code: i32, subject: Seq<char>) -> NoticeView {
    let w = wording(code);
    NoticeView {
        tone: w.tone,
        label: w.label,
        code_text: int_text(code as int) + " "@,
        before: w.before,
        subject: if w.shows_subject { Some(subject) } else { None },
        after: w.after,
    }
}

fn wording_parts(code: i32) -> (r: (Tone, &'static str, &'static str, bool, &'static str))
    ensures
        worded(r.0, r.1, r.2, r.3, r.4) == wording(code),
{
    if code == -1 {
        (Tone::Red, " Error Code ", "Database named", true, "does not exist in the current workplace!")
    } else if code == -2 {
        (Tone::Yellow, " Warning Code ", "Database named", true, "already exists in workspace!")
    } else if code == -3 {
        (Tone::Yellow, " Warning Code ", "Table named", true, "already exists in this database!")
    } else if code == -4 {
        (Tone::Yellow, " Warning Code ", "Cannot create database ", true, "as no workspace is set in session!")
    } else if code == -5 {
        (Tone::Yellow, " Error Code ", "Cannot create table ", true, "as there are more columns than their assigned datatypes!")
    } else if code == -6 || code == -11 {
        (Tone::Yellow, " Error Code ", "Cannot create table ", true, "as there are more assigned datatypes than their columns!")
    } else if code == -7 {
        (Tone::Yellow, " Error Code ", "Cannot create table as", true, "is an invalid datatype!")
    } else if code == -8 {
        (Tone::Yellow, " Error Code ", "Cannot create table ", true, "as there are invalid datatypes declared!")
    } else if code == -9 {
        (Tone::Yellow, " Error Code ", "Cannot create table", true, "as there is no database set in the current session!")
    } else if code == -10 {
        (Tone::Yellow, " Error Code ", "Cannot create table", true, "as there is no workspace set in the current session!")
    } else if code == -12 {
        (Tone::Yellow, " Error Code ", "No workspace set in this session!", false, "")
    } else if code == -13 {
        (Tone::Yellow, " Error Code ", "No database set in this session!", false, "")
    } else if code == -14 {
        (Tone::Yellow, " Error Code ", "No table set in this session!", false, "")
    } else if code == -15 {
        (Tone::Yellow, " Error Code ", "Export type", true, "is not supportd by dataBased!")
    } else if code == -16 {
        (Tone::Yellow, " Error Code ", "Object Type:", true, "cannot be saved by dataBased!")
    } else if code == -17 {
        (Tone::Yellow, " Error Code ", "Cannot Delete Table:", true, "as it does not exist!")
    } else if code == -18 {
        (Tone::Yellow, " Error Code ", "Cannot Import from Type:", true, "as it is invalid!")
    } else if code == -1000 {
        (Tone::Yellow, " Warning Code ", "Command", true, "does not exist!")
    } else if code == -1001 {
        (Tone::Yellow, " Warning Code ", "No Command typed.", false, "")
    } else if code == -1002 {
        (Tone::Yellow, " Warning Code ", "Workspace", true, "already exists in current session!")
    } else if code == -1003 {
        (Tone::Yellow, " Warning Code ", "Workspace", true, "does not exist in current session!")
    } else if code == -1004 {
        (Tone::Yellow, " Warning Code ", "Database", true, "does not exist in current session!")
    } else if code == -1005 {
        (Tone::Yellow, " Warning Code ", "Table", true, "does not exist in current session!")
    } else if code == -1007 {
        (Tone::Yellow, " Warning Code ", "Amount of fields in", true, "do not match the input fields")
    } else if code == -1008 {
        (Tone::Yellow, " Warning Code ", "There is", true, "no table selected in this session!")
    } else if code == -1010 {
        (Tone::Yellow, " Warning Code ", "There are", true, "zero workspaces in this session!")
    } else {
        (Tone::Blue, " Undocumented Code ", "No definition found for this error!", false, "")
    }
}

/// The notice that shows `code` with subject `subject`.
pub fn make_notice(code: i32, subject: String) -> (n: Notice)
    ensures
        n@ == notice_for(code, subject@),
{
    let (tone, label, before, shows, after) = wording_parts(code);
    let num = int_string(code as i64);
    let code_text = joined(&num, " ");
    Notice {
        tone,
        label: String::from_str(label),
        code_text,
        before: String::from_str(before),
        subject: if shows { Some(subject) } else { None },
        after: String::from_str(after),
    }
}

// ---------------------------------------------------------------------------
// The logger
// ---------------------------------------------------------------------------

/// Keeps every code logged, in order, whether positive codes are shown, and
/// the notices shown since they were last taken.
#[derive(Debug)]
pub struct Logger {
    code: Vec<i32>,
    positives: bool,
    shown: Vec<Notice>,
}

/// The abstract state of a logger.
pub struct LoggerView {
    pub codes: Seq<i32>,
    pub positives: bool,
    pub shown: Seq<NoticeView>,
}

impl View for Logger {
    type V = LoggerView;

    closed spec fn view(&self) -> LoggerView {
        LoggerView {
            codes: self.code@,
            positives: self.positives,
            shown: self.shown@.map_values(|n: Notice| n@),
        }
    }
}

/// The logger with the setting for positive codes switched.
pub open spec fn toggled(l: LoggerView) -> LoggerView {
    LoggerView { positives: !l.positives, ..l }
}

/// The logger with every code forgotten.
pub open spec fn cleared(l: LoggerView) -> LoggerView {
    LoggerView { codes: Seq::empty(), ..l }
}

/// The logger after logging `code` with subject `subject`: the code is kept,
/// and shown where the logger shows it.
pub open spec fn after_update(l: LoggerView, code: i32, subject: Seq<char>) -> LoggerView {
    LoggerView {
        codes: l.codes.push(code),
        positives: l.positives,
        shown: if is_shown(code, l.positives) { l.shown.push(notice_for(code, subject)) } else { l.shown },
    }
}

/// A fresh logger: no codes, positive codes hidden, nothing shown.
pub open spec fn fresh_logger() -> LoggerView {
    LoggerView { codes: Seq::empty(), positives: false, shown: Seq::empty() }
}

/// A fresh logger.
#[allow(non_snake_case)]
pub fn init_Logger() -> (l: Logger)
    ensures
        l@ == fresh_logger(),
{
    let l = Logger { code: Vec::new(), positives: false, shown: Vec::new() };
    assert(l@.shown =~= Seq::<NoticeView>::empty());
    l
}

/// Does nothing.
pub fn looper() {
}

impl Logger {
    /// Forgets every code logged.
    pub fn reset(&mut self)
        ensures
            final(self)@ == cleared(old(self)@),
    {
        self.code = Vec::new();
    }

    /// The number of codes logged.
    pub fn reveal_count(&mut self) -> (n: usize)
        ensures
            n == old(self)@.codes.len(),
            final(self)@ == old(self)@,
    {
        self.code.clone().len()
    }

    /// Logs `x`, then shows it with subject `y` where the logger shows it.
    pub fn update(&mut self, x: i32, y: String)
        ensures
            final(self)@ == after_update(old(self)@, x, y@),
    {
        self.code.push(x);
        self.throw(y);
    }

    /// Shows the last code logged, with subject `y`, unless it is positive
    /// and positive codes are hidden.
    fn throw(&mut self, y: String)
        requires
            old(self)@.codes.len() > 0,
        ensures
            final(self)@.codes == old(self)@.codes,
            final(self)@.positives == old(self)@.positives,
            final(self)@.shown == if is_shown(old(self)@.codes.last(), old(self)@.positives) {
                old(self)@.shown.push(notice_for(old(self)@.codes.last(), y@))
            } else {
                old(self)@.shown
            },
    {
        let x = self.getLen();
        let error_code = self.code[x - 1];
        if !self.positives && error_code > 0 {
            return;
        }
        let n = make_notice(error_code, y);
        let ghost old_shown = self.shown@;
        self.shown.push(n);
        assert(self@.shown =~= old_shown.map_values(|n: Notice| n@).push(n@));
    }

    /// The number of codes logged.
    #[allow(non_snake_case)]
    fn getLen(&mut self) -> (n: usize)
        ensures
            n == old(self)@.codes.len(),
            final(self)@ == old(self)@,
    {
        self.code.len()
    }

    /// Switches between showing and hiding positive codes.
    pub fn toggle(&mut self)
        ensures
            final(self)@ == toggled(old(self)@),
    {
        self.positives = !self.positives;
    }

    /// Hands out the notices shown since they were last taken.
    pub fn take_notices(&mut self) -> (r: Vec<Notice>)
        ensures
            r@.map_values(|n: Notice| n@) == old(self)@.shown,
            final(self)@ == (LoggerView { shown: Seq::empty(), ..old(self)@ }),
    {
        let mut r: Vec<Notice> = Vec::new();
        std::mem::swap(&mut r, &mut self.shown);
        assert(self@.shown =~= Seq::<NoticeView>::empty());
        r
    }

    /// The codes logged, in order.
    pub fn codes(&self) -> (r: &Vec<i32>)
        ensures
            r@ == self@.codes,
    {
        &self.code
    }

    /// Whether positive codes are shown.
    pub fn shows_positives(&self) -> (r: bool)
        ensures
            r == self@.positives,
    {
        self.positives
    }
}

} // verus!
