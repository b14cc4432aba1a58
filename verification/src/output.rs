//! What the store hands to the terminal or the file system: pieces of text,
//! lines, notices, and the requests for work that only the caller can do.
use vstd::prelude::*;
use crate::notice::{Notice, NoticeView};

verus! {

/// A piece of text to show. Floating-point values are carried as the
/// literal they were read from; the caller renders them.
pub enum Piece {
    /// Text shown as it is.
    Text(String),
    /// The `f32` read from this literal, shown with `Display`.
    Single(String),
    /// The `f64` read from this literal, shown with `Display`.
    Double(String),
    /// The `f64` read from this literal, shown with `Debug`.
    DoubleDebug(String),
}

pub enum PieceView {
    Text(Seq<char>),
    Single(Seq<char>),
    Double(Seq<char>),
    DoubleDebug(Seq<char>),
}

impl View for Piece {
    type V = PieceView;

    open spec fn view(&self) -> PieceView {
        match self {
            Piece::Text(s) => PieceView::Text(s@),
            Piece::Single(s) => PieceView::Single(s@),
            Piece::Double(s) => PieceView::Double(s@),
            Piece::DoubleDebug(s) => PieceView::DoubleDebug(s@),
        }
    }
}

pub open spec fn piece_views(v: Seq<Piece>) -> Seq<PieceView> {
    Seq::new(v.len(), |i: int| v[i]@)
}

/// A line printed at the end of a command or in the middle of one.
pub enum Output {
    /// An empty line.
    Blank,
    /// A notice of a logger.
    Notice(Notice),
    /// The pieces, then the end of the line.
    Line(Vec<Piece>),
    /// `Tables of <label> => <names as a list> `, the label shown on the
    /// background colour `shade`.
    Tables { label: String, shade: (u8, u8, u8), names: Vec<String> },
    /// `For group <group>: AVG = <mean>`, the mean of the `f64` values read
    /// from `values`, a value that does not read as one counting as zero.
    Average { group: String, values: Vec<String> },
}

pub enum OutputView {
    Blank,
    Notice(NoticeView),
    Line(Seq<PieceView>),
    Tables { label: Seq<char>, shade: (u8, u8, u8), names: Seq<Seq<char>> },
    Average { group: Seq<char>, values: Seq<Seq<char>> },
}

impl View for Output {
    type V = OutputView;

    open spec fn view(&self) -> OutputView {
        match self {
            Output::Blank => OutputView::Blank,
            Output::Notice(n) => OutputView::Notice(n@),
            Output::Line(p) => OutputView::Line(piece_views(p@)),
            Output::Tables { label, shade, names } => OutputView::Tables {
                label: label@,
                shade: *shade,
                names: crate::text::texts(names@),
            },
            Output::Average { group, values } => OutputView::Average {
                group: group@,
                values: crate::text::texts(values@),
            },
        }
    }
}

pub open spec fn output_views(v: Seq<Output>) -> Seq<OutputView> {
    Seq::new(v.len(), |i: int| v[i]@)
}

/// A line of one piece of plain text.
pub open spec fn text_line(s: Seq<char>) -> OutputView {
    OutputView::Line(seq![PieceView::Text(s)])
}

/// A line of one piece of plain text.
pub fn line_of(s: String) -> (o: Output)
    ensures
        o@ == text_line(s@),
{
    let mut v: Vec<Piece> = Vec::new();
    v.push(Piece::Text(s));
    let o = Output::Line(v);
    assert(piece_views(v@) =~= seq![PieceView::Text(s@)]) by {
        assert(v@.len() == 1);
    }
    o
}

/// Appends the outputs `more` to `out`.
pub fn append_outputs(out: &mut Vec<Output>, more: Vec<Output>)
    ensures
        output_views(final(out)@) == output_views(old(out)@) + output_views(more@),
{
    let mut more = more;
    let ghost o0 = output_views(out@);
    let ghost m0 = output_views(more@);
    out.append(&mut more);
    assert(output_views(out@) =~= o0 + m0);
}

/// Appends the notices `notices` to `out`, each as an output.
pub fn append_notices(out: &mut Vec<Output>, notices: Vec<Notice>)
    ensures
        output_views(final(out)@) == output_views(old(out)@) + notices@.map_values(
            |n: Notice| OutputView::Notice(n@),
        ),
{
    let ghost o0 = output_views(out@);
    let ghost ns = notices@;
    for n in it: notices
        invariant
            it.seq() == ns,
            output_views(out@) == o0 + ns.take(it.index() as int).map_values(
                |n: Notice| OutputView::Notice(n@),
            ),
    {
        let ghost before = output_views(out@);
        let ghost k = it.index();
        out.push(Output::Notice(n));
        proof {
            assert(ns.take(k + 1) =~= ns.take(k as int).push(n));
            assert(output_views(out@) =~= before.push(OutputView::Notice(n@)));
            assert(ns.take(k as int).push(n).map_values(|n: Notice| OutputView::Notice(n@))
                =~= ns.take(k as int).map_values(|n: Notice| OutputView::Notice(n@)).push(OutputView::Notice(n@)));
        }
    }
    assert(ns.take(ns.len() as int) =~= ns);
}

/// What the caller is asked to do after a command's outputs are printed.
pub enum Request {
    /// Read the next command.
    Continue,
    /// End the session.
    Exit,
    /// Stop the program with this message, as the command cannot go on.
    Halt(String),
    /// Write the pieces, rendered and joined, to the file at `path`.
    WriteFile { path: String, data: Vec<Piece> },
    /// Read the CSV file at `path` and hand its lines back.
    ReadCsv { path: String },
    /// Read the XML export at `path` and hand its text back.
    ReadXml { path: String, file: String },
    /// Render the keys and hand them back to order the rows of the active
    /// table by the column `column`.
    Order { column: String, keys: Vec<Piece>, reverse: bool },
    /// Render the group keys and the values and hand them back to apply
    /// `function` to the column `target` for each group.
    Group { function: String, keys: Vec<Piece>, values: Vec<Piece> },
}

pub enum RequestView {
    Continue,
    Exit,
    Halt(Seq<char>),
    WriteFile { path: Seq<char>, data: Seq<PieceView> },
    ReadCsv { path: Seq<char> },
    ReadXml { path: Seq<char>, file: Seq<char> },
    Order { column: Seq<char>, keys: Seq<PieceView>, reverse: bool },
    Group { function: Seq<char>, keys: Seq<PieceView>, values: Seq<PieceView> },
}

impl View for Request {
    type V = RequestView;

    open spec fn view(&self) -> RequestView {
        match self {
            Request::Continue => RequestView::Continue,
            Request::Exit => RequestView::Exit,
            Request::Halt(s) => RequestView::Halt(s@),
            Request::WriteFile { path, data } => RequestView::WriteFile {
                path: path@,
                data: piece_views(data@),
            },
            Request::ReadCsv { path } => RequestView::ReadCsv { path: path@ },
            Request::ReadXml { path, file } => RequestView::ReadXml { path: path@, file: file@ },
            Request::Order { column, keys, reverse } => RequestView::Order {
                column: column@,
                keys: piece_views(keys@),
                reverse: *reverse,
            },
            Request::Group { function, keys, values } => RequestView::Group {
                function: function@,
                keys: piece_views(keys@),
                values: piece_views(values@),
            },
        }
    }
}

/// The outputs of a command and what the caller must do next.
pub struct Reply {
    pub outputs: Vec<Output>,
    pub request: Request,
}

pub struct ReplyView {
    pub outputs: Seq<OutputView>,
    pub request: RequestView,
}

impl View for Reply {
    type V = ReplyView;

    open spec fn view(&self) -> ReplyView {
        ReplyView { outputs: output_views(self.outputs@), request: self.request@ }
    }
}

} // verus!
