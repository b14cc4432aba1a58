//! Tables: their declared columns and types, and the cells stored by column.
use vstd::prelude::*;
use crate::output::{Piece, PieceView};
use crate::text::{int_string, int_text, string_of_char, texts};

verus! {

// ---------------------------------------------------------------------------
// Finding a name in a sequence of names
// ---------------------------------------------------------------------------

/// Whether `i` is the first position of `n` in `names`.
pub open spec fn is_first(names: Seq<Seq<char>>, n: Seq<char>, i: int) -> bool {
    &&& 0 <= i < names.len()
    &&& names[i] == n
    &&& forall|j: int| 0 <= j < i ==> names[j] != n
}

/// The first position of `n` in `names`, if it occurs.
pub open spec fn find(names: Seq<Seq<char>>, n: Seq<char>) -> Option<int> {
    if exists|i: int| is_first(names, n, i) {
        Some(choose|i: int| is_first(names, n, i))
    } else {
        None
    }
}

/// A first position is unique.
pub proof fn lemma_first_unique(names: Seq<Seq<char>>, n: Seq<char>, i: int, k: int)
    requires
        is_first(names, n, i),
        is_first(names, n, k),
    ensures
        i == k,
{
}

/// `find` gives the position where the name is first, and nothing where it
/// does not occur.
pub proof fn lemma_find(names: Seq<Seq<char>>, n: Seq<char>)
    ensures
        find(names, n) matches Some(i) ==> is_first(names, n, i),
        find(names, n) is None <==> forall|j: int| 0 <= j < names.len() ==> names[j] != n,
{
    if find(names, n) is None {
        assert forall|j: int| 0 <= j < names.len() implies names[j] != n by {
            if names[j] == n {
                let w = first_at_most(names, n, j);
                assert(is_first(names, n, w));
            }
        }
    }
}

proof fn first_at_most(names: Seq<Seq<char>>, n: Seq<char>, j: int) -> (w: int)
    requires
        0 <= j < names.len(),
        names[j] == n,
    ensures
        is_first(names, n, w),
    decreases j,
{
    if exists|k: int| 0 <= k < j && names[k] == n {
        let k = choose|k: int| 0 <= k < j && names[k] == n;
        first_at_most(names, n, k)
    } else {
        j
    }
}

/// Whether the names are pairwise distinct.
pub open spec fn distinct(names: Seq<Seq<char>>) -> bool {
    forall|i: int, j: int| 0 <= i < names.len() && 0 <= j < names.len() && i != j ==> names[i] != names[j]
}

/// The first position of `n` among the strings `v`.
pub fn find_text(v: &Vec<String>, n: &String) -> (r: Option<usize>)
    ensures
        r matches Some(i) ==> find(texts(v@), n@) == Some(i as int),
        r is None ==> find(texts(v@), n@) is None,
{
    let mut i: usize = 0;
    while i < v.len()
        invariant
            i <= v.len(),
            forall|j: int| 0 <= j < i ==> texts(v@)[j] != n@,
        decreases v.len() - i,
    {
        if v[i] == *n {
            proof {
                assert(is_first(texts(v@), n@, i as int));
                lemma_find(texts(v@), n@);
                let w = find(texts(v@), n@)->0;
                lemma_first_unique(texts(v@), n@, i as int, w);
            }
            return Some(i);
        }
        i = i + 1;
    }
    proof {
        lemma_find(texts(v@), n@);
    }
    None
}

// ---------------------------------------------------------------------------
// Cells
// ---------------------------------------------------------------------------

/// A stored value. Floating-point values are kept as the literal they
/// were read from.
#[derive(Debug)]
pub enum Cell {
    Text(String),
    Int(i32),
    Long(i64),
    Single(String),
    Double(String),
    Bool(bool),
    Char(char),
}

pub enum CellView {
    Text(Seq<char>),
    Int(i32),
    Long(i64),
    Single(Seq<char>),
    Double(Seq<char>),
    Bool(bool),
    Char(char),
}

impl View for Cell {
    type V = CellView;

    open spec fn view(&self) -> CellView {
        match self {
            Cell::Text(s) => CellView::Text(s@),
            Cell::Int(i) => CellView::Int(*i),
            Cell::Long(i) => CellView::Long(*i),
            Cell::Single(s) => CellView::Single(s@),
            Cell::Double(s) => CellView::Double(s@),
            Cell::Bool(b) => CellView::Bool(*b),
            Cell::Char(c) => CellView::Char(*c),
        }
    }
}

pub open spec fn cell_views(v: Seq<Cell>) -> Seq<CellView> {
    Seq::new(v.len(), |i: int| v[i]@)
}

/// The text shown for an opaque value.
pub open spec fn opaque_text() -> Seq<char> {
    "Any { .. }"@
}

/// The text of a boolean.
pub open spec fn bool_text(b: bool) -> Seq<char> {
    if b { "true"@ } else { "false"@ }
}

/// How a cell is shown. Where `wide` holds, an `f64` is shown and an `f32`
/// is opaque; otherwise an `f32` is shown and an `f64` is opaque. An `i64`
/// is always opaque.
pub open spec fn shown_as(c: CellView, wide: bool) -> PieceView {
    match c {
        CellView::Text(s) => PieceView::Text(s),
        CellView::Int(i) => PieceView::Text(int_text(i as int)),
        CellView::Long(_) => PieceView::Text(opaque_text()),
        CellView::Single(s) => if wide { PieceView::Text(opaque_text()) } else { PieceView::Single(s) },
        CellView::Double(s) => if wide { PieceView::Double(s) } else { PieceView::Text(opaque_text()) },
        CellView::Bool(b) => PieceView::Text(bool_text(b)),
        CellView::Char(c) => PieceView::Text(seq![c]),
    }
}

/// The text of a boolean.
pub fn bool_string(b: bool) -> (s: String)
    ensures
        s@ == bool_text(b),
{
    if b { String::from_str("true") } else { String::from_str("false") }
}

impl Cell {
    /// How the cell is shown (see `shown_as`).
    pub fn show(&self, wide: bool) -> (p: Piece)
        ensures
            p@ == shown_as(self@, wide),
    {
        match self {
            Cell::Text(s) => Piece::Text(s.clone()),
            Cell::Int(i) => Piece::Text(int_string(*i as i64)),
            Cell::Long(_) => Piece::Text(String::from_str("Any { .. }")),
            Cell::Single(s) => if wide {
                Piece::Text(String::from_str("Any { .. }"))
            } else {
                Piece::Single(s.clone())
            },
            Cell::Double(s) => if wide {
                Piece::Double(s.clone())
            } else {
                Piece::Text(String::from_str("Any { .. }"))
            },
            Cell::Bool(b) => Piece::Text(bool_string(*b)),
            Cell::Char(c) => Piece::Text(string_of_char(*c)),
        }
    }

    /// A copy of the cell.
    pub fn duplicate(&self) -> (c: Cell)
        ensures
            c@ == self@,
    {
        match self {
            Cell::Text(s) => Cell::Text(s.clone()),
            Cell::Int(i) => Cell::Int(*i),
            Cell::Long(i) => Cell::Long(*i),
            Cell::Single(s) => Cell::Single(s.clone()),
            Cell::Double(s) => Cell::Double(s.clone()),
            Cell::Bool(b) => Cell::Bool(*b),
            Cell::Char(c) => Cell::Char(*c),
        }
    }
}

// ---------------------------------------------------------------------------
// Tables
// ---------------------------------------------------------------------------

/// A relation to a column of another table. No command creates one.
#[derive(Debug)]
pub struct Relation {
    table_name: String,
    col_name: String,
}

/// The values stored under one column name.
#[derive(Debug)]
pub struct Column {
    pub name: String,
    pub values: Vec<Cell>,
}

pub struct ColumnView {
    pub name: Seq<char>,
    pub values: Seq<CellView>,
}

impl View for Column {
    type V = ColumnView;

    open spec fn view(&self) -> ColumnView {
        ColumnView { name: self.name@, values: cell_views(self.values@) }
    }
}

pub open spec fn column_views(v: Seq<Column>) -> Seq<ColumnView> {
    Seq::new(v.len(), |i: int| v[i]@)
}

pub open spec fn column_names(v: Seq<ColumnView>) -> Seq<Seq<char>> {
    Seq::new(v.len(), |i: int| v[i].name)
}

/// A table: its name, the declared type (`model`) and name (`order`) of
/// each column, the stored cells by column name, and the number of rows.
#[derive(Debug)]
pub struct Table {
    name: String,
    model: Vec<String>,
    order: Vec<String>,
    cells: Vec<Column>,
    rows: i32,
    relations: Vec<Relation>,
}

pub struct TableView {
    pub name: Seq<char>,
    pub model: Seq<Seq<char>>,
    pub order: Seq<Seq<char>>,
    pub columns: Seq<ColumnView>,
    pub rows: i32,
    pub relations: nat,
}

impl View for Table {
    type V = TableView;

    closed spec fn view(&self) -> TableView {
        TableView {
            name: self.name@,
            model: texts(self.model@),
            order: texts(self.order@),
            columns: column_views(self.cells@),
            rows: self.rows,
            relations: self.relations@.len(),
        }
    }
}

pub open spec fn table_views(v: Seq<Table>) -> Seq<TableView> {
    Seq::new(v.len(), |i: int| v[i]@)
}

pub open spec fn table_names(v: Seq<TableView>) -> Seq<Seq<char>> {
    Seq::new(v.len(), |i: int| v[i].name)
}

impl TableView {
    /// Every column name is stored once.
    pub open spec fn wf(self) -> bool {
        distinct(column_names(self.columns))
    }

    /// The column stored under `n`, if any.
    pub open spec fn column(self, n: Seq<char>) -> Option<ColumnView> {
        match find(column_names(self.columns), n) {
            Some(i) => Some(self.columns[i]),
            None => None,
        }
    }

    /// The table with the column `n` stored empty: in place where it is
    /// stored, else at the end.
    pub open spec fn with_empty_column(self, n: Seq<char>) -> TableView {
        let empty = ColumnView { name: n, values: Seq::empty() };
        TableView {
            columns: match find(column_names(self.columns), n) {
                Some(i) => self.columns.update(i, empty),
                None => self.columns.push(empty),
            },
            ..self
        }
    }
}

impl TableView {
    /// The table with `c` appended to the column `n`, the column stored
    /// anew at the end where it is not stored yet.
    pub open spec fn with_value(self, n: Seq<char>, c: CellView) -> TableView {
        match find(column_names(self.columns), n) {
            Some(i) => TableView {
                columns: self.columns.update(
                    i,
                    ColumnView { values: self.columns[i].values.push(c), ..self.columns[i] },
                ),
                ..self
            },
            None => TableView {
                columns: self.columns.push(ColumnView { name: n, values: seq![c] }),
                ..self
            },
        }
    }
}

/// A table with no rows and no stored cells.
pub open spec fn empty_table(name: Seq<char>, model: Seq<Seq<char>>, order: Seq<Seq<char>>) -> TableView {
    TableView { name, model, order, columns: Seq::empty(), rows: 0, relations: 0 }
}

impl Table {
    /// A table with no rows and no stored cells.
    pub fn new(name: String, model: Vec<String>, order: Vec<String>) -> (t: Table)
        ensures
            t@ == empty_table(name@, texts(model@), texts(order@)),
            t@.wf(),
    {
        let t = Table { name, model, order, cells: Vec::new(), rows: 0, relations: Vec::new() };
        assert(column_views(t.cells@) =~= Seq::<ColumnView>::empty());
        t
    }

    pub fn name(&self) -> (r: &String)
        ensures
            r@ == self@.name,
    {
        &self.name
    }

    pub fn model(&self) -> (r: &Vec<String>)
        ensures
            texts(r@) == self@.model,
    {
        &self.model
    }

    pub fn order(&self) -> (r: &Vec<String>)
        ensures
            texts(r@) == self@.order,
    {
        &self.order
    }

    pub fn rows(&self) -> (r: i32)
        ensures
            r == self@.rows,
    {
        self.rows
    }

    pub fn columns(&self) -> (r: &Vec<Column>)
        ensures
            column_views(r@) == self@.columns,
    {
        &self.cells
    }

    /// The position of the column stored under `n`.
    pub fn find_column(&self, n: &String) -> (r: Option<usize>)
        ensures
            r matches Some(i) ==> find(column_names(self@.columns), n@) == Some(i as int),
            r is None ==> find(column_names(self@.columns), n@) is None,
    {
        let mut i: usize = 0;
        while i < self.cells.len()
            invariant
                i <= self.cells.len(),
                forall|j: int| 0 <= j < i ==> column_names(self@.columns)[j] != n@,
            decreases self.cells.len() - i,
        {
            if self.cells[i].name == *n {
                proof {
                    let names = column_names(self@.columns);
                    assert(is_first(names, n@, i as int));
                    lemma_find(names, n@);
                    lemma_first_unique(names, n@, i as int, find(names, n@)->0);
                }
                return Some(i);
            }
            i = i + 1;
        }
        proof {
            lemma_find(column_names(self@.columns), n@);
        }
        None
    }

    /// Stores the column `n` empty, in place or at the end.
    pub fn put_empty_column(&mut self, n: String)
        requires
            old(self)@.wf(),
        ensures
            final(self)@ == old(self)@.with_empty_column(n@),
            final(self)@.wf(),
    {
        let ghost old_cols = self@.columns;
        let pos = self.find_column(&n);
        proof {
            lemma_find(column_names(old_cols), n@);
        }
        match pos {
            Some(i) => {
                self.cells.set(i, Column { name: n, values: Vec::new() });
            },
            None => {
                self.cells.push(Column { name: n, values: Vec::new() });
            },
        }
        proof {
            let e = ColumnView { name: n@, values: Seq::empty() };
            assert(cell_views(Seq::<Cell>::empty()) =~= Seq::<CellView>::empty());
            match pos {
                Some(i) => {
                    assert(column_views(self.cells@) =~= old_cols.update(i as int, e));
                    assert(column_names(self@.columns) =~= column_names(old_cols).update(i as int, n@));
                },
                None => {
                    assert(column_views(self.cells@) =~= old_cols.push(e));
                    assert(column_names(self@.columns) =~= column_names(old_cols).push(n@));
                },
            }
        }
    }

    /// Appends `c` to the column at position `i`.
    pub fn push_cell(&mut self, i: usize, c: Cell)
        requires
            i < old(self)@.columns.len(),
            old(self)@.wf(),
        ensures
            final(self)@ == (TableView {
                columns: old(self)@.columns.update(
                    i as int,
                    ColumnView {
                        values: old(self)@.columns[i as int].values.push(c@),
                        ..old(self)@.columns[i as int]
                    },
                ),
                ..old(self)@
            }),
            final(self)@.wf(),
    {
        let ghost old_cols = self@.columns;
        let mut col = Column { name: String::new(), values: Vec::new() };
        std::mem::swap(&mut col, &mut self.cells[i]);
        let ghost v0 = col.values@;
        col.values.push(c);
        assert(cell_views(col.values@) =~= cell_views(v0).push(c@));
        self.cells.set(i, col);
        assert(column_views(self.cells@) =~= old_cols.update(
            i as int,
            ColumnView { values: old_cols[i as int].values.push(c@), ..old_cols[i as int] },
        ));
        assert(column_names(self@.columns) =~= column_names(old_cols));
    }

    /// Appends `c` to the column `n`, storing the column anew at the end
    /// where it is not stored yet.
    pub fn append_value(&mut self, n: &String, c: Cell)
        requires
            old(self)@.wf(),
        ensures
            final(self)@ == old(self)@.with_value(n@, c@),
            final(self)@.wf(),
    {
        let ghost t0 = self@;
        let ghost cv = c@;
        proof {
            lemma_find(column_names(t0.columns), n@);
        }
        match self.find_column(n) {
            Some(i) => {
                self.push_cell(i, c);
            },
            None => {
                let mut values: Vec<Cell> = Vec::new();
                values.push(c);
                self.cells.push(Column { name: n.clone(), values });
                proof {
                    assert(cell_views(values@) =~= seq![cv]);
                    assert(column_views(self.cells@) =~= t0.columns.push(
                        ColumnView { name: n@, values: seq![cv] },
                    ));
                    assert(column_names(self@.columns) =~= column_names(t0.columns).push(n@));
                }
            },
        }
    }

    /// Forgets every stored cell and sets the row count to zero.
    pub fn clear(&mut self)
        ensures
            final(self)@ == (TableView { columns: Seq::empty(), rows: 0, ..old(self)@ }),
            final(self)@.wf(),
    {
        self.cells = Vec::new();
        self.rows = 0;
        assert(column_views(self.cells@) =~= Seq::<ColumnView>::empty());
    }

    /// Counts one more row.
    pub fn count_row(&mut self)
        requires
            old(self)@.rows < i32::MAX,
        ensures
            final(self)@ == (TableView { rows: (old(self)@.rows + 1) as i32, ..old(self)@ }),
    {
        self.rows = self.rows + 1;
    }

    /// Sets the row count.
    pub fn set_rows(&mut self, rows: i32)
        ensures
            final(self)@ == (TableView { rows, ..old(self)@ }),
    {
        self.rows = rows;
    }
}

} // verus!
