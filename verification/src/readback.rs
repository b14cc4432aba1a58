//! An XML export read back: the text that `export xml` writes for a table
//! of integer columns, read by `import as xml`, gives the table again.
use vstd::prelude::*;
use crate::output::{OutputView, PieceView};
use crate::outside::lowercase_of;
use crate::table::{find, column_names, distinct, CellView, ColumnView, TableView};
use crate::laws::lemma_with_value_column;
use crate::exchange::{xml_import, with_empty_columns, xml_records, xml_cell, xml_fields, colon_list, export, export_head, export_tail, order_stored, row_bound, cell_export, cell_lead, cell_trail, order_columns, row_cells, row_close, row_open, rows_export, value_kind, Format, ValueKind};
use crate::text::int_text;
use crate::text::{replace_all, split_on, trim, trim_end, trim_start, is_space};

verus! {

// ---------------------------------------------------------------------------
// Splitting and replacing over concatenations
// ---------------------------------------------------------------------------

/// Splitting at a separator that joins two texts splits each of them.
pub proof fn lemma_split_join(x: Seq<char>, y: Seq<char>, sep: char)
    ensures
        split_on(x + seq![sep] + y, sep) == split_on(x, sep) + split_on(y, sep),
    decreases y.len(),
{
    let s = x + seq![sep] + y;
    crate::text::lemma_split_nonempty(x, sep);
    if y.len() == 0 {
        assert(s.drop_last() =~= x);
        assert(split_on(y, sep) =~= seq![Seq::<char>::empty()]);
        assert(split_on(s, sep) =~= split_on(x, sep) + split_on(y, sep));
    } else {
        lemma_split_join(x, y.drop_last(), sep);
        crate::text::lemma_split_nonempty(y.drop_last(), sep);
        assert(s.drop_last() =~= x + seq![sep] + y.drop_last());
        assert(s.last() == y.last());
        let a = split_on(x, sep);
        let b = split_on(y.drop_last(), sep);
        if y.last() == sep {
            assert((a + b).push(Seq::<char>::empty()) =~= a + b.push(Seq::<char>::empty()));
        } else {
            assert((a + b).update((a + b).len() - 1, (a + b).last().push(y.last()))
                =~= a + b.update(b.len() - 1, b.last().push(y.last())));
        }
    }
}

/// Whether the character `c` occurs in `s`.
pub open spec fn has_char(s: Seq<char>, c: char) -> bool {
    exists|i: int| 0 <= i < s.len() && s[i] == c
}

/// Replacing at the front of a text that starts with the pattern.
pub proof fn lemma_replace_front(pat: Seq<char>, x: Seq<char>, rep: Seq<char>)
    requires
        pat.len() > 0,
    ensures
        replace_all(pat + x, pat, rep) == rep + replace_all(x, pat, rep),
{
    let s = pat + x;
    assert(s.take(pat.len() as int) =~= pat);
    assert(s.skip(pat.len() as int) =~= x);
}

/// Replacing in a text whose first part cannot start the pattern leaves
/// that part as it is.
pub proof fn lemma_replace_skip(a: Seq<char>, b: Seq<char>, pat: Seq<char>, rep: Seq<char>)
    requires
        pat.len() > 0,
        !has_char(a, pat[0]),
    ensures
        replace_all(a + b, pat, rep) == a + replace_all(b, pat, rep),
    decreases a.len(),
{
    if a.len() == 0 {
        assert(a + b =~= b);
        assert(a + replace_all(b, pat, rep) =~= replace_all(b, pat, rep));
    } else {
        let s = a + b;
        assert(!has_char(a.skip(1), pat[0])) by {
            if has_char(a.skip(1), pat[0]) {
                let i = choose|i: int| 0 <= i < a.skip(1).len() && a.skip(1)[i] == pat[0];
                assert(a[i + 1] == pat[0]);
            }
        }
        lemma_replace_skip(a.skip(1), b, pat, rep);
        assert(s.skip(1) =~= a.skip(1) + b);
        assert(a[0] != pat[0]);
        if s.len() < pat.len() {
            assert(replace_all(b, pat, rep) == b);
            assert(replace_all(a.skip(1) + b, pat, rep) == a.skip(1) + b);
        } else {
            assert(s.take(pat.len() as int)[0] == a[0]);
            assert(s.take(pat.len() as int) != pat);
        }
        assert(seq![a[0]] + (a.skip(1) + replace_all(b, pat, rep)) =~= a + replace_all(b, pat, rep));
    }
}

/// Trimming a text that starts and ends with other characters than white
/// space leaves it as it is.
pub proof fn lemma_trim_keeps(s: Seq<char>)
    requires
        s.len() > 0,
        !is_space(s[0]),
        !is_space(s.last()),
    ensures
        trim(s) == s,
{
    assert(trim_start(s) == s);
}

// ---------------------------------------------------------------------------
// Lines ended by CR LF
// ---------------------------------------------------------------------------

/// The lines, each followed by `\r\n`.
pub open spec fn crlf_lines(ls: Seq<Seq<char>>) -> Seq<char>
    decreases ls.len(),
{
    if ls.len() == 0 {
        Seq::empty()
    } else {
        crlf_lines(ls.drop_last()) + ls.last() + "\r\n"@
    }
}

proof fn lemma_split_crlf(ls: Seq<Seq<char>>, w: Seq<char>)
    requires
        forall|i: int| 0 <= i < ls.len() ==> !has_char(#[trigger] ls[i], '\n'),
        !has_char(w, '\n'),
    ensures
        split_on(crlf_lines(ls) + w, '\n') == Seq::new(ls.len(), |i: int| ls[i] + "\r"@).push(w),
    decreases ls.len(),
{
    reveal_strlit("\r\n");
    reveal_strlit("\r");
    if ls.len() == 0 {
        assert(crlf_lines(ls) + w =~= w);
        assert forall|j: int| 0 <= j < w.len() implies w[j] != '\n' by {}
        crate::text::lemma_split_free(w, '\n');
        assert(Seq::new(ls.len(), |i: int| ls[i] + "\r"@).push(w) =~= seq![w]);
    } else {
        let l = ls.last();
        let x = l + "\r"@;
        assert(!has_char(x, '\n')) by {
            if has_char(x, '\n') {
                let j = choose|j: int| 0 <= j < x.len() && x[j] == '\n';
                if j < l.len() {
                    assert(l[j] == '\n');
                }
            }
        }
        let ls0 = ls.drop_last();
        assert forall|i: int| 0 <= i < ls0.len() implies !has_char(#[trigger] ls0[i], '\n') by {
            assert(ls0[i] == ls[i]);
        }
        lemma_split_crlf(ls0, x);
        assert(crlf_lines(ls) + w =~= (crlf_lines(ls0) + x) + seq!['\n'] + w);
        lemma_split_join(crlf_lines(ls0) + x, w, '\n');
        assert forall|j: int| 0 <= j < w.len() implies w[j] != '\n' by {}
        crate::text::lemma_split_free(w, '\n');
        assert(Seq::new(ls0.len(), |i: int| ls0[i] + "\r"@).push(x) + seq![w]
            =~= Seq::new(ls.len(), |i: int| ls[i] + "\r"@).push(w));
    }
}

/// The lines of text written as lines ended by `\r\n` and a last line
/// without an end are those lines.
pub proof fn lemma_lines_of_crlf(ls: Seq<Seq<char>>, last: Seq<char>)
    requires
        forall|i: int| 0 <= i < ls.len() ==> !has_char(#[trigger] ls[i], '\n'),
        !has_char(last, '\n'),
        last.len() > 0,
    ensures
        crate::text::lines_of(crlf_lines(ls) + last) == ls.push(last),
{
    reveal_strlit("\r");
    lemma_split_crlf(ls, last);
    let p = split_on(crlf_lines(ls) + last, '\n');
    assert forall|i: int| 0 <= i < ls.len() implies crate::text::strip_cr(#[trigger] p[i]) == ls[i] by {
        assert(p[i] == ls[i] + "\r"@);
        assert((ls[i] + "\r"@).drop_last() =~= ls[i]);
    }
    assert(crate::text::lines_of(crlf_lines(ls) + last) =~= ls.push(last));
}

// ---------------------------------------------------------------------------
// The text written for pieces
// ---------------------------------------------------------------------------

/// The text a piece is written as, for a piece of text.
pub open spec fn piece_text(p: PieceView) -> Seq<char> {
    match p {
        PieceView::Text(s) => s,
        PieceView::Single(s) => s,
        PieceView::Double(s) => s,
        PieceView::DoubleDebug(s) => s,
    }
}

/// The pieces written one after the other.
pub open spec fn written(ps: Seq<PieceView>) -> Seq<char>
    decreases ps.len(),
{
    if ps.len() == 0 {
        Seq::empty()
    } else {
        written(ps.drop_last()) + piece_text(ps.last())
    }
}

proof fn lemma_written_one(p: PieceView)
    ensures
        written(seq![p]) == piece_text(p),
{
    assert(seq![p].drop_last() =~= Seq::<PieceView>::empty());
    assert(written(Seq::<PieceView>::empty()) == Seq::<char>::empty());
    assert(Seq::<char>::empty() + piece_text(p) =~= piece_text(p));
}

proof fn lemma_written_concat(a: Seq<PieceView>, b: Seq<PieceView>)
    ensures
        written(a + b) == written(a) + written(b),
    decreases b.len(),
{
    if b.len() == 0 {
        assert(a + b =~= a);
        assert(written(a) + written(b) =~= written(a));
    } else {
        lemma_written_concat(a, b.drop_last());
        assert((a + b).drop_last() =~= a + b.drop_last());
        assert(written(a) + written(b.drop_last()) + piece_text(b.last()) =~= written(a) + written(b));
    }
}

// ---------------------------------------------------------------------------
// Names that survive the trip
// ---------------------------------------------------------------------------

/// A letter, a digit or `_`.
pub open spec fn plain(c: char) -> bool {
    ('a' <= c && c <= 'z') || ('A' <= c && c <= 'Z') || ('0' <= c && c <= '9') || c == '_'
}

/// Whether every character of `s` is plain.
pub open spec fn plain_text(s: Seq<char>) -> bool {
    forall|i: int| 0 <= i < s.len() ==> plain(#[trigger] s[i])
}

/// Whether every character of `s` is plain or one of `extra`.
pub open spec fn made_of(s: Seq<char>, extra: Seq<char>) -> bool {
    forall|i: int| 0 <= i < s.len() ==> plain(#[trigger] s[i]) || extra.contains(s[i])
}

proof fn lemma_made_of_concat(a: Seq<char>, b: Seq<char>, extra: Seq<char>)
    requires
        made_of(a, extra),
        made_of(b, extra),
    ensures
        made_of(a + b, extra),
{
    assert forall|i: int| 0 <= i < (a + b).len() implies plain(#[trigger] (a + b)[i]) || extra.contains((a + b)[i]) by {
        if i < a.len() {
            assert((a + b)[i] == a[i]);
        } else {
            assert((a + b)[i] == b[i - a.len()]);
        }
    }
}

proof fn lemma_made_of_lacks(s: Seq<char>, extra: Seq<char>, c: char)
    requires
        made_of(s, extra),
        !plain(c),
        !extra.contains(c),
    ensures
        !has_char(s, c),
{
    if has_char(s, c) {
        let i = choose|i: int| 0 <= i < s.len() && s[i] == c;
        assert(plain(s[i]) || extra.contains(s[i]));
    }
}

proof fn lemma_nat_text_digits(n: nat)
    ensures
        forall|i: int| 0 <= i < crate::text::nat_text(n).len() ==> plain(#[trigger] crate::text::nat_text(n)[i]),
        crate::text::nat_text(n).len() > 0,
    decreases n,
{
    if n >= 10 {
        lemma_nat_text_digits(n / 10);
    }
}

/// The decimal text of an integer is made of digits and `-`, and ends with
/// a digit.
proof fn lemma_int_text_chars(n: int)
    ensures
        made_of(crate::text::int_text(n), seq!['-']),
        crate::text::int_text(n).len() > 0,
        plain(crate::text::int_text(n).last()),
{
    let m: nat = if n < 0 { (-n) as nat } else { n as nat };
    lemma_nat_text_digits(m);
    let t = crate::text::int_text(n);
    if n < 0 {
        assert forall|i: int| 0 <= i < t.len() implies plain(#[trigger] t[i]) || seq!['-'].contains(t[i]) by {
            if i == 0 {
                assert(seq!['-'][0] == '-');
            } else {
                assert(t[i] == crate::text::nat_text(m)[i - 1]);
            }
        }
        assert(t.last() == crate::text::nat_text(m).last());
    }
}

// ---------------------------------------------------------------------------
// Lists joined by `:`
// ---------------------------------------------------------------------------

/// Splitting items each followed by `:`, then one more item, at `:` gives
/// the items.
proof fn lemma_split_colon_items(p: Seq<Seq<char>>, w: Seq<char>)
    requires
        forall|i: int| 0 <= i < p.len() ==> !has_char(#[trigger] p[i], ':'),
        !has_char(w, ':'),
    ensures
        split_on(crate::exchange::colon_items(p) + w, ':') == p.push(w),
    decreases p.len(),
{
    reveal_strlit(":");
    assert forall|j: int| 0 <= j < w.len() implies w[j] != ':' by {}
    crate::text::lemma_split_free(w, ':');
    if p.len() == 0 {
        assert(crate::exchange::colon_items(p) + w =~= w);
        assert(p.push(w) =~= seq![w]);
    } else {
        let p0 = p.drop_last();
        assert forall|i: int| 0 <= i < p0.len() implies !has_char(#[trigger] p0[i], ':') by {
            assert(p0[i] == p[i]);
        }
        lemma_split_colon_items(p0, p.last());
        assert(crate::exchange::colon_items(p) + w =~= (crate::exchange::colon_items(p0) + p.last()) + seq![':'] + w);
        lemma_split_join(crate::exchange::colon_items(p0) + p.last(), w, ':');
        assert(p0.push(p.last()) + seq![w] =~= p.push(w));
    }
}

proof fn lemma_colon_items_made_of(p: Seq<Seq<char>>)
    requires
        forall|i: int| 0 <= i < p.len() ==> plain_text(#[trigger] p[i]),
    ensures
        made_of(crate::exchange::colon_items(p), seq![':']),
    decreases p.len(),
{
    reveal_strlit(":");
    if p.len() > 0 {
        let p0 = p.drop_last();
        assert forall|i: int| 0 <= i < p0.len() implies plain_text(#[trigger] p0[i]) by {
            assert(p0[i] == p[i]);
        }
        lemma_colon_items_made_of(p0);
        assert(plain_text(p.last()));
        assert(made_of(p.last(), seq![':']));
        assert(made_of(":"@, seq![':'])) by {
            assert(":"@[0] == ':');
            assert(seq![':'].contains(':')) by { assert(seq![':'][0] == ':'); }
        }
        lemma_made_of_concat(crate::exchange::colon_items(p0), p.last(), seq![':']);
        lemma_made_of_concat(crate::exchange::colon_items(p0) + p.last(), ":"@, seq![':']);
    }
}

/// A header line of an XML export, `tag` then the items joined by `:` then
/// `/>`, reads back as the items.
proof fn lemma_header_reads_back(tag: Seq<char>, p: Seq<Seq<char>>)
    requires
        tag.len() > 2,
        tag[0] == '<',
        p.len() > 0,
        forall|i: int| 0 <= i < p.len() ==> plain_text(#[trigger] p[i]),
    ensures
        crate::exchange::xml_header(crate::exchange::colon_list(tag, p) + "/>"@, tag) == p,
        made_of(crate::exchange::colon_items(p).drop_last(), seq![':']),
        crate::exchange::colon_list(tag, p) == tag + crate::exchange::colon_items(p).drop_last(),
{
    reveal_strlit("/>");
    reveal_strlit(":");
    reveal_strlit("");
    let ci = crate::exchange::colon_items(p);
    let c = ci.drop_last();
    let p0 = p.drop_last();
    assert(ci =~= crate::exchange::colon_items(p0) + p.last() + ":"@);
    assert(c =~= crate::exchange::colon_items(p0) + p.last());
    assert(crate::exchange::colon_list(tag, p) =~= tag + c);
    lemma_colon_items_made_of(p);
    assert(made_of(c, seq![':'])) by {
        assert forall|i: int| 0 <= i < c.len() implies plain(#[trigger] c[i]) || seq![':'].contains(c[i]) by {
            assert(c[i] == ci[i]);
        }
    }
    assert(!seq![':'].contains('<')) by {
        if seq![':'].contains('<') {
            let k = choose|k: int| 0 <= k < 1 && seq![':'][k] == '<';
        }
    }
    assert(!seq![':'].contains('/')) by {
        if seq![':'].contains('/') {
            let k = choose|k: int| 0 <= k < 1 && seq![':'][k] == '/';
        }
    }
    lemma_made_of_lacks(c, seq![':'], '<');
    lemma_made_of_lacks(c, seq![':'], '/');
    let line = crate::exchange::colon_list(tag, p) + "/>"@;
    assert(line =~= tag + (c + "/>"@));
    lemma_replace_front(tag, c + "/>"@, Seq::empty());
    lemma_replace_skip(c, "/>"@, tag, Seq::empty());
    assert(replace_all("/>"@, tag, Seq::empty()) == "/>"@);
    assert(Seq::<char>::empty() + (c + "/>"@) =~= c + "/>"@);
    lemma_replace_skip(c, "/>"@, "/>"@, Seq::empty());
    lemma_replace_front("/>"@, Seq::empty(), Seq::empty());
    assert(replace_all(Seq::<char>::empty(), "/>"@, Seq::empty()) == Seq::<char>::empty());
    assert(c + (Seq::<char>::empty() + Seq::<char>::empty()) =~= c);
    assert(""@ =~= Seq::<char>::empty());
    assert forall|i: int| 0 <= i < p0.len() implies !has_char(#[trigger] p0[i], ':') by {
        assert(p0[i] == p[i]);
        assert(!seq![':'].contains(':') || true);
        if has_char(p0[i], ':') {
            let k = choose|k: int| 0 <= k < p0[i].len() && p0[i][k] == ':';
            assert(plain(p0[i][k]));
        }
    }
    assert(!has_char(p.last(), ':')) by {
        if has_char(p.last(), ':') {
            let k = choose|k: int| 0 <= k < p.last().len() && p.last()[k] == ':';
            assert(plain(p.last()[k]));
        }
    }
    lemma_split_colon_items(p0, p.last());
    assert(p0.push(p.last()) =~= p);
}

// ---------------------------------------------------------------------------
// Tables that can be written and read back
// ---------------------------------------------------------------------------

/// Whether the type `ty` reads an integer back from an XML export.
pub open spec fn is_int_type(ty: Seq<char>) -> bool {
    let l = lowercase_of(ty);
    l == "i32"@ || l == "integer"@ || l == "int"@
}

/// The integer at row `i` of the column named `n`.
pub open spec fn int_at(t: TableView, n: Seq<char>, i: int) -> i32 {
    match t.column(n)->0.values[i] {
        CellView::Int(x) => x,
        _ => 0i32,
    }
}

/// Whether `t`, active as `tb`, can be exported as XML and read back: at
/// least one column; plain names for the table, the columns and their
/// types, the columns distinct; integer types; and, in every column, an
/// integer at every row. The row count leaves room for the four lines
/// that are not records.
pub open spec fn xml_ready(t: TableView, tb: Seq<char>) -> bool {
    &&& t.order.len() > 0
    &&& t.model.len() >= t.order.len()
    &&& distinct(t.order)
    &&& plain_text(tb)
    &&& 0 <= t.rows <= i32::MAX - 4
    &&& forall|j: int| 0 <= j < t.model.len() ==> plain_text(#[trigger] t.model[j])
    &&& forall|j: int| 0 <= j < t.order.len() ==> {
        &&& plain_text(#[trigger] t.order[j])
        &&& t.order[j].len() > 0
        &&& is_int_type(t.model[j])
        &&& t.column(t.order[j]) is Some
        &&& t.column(t.order[j])->0.values.len() >= t.rows
    }
    &&& forall|j: int, i: int| 0 <= j < t.order.len() && 0 <= i < t.rows
        ==> #[trigger] t.column(t.order[j])->0.values[i] is Int
}

/// The field written for column `j` of row `i`: `name=value`.
pub open spec fn rec_field(t: TableView, i: int, j: int) -> Seq<char> {
    t.order[j] + "="@ + int_text(int_at(t, t.order[j], i) as int)
}

/// The first `m` fields of row `i`, each after a space.
pub open spec fn rec_fields(t: TableView, i: int, m: int) -> Seq<char>
    decreases m,
{
    if m <= 0 {
        Seq::empty()
    } else {
        rec_fields(t, i, m - 1) + " "@ + rec_field(t, i, m - 1)
    }
}

/// The record line written for row `i`.
pub open spec fn rec_line(t: TableView, i: int) -> Seq<char> {
    "<Record"@ + rec_fields(t, i, t.order.len() as int) + "/>"@
}

proof fn lemma_int_kinds(ty: Seq<char>)
    requires
        is_int_type(ty),
    ensures
        value_kind(lowercase_of(ty)) == ValueKind::Number,
        lowercase_of(ty) != "string"@,
        lowercase_of(ty) != "char"@,
        lowercase_of(ty) == "i32"@ || lowercase_of(ty) == "integer"@ || lowercase_of(ty) == "int"@,
{
    reveal_strlit("i32");
    reveal_strlit("integer");
    reveal_strlit("int");
    reveal_strlit("string");
    reveal_strlit("word");
    reveal_strlit("str");
    reveal_strlit("char");
    reveal_strlit("number");
    let l = lowercase_of(ty);
    assert(l != "string"@ && l != "word"@ && l != "str"@ && l != "char"@) by {
        assert("i32"@.len() == 3 && "integer"@.len() == 7 && "int"@.len() == 3);
        assert("string"@.len() == 6 && "word"@.len() == 4 && "str"@.len() == 3 && "char"@.len() == 4);
        assert("str"@[0] == 's' && "i32"@[0] == 'i' && "int"@[0] == 'i');
    }
}

proof fn lemma_row_cells(t: TableView, tb: Seq<char>, i: int, m: int)
    requires
        xml_ready(t, tb),
        0 <= i < t.rows,
        0 <= m <= t.order.len(),
    ensures
        row_cells(Format::Xml, t, i, m).2,
        row_cells(Format::Xml, t, i, m).1 == Seq::<OutputView>::empty(),
        written(row_cells(Format::Xml, t, i, m).0) == rec_fields(t, i, m),
    decreases m,
{
    reveal_strlit(" ");
    reveal_strlit("=");
    if m > 0 {
        lemma_row_cells(t, tb, i, m - 1);
        let j = m - 1;
        let (d, e, ok) = row_cells(Format::Xml, t, i, m - 1);
        assert(is_int_type(t.model[j]));
        lemma_int_kinds(t.model[j]);
        let col = order_columns(t)[j];
        assert(col == t.column(t.order[j])->0.values);
        assert(col[i] is Int);
        let x = int_at(t, t.order[j], i);
        assert(col[i] == CellView::Int(x));
        let cd = seq![PieceView::Text(int_text(x as int))];
        assert(cell_export(Format::Xml, ValueKind::Number, Some(col[i])) == Some((cd, Seq::<OutputView>::empty())));
        let lead = cell_lead(Format::Xml, t.order[j]);
        assert(lead == seq![PieceView::Text(" "@ + t.order[j] + "="@)]);
        assert(cell_trail(Format::Xml, j, t.order.len() as int) == Seq::<PieceView>::empty());
        let d2 = d + lead + cd + cell_trail(Format::Xml, j, t.order.len() as int);
        assert(row_cells(Format::Xml, t, i, m) == (d2, e + Seq::<OutputView>::empty(), true));
        assert(e + Seq::<OutputView>::empty() =~= e);
        lemma_written_concat(d, lead);
        lemma_written_concat(d + lead, cd);
        lemma_written_concat(d + lead + cd, Seq::empty());
        assert(written(lead) == " "@ + t.order[j] + "="@) by {
            assert(lead.drop_last() =~= Seq::<PieceView>::empty());
        }
        assert(written(cd) == int_text(x as int)) by {
            assert(cd.drop_last() =~= Seq::<PieceView>::empty());
        }
        assert(written(d2) =~= rec_fields(t, i, m - 1) + " "@ + rec_field(t, i, j));
    }
}

proof fn lemma_rows_export(t: TableView, tb: Seq<char>, k: int)
    requires
        xml_ready(t, tb),
        0 <= k <= t.rows,
    ensures
        rows_export(Format::Xml, t, k, t.rows as int).2,
        rows_export(Format::Xml, t, k, t.rows as int).1 == Seq::<OutputView>::empty(),
        written(rows_export(Format::Xml, t, k, t.rows as int).0) == crlf_lines(Seq::new(k as nat, |i: int| rec_line(t, i))),
    decreases k,
{
    reveal_strlit("<Record");
    reveal_strlit("/>\r\n");
    reveal_strlit("/>");
    reveal_strlit("\r\n");
    let n = t.rows as int;
    if k > 0 {
        lemma_rows_export(t, tb, k - 1);
        let (d, e, ok) = rows_export(Format::Xml, t, k - 1, n);
        lemma_row_cells(t, tb, k - 1, t.order.len() as int);
        let (cd, ce, cok) = row_cells(Format::Xml, t, k - 1, t.order.len() as int);
        let open = row_open(Format::Xml);
        let close = row_close(Format::Xml, k - 1, n);
        assert(open == seq![PieceView::Text("<Record"@)]);
        assert(close == seq![PieceView::Text("/>\r\n"@)]);
        assert(e + ce =~= e);
        lemma_written_concat(d, open);
        lemma_written_concat(d + open, cd);
        lemma_written_concat(d + open + cd, close);
        lemma_written_one(PieceView::Text("<Record"@));
        lemma_written_one(PieceView::Text("/>\r\n"@));
        let prev = Seq::new((k - 1) as nat, |i: int| rec_line(t, i));
        let all = Seq::new(k as nat, |i: int| rec_line(t, i));
        assert(all.drop_last() =~= prev);
        assert("/>\r\n"@ =~= "/>"@ + "\r\n"@);
        assert(written(d + open + cd + close) =~= crlf_lines(all));
    }
}

proof fn lemma_crlf_concat(a: Seq<Seq<char>>, b: Seq<Seq<char>>)
    ensures
        crlf_lines(a + b) == crlf_lines(a) + crlf_lines(b),
    decreases b.len(),
{
    if b.len() == 0 {
        assert(a + b =~= a);
        assert(crlf_lines(a) + crlf_lines(b) =~= crlf_lines(a));
    } else {
        lemma_crlf_concat(a, b.drop_last());
        assert((a + b).drop_last() =~= a + b.drop_last());
        assert((a + b).last() == b.last());
        assert(crlf_lines(a) + crlf_lines(b.drop_last()) + b.last() + "\r\n"@
            =~= crlf_lines(a) + (crlf_lines(b.drop_last()) + b.last() + "\r\n"@));
    }
}

/// The lines of the XML export of `t` active as `tb`, but the last.
pub open spec fn xml_lines(t: TableView, tb: Seq<char>) -> Seq<Seq<char>> {
    seq![
        colon_list("<dtypes = "@, t.model) + "/>"@,
        colon_list("<colnames = "@, t.order) + "/>"@,
        "<"@ + tb + ">"@,
    ] + Seq::new(t.rows as nat, |i: int| rec_line(t, i))
}

/// The last line of the XML export of a table active as `tb`.
pub open spec fn xml_last(tb: Seq<char>) -> Seq<char> {
    "<"@ + tb + "/>"@
}

proof fn lemma_export_text(t: TableView, tb: Seq<char>)
    requires
        xml_ready(t, tb),
    ensures
        export(Format::Xml, t, tb).0 == Seq::<OutputView>::empty(),
        export(Format::Xml, t, tb).1 is Some,
        written(export(Format::Xml, t, tb).1->0) == crlf_lines(xml_lines(t, tb)) + xml_last(tb),
{
    reveal_strlit("/>\r\n");
    reveal_strlit("/>");
    reveal_strlit("\r\n");
    reveal_strlit(">\r\n");
    reveal_strlit(">");
    reveal_strlit("<");
    assert forall|j: int| 0 <= j < t.order.len() implies #[trigger] t.column(t.order[j]) is Some by {
        assert(plain_text(t.order[j]));
    }
    assert(order_stored(t));
    let n = t.rows as int;
    assert(row_bound(t.rows) == n);
    lemma_rows_export(t, tb, n);
    let (d, e, ok) = rows_export(Format::Xml, t, n, n);
    let head = export_head(Format::Xml, t, tb);
    let tail = export_tail(Format::Xml, tb);
    let l0 = colon_list("<dtypes = "@, t.model);
    let l1 = colon_list("<colnames = "@, t.order);
    let l2 = "<"@ + tb + ">\r\n"@;
    assert(head == seq![
        PieceView::Text(l0),
        PieceView::Text("/>\r\n"@),
        PieceView::Text(l1),
        PieceView::Text("/>\r\n"@),
        PieceView::Text(l2),
    ]);
    assert(tail == seq![PieceView::Text(xml_last(tb))]);
    assert(written(head) == l0 + "/>\r\n"@ + l1 + "/>\r\n"@ + l2) by {
        reveal_with_fuel(written, 6);
        assert(head.drop_last().drop_last().drop_last().drop_last().drop_last() =~= Seq::<PieceView>::empty());
        assert(Seq::<char>::empty() + l0 =~= l0);
    }
    lemma_written_one(PieceView::Text(xml_last(tb)));
    lemma_written_concat(head, d);
    lemma_written_concat(head + d, tail);
    let hdr = seq![l0 + "/>"@, l1 + "/>"@, "<"@ + tb + ">"@];
    let recs = Seq::new(t.rows as nat, |i: int| rec_line(t, i));
    assert(xml_lines(t, tb) == hdr + recs);
    lemma_crlf_concat(hdr, recs);
    assert(crlf_lines(hdr) == l0 + "/>"@ + "\r\n"@ + (l1 + "/>"@) + "\r\n"@ + ("<"@ + tb + ">"@) + "\r\n"@) by {
        reveal_with_fuel(crlf_lines, 4);
        assert(hdr.drop_last().drop_last().drop_last() =~= Seq::<Seq<char>>::empty());
        assert(hdr.drop_last().drop_last() =~= seq![l0 + "/>"@]);
        assert(hdr.drop_last() =~= seq![l0 + "/>"@, l1 + "/>"@]);
        assert(crlf_lines(Seq::<Seq<char>>::empty()) == Seq::<char>::empty());
        assert(Seq::<char>::empty() + (l0 + "/>"@) + "\r\n"@ =~= l0 + "/>"@ + "\r\n"@);
    }
    assert(written(head) =~= crlf_lines(hdr));
    assert(written(head + d + tail) =~= crlf_lines(hdr) + crlf_lines(recs) + xml_last(tb));
}

/// The marks an XML export writes besides plain characters.
pub open spec fn marks() -> Seq<char> {
    seq!['<', '>', '/', '=', ' ', ':', '-']
}

proof fn lemma_marks_literals()
    ensures
        made_of("<dtypes = "@, marks()),
        made_of("<colnames = "@, marks()),
        made_of("/>"@, marks()),
        made_of("<"@, marks()),
        made_of(">"@, marks()),
        made_of("<Record"@, marks()),
        made_of("="@, marks()),
        made_of(" "@, marks()),
        !marks().contains('\n'),
{
    reveal_strlit("<dtypes = ");
    reveal_strlit("<colnames = ");
    reveal_strlit("/>");
    reveal_strlit("<");
    reveal_strlit(">");
    reveal_strlit("<Record");
    reveal_strlit("=");
    reveal_strlit(" ");
    assert(marks()[0] == '<' && marks()[1] == '>' && marks()[2] == '/' && marks()[3] == '=' && marks()[4] == ' ');
    assert(marks()[5] == ':' && marks()[6] == '-');
}

proof fn lemma_made_of_plain(s: Seq<char>, extra: Seq<char>)
    requires
        plain_text(s),
    ensures
        made_of(s, extra),
{
}

proof fn lemma_made_of_widen(s: Seq<char>, e1: Seq<char>, e2: Seq<char>)
    requires
        made_of(s, e1),
        forall|c: char| e1.contains(c) ==> e2.contains(c),
    ensures
        made_of(s, e2),
{
    assert forall|i: int| 0 <= i < s.len() implies plain(#[trigger] s[i]) || e2.contains(s[i]) by {
        if !plain(s[i]) {
            assert(e1.contains(s[i]));
        }
    }
}

proof fn lemma_marks_hold()
    ensures
        forall|c: char| seq![':'].contains(c) ==> marks().contains(c),
        forall|c: char| seq!['-'].contains(c) ==> marks().contains(c),
{
    assert forall|c: char| seq![':'].contains(c) implies marks().contains(c) by {
        let k = choose|k: int| 0 <= k < 1 && seq![':'][k] == c;
        assert(marks()[5] == ':');
    }
    assert forall|c: char| seq!['-'].contains(c) implies marks().contains(c) by {
        let k = choose|k: int| 0 <= k < 1 && seq!['-'][k] == c;
        assert(marks()[6] == '-');
    }
}

proof fn lemma_rec_field_chars(t: TableView, tb: Seq<char>, i: int, j: int)
    requires
        xml_ready(t, tb),
        0 <= j < t.order.len(),
    ensures
        made_of(rec_field(t, i, j), marks()),
        !has_char(rec_field(t, i, j), ' '),
        !has_char(rec_field(t, i, j), '<'),
        !has_char(rec_field(t, i, j), '/'),
        !has_char(rec_field(t, i, j), '\n'),
        rec_field(t, i, j).len() > 0,
        plain(rec_field(t, i, j)[0]),
        plain(rec_field(t, i, j).last()),
{
    reveal_strlit("=");
    let name = t.order[j];
    assert(plain_text(name));
    let v = int_text(int_at(t, name, i) as int);
    lemma_int_text_chars(int_at(t, name, i) as int);
    lemma_marks_hold();
    lemma_marks_literals();
    lemma_made_of_plain(name, marks());
    lemma_made_of_widen(v, seq!['-'], marks());
    lemma_made_of_concat(name, "="@, marks());
    lemma_made_of_concat(name + "="@, v, marks());
    let f = rec_field(t, i, j);
    assert(made_of(f, seq!['=', '-'])) by {
        assert forall|k: int| 0 <= k < f.len() implies plain(#[trigger] f[k]) || seq!['=', '-'].contains(f[k]) by {
            if k < name.len() {
                assert(f[k] == name[k]);
            } else if k == name.len() {
                assert(f[k] == '=');
                assert(seq!['=', '-'][0] == '=');
            } else {
                assert(f[k] == v[k - name.len() - 1]);
                if !plain(f[k]) {
                    assert(seq!['-'].contains(f[k]));
                    assert(f[k] == '-');
                    assert(seq!['=', '-'][1] == '-');
                }
            }
        }
    }
    assert forall|c: char| c == ' ' || c == '<' || c == '/' || c == '\n' implies !seq!['=', '-'].contains(c) by {
        if seq!['=', '-'].contains(c) {
            let k = choose|k: int| 0 <= k < 2 && seq!['=', '-'][k] == c;
        }
    }
    lemma_made_of_lacks(f, seq!['=', '-'], ' ');
    lemma_made_of_lacks(f, seq!['=', '-'], '<');
    lemma_made_of_lacks(f, seq!['=', '-'], '/');
    lemma_made_of_lacks(f, seq!['=', '-'], '\n');
    assert(f[0] == name[0]);
    assert(f.last() == v.last());
}

/// The fields of a row after its first space, and the first space.
proof fn lemma_rec_fields_shape(t: TableView, tb: Seq<char>, i: int, m: int)
    requires
        xml_ready(t, tb),
        1 <= m <= t.order.len(),
    ensures
        rec_fields(t, i, m) == " "@ + rec_fields(t, i, m).skip(1),
        m == 1 ==> rec_fields(t, i, m).skip(1) == rec_field(t, i, 0),
        m > 1 ==> rec_fields(t, i, m).skip(1) == rec_fields(t, i, m - 1).skip(1) + " "@ + rec_field(t, i, m - 1),
        split_on(rec_fields(t, i, m).skip(1), ' ') == Seq::new(m as nat, |j: int| rec_field(t, i, j)),
        made_of(rec_fields(t, i, m).skip(1), marks()),
        !has_char(rec_fields(t, i, m).skip(1), '<'),
        !has_char(rec_fields(t, i, m).skip(1), '/'),
        plain(rec_fields(t, i, m).skip(1)[0]),
        plain(rec_fields(t, i, m).skip(1).last()),
        rec_fields(t, i, m).skip(1).len() > 0,
    decreases m,
{
    reveal_strlit(" ");
    lemma_marks_literals();
    let f = rec_field(t, i, m - 1);
    lemma_rec_field_chars(t, tb, i, m - 1);
    assert forall|k: int| 0 <= k < f.len() implies f[k] != ' ' by {}
    crate::text::lemma_split_free(f, ' ');
    let r = rec_fields(t, i, m);
    if m == 1 {
        assert(rec_fields(t, i, 0) == Seq::<char>::empty());
        assert(r =~= " "@ + f);
        assert(r.skip(1) =~= f);
        assert(Seq::new(1, |j: int| rec_field(t, i, j)) =~= seq![f]);
    } else {
        lemma_rec_fields_shape(t, tb, i, m - 1);
        let p = rec_fields(t, i, m - 1);
        let g = p.skip(1);
        assert(r == p + " "@ + f);
        assert(r =~= " "@ + (g + " "@ + f));
        assert(r.skip(1) =~= g + " "@ + f);
        assert(g + " "@ + f =~= g + seq![' '] + f);
        lemma_split_join(g, f, ' ');
        assert(Seq::new((m - 1) as nat, |j: int| rec_field(t, i, j)) + seq![f]
            =~= Seq::new(m as nat, |j: int| rec_field(t, i, j)));
        lemma_made_of_concat(g, " "@, marks());
        lemma_made_of_concat(g + " "@, f, marks());
        assert(!has_char(r.skip(1), '<')) by {
            if has_char(r.skip(1), '<') {
                let k = choose|k: int| 0 <= k < r.skip(1).len() && r.skip(1)[k] == '<';
                if k < g.len() {
                    assert(g[k] == '<');
                } else if k > g.len() {
                    assert(f[k - g.len() - 1] == '<');
                }
            }
        }
        assert(!has_char(r.skip(1), '/')) by {
            if has_char(r.skip(1), '/') {
                let k = choose|k: int| 0 <= k < r.skip(1).len() && r.skip(1)[k] == '/';
                if k < g.len() {
                    assert(g[k] == '/');
                } else if k > g.len() {
                    assert(f[k - g.len() - 1] == '/');
                }
            }
        }
        assert(r.skip(1)[0] == g[0]);
        assert(r.skip(1).last() == f.last());
    }
}

proof fn lemma_plain_not_space(c: char)
    requires
        plain(c),
    ensures
        !crate::text::is_space(c),
{
}

/// A record line of the export reads back as the fields of its row.
proof fn lemma_record_fields(t: TableView, tb: Seq<char>, i: int)
    requires
        xml_ready(t, tb),
    ensures
        crate::exchange::record_fields(rec_line(t, i)) == Seq::new(t.order.len(), |j: int| rec_field(t, i, j)),
{
    reveal_strlit("<Record");
    reveal_strlit("<Record ");
    reveal_strlit("/>");
    reveal_strlit(" ");
    let n = t.order.len() as int;
    lemma_rec_fields_shape(t, tb, i, n);
    let g = rec_fields(t, i, n).skip(1);
    let line = rec_line(t, i);
    assert(line =~= "<Record "@ + (g + "/>"@));
    lemma_replace_front("<Record "@, g + "/>"@, Seq::empty());
    lemma_replace_skip(g, "/>"@, "<Record "@, Seq::empty());
    assert(replace_all("/>"@, "<Record "@, Seq::empty()) == "/>"@);
    assert(Seq::<char>::empty() + (g + "/>"@) =~= g + "/>"@);
    lemma_replace_skip(g, "/>"@, "/>"@, Seq::empty());
    lemma_replace_front("/>"@, Seq::empty(), Seq::empty());
    assert(replace_all(Seq::<char>::empty(), "/>"@, Seq::empty()) == Seq::<char>::empty());
    assert(g + (Seq::<char>::empty() + Seq::<char>::empty()) =~= g);
    lemma_plain_not_space(g[0]);
    lemma_plain_not_space(g.last());
    lemma_trim_keeps(g);
}

/// The fields written for row `i`.
pub open spec fn row_fields(t: TableView, i: int) -> Seq<Seq<char>> {
    Seq::new(t.order.len(), |j: int| rec_field(t, i, j))
}

proof fn lemma_field_value(t: TableView, tb: Seq<char>, i: int, k: int)
    requires
        xml_ready(t, tb),
        0 <= k < t.order.len(),
    ensures
        split_on(rec_field(t, i, k), '=') == seq![t.order[k], int_text(int_at(t, t.order[k], i) as int)],
        xml_cell(lowercase_of(t.model[k]), int_text(int_at(t, t.order[k], i) as int))
            == Some(Some(CellView::Int(int_at(t, t.order[k], i)))),
{
    reveal_strlit("=");
    let name = t.order[k];
    let x = int_at(t, name, i);
    let v = int_text(x as int);
    assert(plain_text(name));
    lemma_int_text_chars(x as int);
    assert forall|q: int| 0 <= q < name.len() implies name[q] != '=' by {
        assert(plain(name[q]));
    }
    assert forall|q: int| 0 <= q < v.len() implies v[q] != '=' by {
        assert(plain(v[q]) || seq!['-'].contains(v[q]));
        if seq!['-'].contains(v[q]) {
            let z = choose|z: int| 0 <= z < 1 && seq!['-'][z] == v[q];
        }
    }
    crate::text::lemma_split_free(name, '=');
    crate::text::lemma_split_free(v, '=');
    assert(rec_field(t, i, k) =~= name + seq!['='] + v);
    lemma_split_join(name, v, '=');
    assert(seq![name] + seq![v] =~= seq![name, v]);
    lemma_int_kinds(t.model[k]);
    crate::laws::law_integer_text_reads_back(x as int);
}

proof fn lemma_xml_fields(t: TableView, tb: Seq<char>, i: int, t1: TableView, m: int)
    requires
        xml_ready(t, tb),
        0 <= m <= t.order.len(),
        t1.wf(),
        forall|j: int| 0 <= j < t.order.len() ==> (#[trigger] t1.column(t.order[j])) is Some,
    ensures
        xml_fields(t1, t.model, row_fields(t, i).take(m)) matches Some(t2) && {
            &&& column_names(t2.columns) == column_names(t1.columns)
            &&& t2.wf()
            &&& t2.name == t1.name && t2.model == t1.model && t2.order == t1.order
            &&& t2.rows == t1.rows && t2.relations == t1.relations
            &&& forall|j: int| 0 <= j < m ==> #[trigger] t2.column(t.order[j]) == Some(ColumnView {
                values: t1.column(t.order[j])->0.values.push(CellView::Int(int_at(t, t.order[j], i))),
                ..t1.column(t.order[j])->0
            })
            &&& forall|n: Seq<char>| !t.order.take(m).contains(n) ==> #[trigger] t2.column(n) == t1.column(n)
        },
    decreases m,
{
    let fs = row_fields(t, i);
    if m == 0 {
        assert(fs.take(0) =~= Seq::<Seq<char>>::empty());
    } else {
        lemma_xml_fields(t, tb, i, t1, m - 1);
        let k = m - 1;
        assert(fs.take(m).drop_last() =~= fs.take(m - 1));
        assert(fs.take(m).last() == rec_field(t, i, k));
        let ta = xml_fields(t1, t.model, fs.take(m - 1))->0;
        let o = t.order[k];
        assert(!t.order.take(m - 1).contains(o)) by {
            if t.order.take(m - 1).contains(o) {
                let q = choose|q: int| 0 <= q < t.order.take(m - 1).len() && #[trigger] t.order.take(m - 1)[q] == o;
                assert(t.order[q] == o);
            }
        }
        assert(ta.column(o) == t1.column(o));
        assert(t1.column(t.order[k]) is Some);
        lemma_field_value(t, tb, i, k);
        let x = int_at(t, o, i);
        let c = CellView::Int(x);
        let val = split_on(fs.take(m).last(), '=');
        assert(val == seq![o, int_text(x as int)]);
        assert(val[0] == o && val[1] == int_text(x as int));
        assert(xml_fields(t1, t.model, fs.take(m)) == Some(ta.with_value(o, c)));
        let tz = ta.with_value(o, c);
        lemma_with_value_column(ta, o, c, o);
        assert forall|n: Seq<char>| #![trigger tz.column(n)] n != o implies tz.column(n) == ta.column(n) by {
            lemma_with_value_column(ta, o, c, n);
        }
        assert forall|j: int| 0 <= j < m implies #[trigger] tz.column(t.order[j]) == Some(ColumnView {
            values: t1.column(t.order[j])->0.values.push(CellView::Int(int_at(t, t.order[j], i))),
            ..t1.column(t.order[j])->0
        }) by {
            if j < k {
                assert(t.order[j] != o);
                assert(tz.column(t.order[j]) == ta.column(t.order[j]));
            }
        }
        assert forall|n: Seq<char>| !t.order.take(m).contains(n) implies #[trigger] tz.column(n) == t1.column(n) by {
            assert(t.order.take(m)[k] == o);
            if t.order.take(m - 1).contains(n) {
                let q = choose|q: int| 0 <= q < t.order.take(m - 1).len() && #[trigger] t.order.take(m - 1)[q] == n;
                assert(t.order.take(m)[q] == n);
            }
            assert(n != o);
        }
    }
}

proof fn lemma_empty_columns(base: TableView, names: Seq<Seq<char>>)
    requires
        base.columns.len() == 0,
        distinct(names),
    ensures
        with_empty_columns(base, names) == (TableView {
            columns: Seq::new(names.len(), |j: int| ColumnView { name: names[j], values: Seq::empty() }),
            ..base
        }),
    decreases names.len(),
{
    if names.len() == 0 {
        assert(base.columns =~= Seq::new(0, |j: int| ColumnView { name: names[j], values: Seq::<CellView>::empty() }));
    } else {
        let n0 = names.drop_last();
        assert(distinct(n0)) by {
            assert forall|a: int, b: int| 0 <= a < n0.len() && 0 <= b < n0.len() && a != b implies n0[a] != n0[b] by {
                assert(n0[a] == names[a] && n0[b] == names[b]);
            }
        }
        lemma_empty_columns(base, n0);
        let t1 = with_empty_columns(base, n0);
        assert(column_names(t1.columns) =~= n0);
        crate::table::lemma_find(n0, names.last());
        assert forall|q: int| 0 <= q < n0.len() implies n0[q] != names.last() by {
            assert(n0[q] == names[q]);
            assert(names.last() == names[names.len() - 1]);
        }
        assert(t1.with_empty_column(names.last()).columns
            =~= Seq::new(names.len(), |j: int| ColumnView { name: names[j], values: Seq::<CellView>::empty() }));
    }
}

proof fn lemma_xml_records(t: TableView, tb: Seq<char>, t0: TableView, r: int)
    requires
        xml_ready(t, tb),
        0 <= r <= t.rows,
        t0.wf(),
        forall|j: int| 0 <= j < t.order.len()
            ==> #[trigger] t0.column(t.order[j]) == Some(ColumnView { name: t.order[j], values: Seq::empty() }),
    ensures
        xml_records(t0, t.model, Seq::new(t.rows as nat, |i: int| rec_line(t, i)).take(r)) matches Some(t2) && {
            &&& t2.wf()
            &&& t2.name == t0.name && t2.model == t0.model && t2.order == t0.order && t2.rows == t0.rows
            &&& forall|j: int| 0 <= j < t.order.len() ==> #[trigger] t2.column(t.order[j]) == Some(ColumnView {
                name: t.order[j],
                values: Seq::new(r as nat, |i: int| CellView::Int(int_at(t, t.order[j], i))),
            })
        },
    decreases r,
{
    let recs = Seq::new(t.rows as nat, |i: int| rec_line(t, i));
    if r == 0 {
        assert(recs.take(0) =~= Seq::<Seq<char>>::empty());
        assert forall|j: int| 0 <= j < t.order.len() implies #[trigger] t0.column(t.order[j]) == Some(ColumnView {
            name: t.order[j],
            values: Seq::new(0, |i: int| CellView::Int(int_at(t, t.order[j], i))),
        }) by {
            assert(Seq::new(0, |i: int| CellView::Int(int_at(t, t.order[j], i))) =~= Seq::<CellView>::empty());
        }
    } else {
        lemma_xml_records(t, tb, t0, r - 1);
        assert(recs.take(r).drop_last() =~= recs.take(r - 1));
        assert(recs.take(r).last() == rec_line(t, r - 1));
        let t1 = xml_records(t0, t.model, recs.take(r - 1))->0;
        lemma_record_fields(t, tb, r - 1);
        let n = t.order.len() as int;
        assert(row_fields(t, r - 1).take(n) =~= row_fields(t, r - 1));
        assert forall|j: int| 0 <= j < t.order.len() implies (#[trigger] t1.column(t.order[j])) is Some by {
            assert(t1.column(t.order[j]) is Some);
        }
        lemma_xml_fields(t, tb, r - 1, t1, n);
        let t2 = xml_fields(t1, t.model, row_fields(t, r - 1))->0;
        assert(xml_records(t0, t.model, recs.take(r)) == Some(t2));
        assert forall|j: int| 0 <= j < t.order.len() implies #[trigger] t2.column(t.order[j]) == Some(ColumnView {
            name: t.order[j],
            values: Seq::new(r as nat, |i: int| CellView::Int(int_at(t, t.order[j], i))),
        }) by {
            assert(t2.column(t.order[j]) == Some(ColumnView {
                values: t1.column(t.order[j])->0.values.push(CellView::Int(int_at(t, t.order[j], r - 1))),
                ..t1.column(t.order[j])->0
            }));
            assert(Seq::new((r - 1) as nat, |i: int| CellView::Int(int_at(t, t.order[j], i))).push(
                CellView::Int(int_at(t, t.order[j], r - 1)),
            ) =~= Seq::new(r as nat, |i: int| CellView::Int(int_at(t, t.order[j], i))));
        }
    }
}

proof fn lemma_export_lines(t: TableView, tb: Seq<char>)
    requires
        xml_ready(t, tb),
    ensures
        crate::text::lines_of(crlf_lines(xml_lines(t, tb)) + xml_last(tb)) == xml_lines(t, tb).push(xml_last(tb)),
{
    reveal_strlit("/>");
    reveal_strlit("<");
    reveal_strlit(">");
    reveal_strlit("<Record");
    reveal_strlit("<dtypes = ");
    reveal_strlit("<colnames = ");
    reveal_strlit(" ");
    lemma_marks_literals();
    lemma_marks_hold();
    assert(!plain('\n'));
    let ls = xml_lines(t, tb);
    // the header lines
    assert forall|j: int| 0 <= j < t.model.len() implies plain_text(#[trigger] t.model[j]) by {}
    assert forall|j: int| 0 <= j < t.order.len() implies plain_text(#[trigger] t.order[j]) by {}
    lemma_header_reads_back("<dtypes = "@, t.model);
    lemma_header_reads_back("<colnames = "@, t.order);
    let c0 = crate::exchange::colon_items(t.model).drop_last();
    let c1 = crate::exchange::colon_items(t.order).drop_last();
    lemma_made_of_widen(c0, seq![':'], marks());
    lemma_made_of_widen(c1, seq![':'], marks());
    lemma_made_of_concat("<dtypes = "@, c0, marks());
    lemma_made_of_concat("<dtypes = "@ + c0, "/>"@, marks());
    lemma_made_of_concat("<colnames = "@, c1, marks());
    lemma_made_of_concat("<colnames = "@ + c1, "/>"@, marks());
    lemma_made_of_plain(tb, marks());
    lemma_made_of_concat("<"@, tb, marks());
    lemma_made_of_concat("<"@ + tb, ">"@, marks());
    lemma_made_of_concat("<"@ + tb, "/>"@, marks());
    lemma_made_of_lacks("<dtypes = "@ + c0 + "/>"@, marks(), '\n');
    lemma_made_of_lacks("<colnames = "@ + c1 + "/>"@, marks(), '\n');
    lemma_made_of_lacks("<"@ + tb + ">"@, marks(), '\n');
    lemma_made_of_lacks("<"@ + tb + "/>"@, marks(), '\n');
    assert(ls[0] == "<dtypes = "@ + c0 + "/>"@);
    assert(ls[1] == "<colnames = "@ + c1 + "/>"@);
    assert(ls[2] == "<"@ + tb + ">"@);
    assert forall|i: int| 0 <= i < ls.len() implies !has_char(#[trigger] ls[i], '\n') by {
        if i >= 3 {
            let r = i - 3;
            assert(ls[i] == rec_line(t, r));
            let n = t.order.len() as int;
            lemma_rec_fields_shape(t, tb, r, n);
            let g = rec_fields(t, r, n).skip(1);
            lemma_made_of_concat(" "@, g, marks());
            lemma_made_of_concat("<Record"@, " "@ + g, marks());
            lemma_made_of_concat("<Record"@ + (" "@ + g), "/>"@, marks());
            assert(rec_line(t, r) == "<Record"@ + (" "@ + g) + "/>"@);
            lemma_made_of_lacks(rec_line(t, r), marks(), '\n');
        }
    }
    assert(xml_last(tb).len() > 0);
    lemma_lines_of_crlf(ls, xml_last(tb));
}

/// A table of integer columns, exported as XML while active as `tb` and
/// read back by `import as xml` from the file `tb.xml` holding the text
/// written, gives the table again: its name, its types, its columns in
/// order, its row count, and in each column the values of its rows.
pub proof fn law_xml_export_reads_back(t: TableView, tb: Seq<char>)
    requires
        xml_ready(t, tb),
    ensures
        export(Format::Xml, t, tb).1 is Some,
        xml_import(tb + ".xml"@, written(export(Format::Xml, t, tb).1->0)) matches Some(t2) && {
            &&& t2.name == tb && t2.model == t.model && t2.order == t.order && t2.rows == t.rows
            &&& forall|j: int| 0 <= j < t.order.len() ==> #[trigger] t2.column(t.order[j]) == Some(ColumnView {
                name: t.order[j],
                values: t.column(t.order[j])->0.values.take(t.rows as int),
            })
        },
{
    reveal_strlit("<dtypes = ");
    reveal_strlit("<colnames = ");
    reveal_strlit(".xml");
    reveal_strlit("");
    lemma_export_text(t, tb);
    lemma_export_lines(t, tb);
    let text = written(export(Format::Xml, t, tb).1->0);
    let ls = crate::text::lines_of(text);
    assert(ls == xml_lines(t, tb).push(xml_last(tb)));
    let rows = t.rows as int;
    assert(ls.len() == rows + 4);
    assert forall|j: int| 0 <= j < t.model.len() implies plain_text(#[trigger] t.model[j]) by {}
    assert forall|j: int| 0 <= j < t.order.len() implies plain_text(#[trigger] t.order[j]) by {}
    lemma_header_reads_back("<dtypes = "@, t.model);
    lemma_header_reads_back("<colnames = "@, t.order);
    assert(ls[0] == crate::exchange::colon_list("<dtypes = "@, t.model) + "/>"@);
    assert(ls[1] == crate::exchange::colon_list("<colnames = "@, t.order) + "/>"@);
    let model = crate::exchange::xml_header(ls[0], "<dtypes = "@);
    let order = crate::exchange::xml_header(ls[1], "<colnames = "@);
    assert(model == t.model);
    assert(order == t.order);
    // the table's name
    assert(!has_char(tb, '.')) by {
        if has_char(tb, '.') {
            let k = choose|k: int| 0 <= k < tb.len() && tb[k] == '.';
            assert(plain(tb[k]));
        }
    }
    lemma_replace_skip(tb, ".xml"@, ".xml"@, Seq::empty());
    lemma_replace_front(".xml"@, Seq::empty(), Seq::empty());
    assert(replace_all(Seq::<char>::empty(), ".xml"@, Seq::empty()) == Seq::<char>::empty());
    assert(tb + (Seq::<char>::empty() + Seq::<char>::empty()) =~= tb);
    assert(crate::exchange::xml_table_name(tb + ".xml"@) == tb);
    // the table before the records
    let base = TableView { rows: (ls.len() - 4) as i32, ..crate::table::empty_table(tb, t.model, t.order) };
    lemma_empty_columns(base, t.order);
    let t0 = with_empty_columns(base, t.order);
    let cols = Seq::new(t.order.len(), |j: int| ColumnView { name: t.order[j], values: Seq::<CellView>::empty() });
    assert(column_names(t0.columns) =~= t.order);
    assert forall|j: int| 0 <= j < t.order.len()
        implies #[trigger] t0.column(t.order[j]) == Some(ColumnView { name: t.order[j], values: Seq::empty() }) by {
        crate::table::lemma_find(t.order, t.order[j]);
        let q = find(t.order, t.order[j])->0;
        assert(q == j) by {
            if q != j {
                assert(t.order[q] == t.order[j]);
            }
        }
    }
    // the records
    let recs = Seq::new(t.rows as nat, |i: int| rec_line(t, i));
    assert(crate::exchange::record_lines(ls) =~= recs.take(rows));
    lemma_xml_records(t, tb, t0, rows);
    let t2 = xml_records(t0, t.model, recs.take(rows))->0;
    assert(xml_import(tb + ".xml"@, text) == Some(t2));
    assert forall|j: int| 0 <= j < t.order.len() implies #[trigger] t2.column(t.order[j]) == Some(ColumnView {
        name: t.order[j],
        values: t.column(t.order[j])->0.values.take(rows),
    }) by {
        let vs = t.column(t.order[j])->0.values;
        assert forall|i: int| 0 <= i < rows implies #[trigger] vs[i] == CellView::Int(int_at(t, t.order[j], i)) by {
            assert(t.column(t.order[j])->0.values[i] is Int);
        }
        assert(Seq::new(rows as nat, |i: int| CellView::Int(int_at(t, t.order[j], i))) =~= vs.take(rows));
    }
}

} // verus!
