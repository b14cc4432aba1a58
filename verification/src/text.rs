//! Text handling over sequences of `char`: splitting, trimming, replacing,
//! line breaking, decimal rendering and the number and literal syntaxes
//! that the store accepts. Every operation is stated over `Seq<char>`.
use vstd::prelude::*;
use crate::outside::push_char;

verus! {

// ---------------------------------------------------------------------------
// Conversions between `String` and `Vec<char>`
// ---------------------------------------------------------------------------

/// The characters of `s`, in order.
pub fn chars_of(s: &str) -> (v: Vec<char>)
    ensures
        v@ == s@,
{
    let n = s.unicode_len();
    let mut v: Vec<char> = Vec::new();
    let mut i: usize = 0;
    while i < n
        invariant
            n == s@.len(),
            i <= n,
            v@ == s@.take(i as int),
        decreases n - i,
    {
        let c = s.get_char(i);
        v.push(c);
        i = i + 1;
        assert(v@ =~= s@.take(i as int));
    }
    assert(s@.take(n as int) =~= s@);
    v
}

/// A `String` holding exactly the characters of `v`.
pub fn string_of(v: &Vec<char>) -> (s: String)
    ensures
        s@ == v@,
{
    let mut s = String::new();
    let mut i: usize = 0;
    while i < v.len()
        invariant
            i <= v.len(),
            s@ == v@.take(i as int),
        decreases v.len() - i,
    {
        push_char(&mut s, v[i]);
        i = i + 1;
        assert(s@ =~= v@.take(i as int));
    }
    assert(v@.take(v.len() as int) =~= v@);
    s
}

/// A `String` holding the one character `c`.
pub fn string_of_char(c: char) -> (s: String)
    ensures
        s@ == seq![c],
{
    let mut s = String::new();
    push_char(&mut s, c);
    assert(s@ =~= seq![c]);
    s
}

/// Whether the text of `s` is exactly the text of `lit`.
pub fn text_is(s: &str, lit: &str) -> (b: bool)
    ensures
        b == (s@ == lit@),
{
    let a = chars_of(s);
    let l = chars_of(lit);
    chars_equal(&a, &l)
}

/// Whether two character vectors hold the same characters.
pub fn chars_equal(a: &Vec<char>, b: &Vec<char>) -> (r: bool)
    ensures
        r == (a@ == b@),
{
    if a.len() != b.len() {
        return false;
    }
    let mut i: usize = 0;
    while i < a.len()
        invariant
            a.len() == b.len(),
            i <= a.len(),
            forall|k: int| 0 <= k < i ==> a@[k] == b@[k],
        decreases a.len() - i,
    {
        if a[i] != b[i] {
            return false;
        }
        i = i + 1;
    }
    assert(a@ =~= b@);
    true
}

/// `s` with `t` appended.
pub fn joined(s: &String, t: &str) -> (r: String)
    ensures
        r@ == s@ + t@,
{
    let mut r = s.clone();
    r.append(t);
    r
}

/// The texts of a sequence of strings.
pub open spec fn texts(v: Seq<String>) -> Seq<Seq<char>> {
    Seq::new(v.len(), |i: int| v[i]@)
}

/// The texts of a sequence of character vectors.
pub open spec fn char_rows(v: Seq<Vec<char>>) -> Seq<Seq<char>> {
    Seq::new(v.len(), |i: int| v[i]@)
}

// ---------------------------------------------------------------------------
// Splitting on one separator character
// ---------------------------------------------------------------------------

/// The pieces of `s` between occurrences of `sep`, in order, as `str::split`
/// with a one-character pattern gives them: there is always at least one
/// piece, and `k` separators give `k + 1` pieces.
pub open spec fn split_on(s: Seq<char>, sep: char) -> Seq<Seq<char>>
    decreases s.len(),
{
    if s.len() == 0 {
        seq![Seq::<char>::empty()]
    } else {
        let p = split_on(s.drop_last(), sep);
        if s.last() == sep {
            p.push(Seq::<char>::empty())
        } else {
            p.update(p.len() - 1, p.last().push(s.last()))
        }
    }
}

/// Splitting always gives at least one piece.
pub proof fn lemma_split_nonempty(s: Seq<char>, sep: char)
    ensures
        split_on(s, sep).len() >= 1,
    decreases s.len(),
{
    if s.len() > 0 {
        lemma_split_nonempty(s.drop_last(), sep);
    }
}

/// No piece of a split holds the separator.
pub proof fn lemma_split_pieces_free(s: Seq<char>, sep: char)
    ensures
        forall|i: int, j: int|
            0 <= i < split_on(s, sep).len() && 0 <= j < split_on(s, sep)[i].len()
                ==> split_on(s, sep)[i][j] != sep,
    decreases s.len(),
{
    if s.len() > 0 {
        lemma_split_pieces_free(s.drop_last(), sep);
        lemma_split_nonempty(s.drop_last(), sep);
    }
}

/// A text without the separator splits into itself alone.
pub proof fn lemma_split_free(s: Seq<char>, sep: char)
    requires
        forall|j: int| 0 <= j < s.len() ==> s[j] != sep,
    ensures
        split_on(s, sep) == seq![s],
    decreases s.len(),
{
    if s.len() > 0 {
        lemma_split_free(s.drop_last(), sep);
        assert(s.drop_last().push(s.last()) =~= s);
        assert(split_on(s, sep) =~= seq![s]);
    } else {
        assert(s =~= Seq::<char>::empty());
    }
}

/// The pieces of the characters `s` between occurrences of `sep`.
pub fn split_chars(s: &Vec<char>, sep: char) -> (r: Vec<Vec<char>>)
    ensures
        char_rows(r@) == split_on(s@, sep),
{
    let mut pieces: Vec<Vec<char>> = Vec::new();
    let mut cur: Vec<char> = Vec::new();
    let mut i: usize = 0;
    while i < s.len()
        invariant
            i <= s.len(),
            char_rows(pieces@).push(cur@) == split_on(s@.take(i as int), sep),
        decreases s.len() - i,
    {
        let ghost before = s@.take(i as int);
        proof {
            assert(s@.take(i + 1).drop_last() =~= before);
            lemma_split_nonempty(before, sep);
        }
        let c = s[i];
        if c == sep {
            pieces.push(cur);
            cur = Vec::new();
            proof {
                assert(char_rows(pieces@) =~= split_on(before, sep));
            }
        } else {
            cur.push(c);
        }
        i = i + 1;
        proof {
            assert(char_rows(pieces@).push(cur@) =~= split_on(s@.take(i as int), sep));
        }
    }
    assert(s@.take(s.len() as int) =~= s@);
    pieces.push(cur);
    assert(char_rows(pieces@) =~= split_on(s@, sep));
    pieces
}

/// The pieces of `s` between occurrences of `sep`, as `String`s.
pub fn split_text(s: &str, sep: char) -> (r: Vec<String>)
    ensures
        texts(r@) == split_on(s@, sep),
{
    let cs = chars_of(s);
    let parts = split_chars(&cs, sep);
    let mut r: Vec<String> = Vec::new();
    let mut i: usize = 0;
    while i < parts.len()
        invariant
            i <= parts.len(),
            char_rows(parts@) == split_on(s@, sep),
            r@.len() == i,
            texts(r@) == char_rows(parts@).take(i as int),
        decreases parts.len() - i,
    {
        let t = string_of(&parts[i]);
        let ghost old_r = r@;
        r.push(t);
        proof {
            assert forall|k: int| 0 <= k < r@.len() implies #[trigger] texts(r@)[k]
                == char_rows(parts@).take(i + 1)[k] by {
                if k < i {
                    assert(r@[k] == old_r[k]);
                    assert(texts(old_r)[k] == old_r[k]@);
                }
            }
        }
        i = i + 1;
        assert(texts(r@) =~= char_rows(parts@).take(i as int));
    }
    assert(char_rows(parts@).take(parts.len() as int) =~= char_rows(parts@));
    r
}

// ---------------------------------------------------------------------------
// Trimming white space
// ---------------------------------------------------------------------------

/// The characters that `char::is_whitespace` accepts: those with the
/// Unicode `White_Space` property.
pub open spec fn is_space(c: char) -> bool {
    ||| ('\u{9}' <= c && c <= '\u{d}')
    ||| c == ' '
    ||| c == '\u{85}'
    ||| c == '\u{a0}'
    ||| c == '\u{1680}'
    ||| ('\u{2000}' <= c && c <= '\u{200a}')
    ||| c == '\u{2028}'
    ||| c == '\u{2029}'
    ||| c == '\u{202f}'
    ||| c == '\u{205f}'
    ||| c == '\u{3000}'
}

/// `s` without its leading white space.
pub open spec fn trim_start(s: Seq<char>) -> Seq<char>
    decreases s.len(),
{
    if s.len() > 0 && is_space(s[0]) {
        trim_start(s.skip(1))
    } else {
        s
    }
}

/// `s` without its trailing white space.
pub open spec fn trim_end(s: Seq<char>) -> Seq<char>
    decreases s.len(),
{
    if s.len() > 0 && is_space(s.last()) {
        trim_end(s.drop_last())
    } else {
        s
    }
}

/// `s` without leading and trailing white space, as `str::trim` gives it.
pub open spec fn trim(s: Seq<char>) -> Seq<char> {
    trim_end(trim_start(s))
}

/// Whether `c` is white space.
pub fn char_is_space(c: char) -> (b: bool)
    ensures
        b == is_space(c),
{
    ('\u{9}' <= c && c <= '\u{d}') || c == ' ' || c == '\u{85}' || c == '\u{a0}'
        || c == '\u{1680}' || ('\u{2000}' <= c && c <= '\u{200a}') || c == '\u{2028}'
        || c == '\u{2029}' || c == '\u{202f}' || c == '\u{205f}' || c == '\u{3000}'
}

proof fn lemma_trim_start_skip(s: Seq<char>, i: int)
    requires
        0 <= i <= s.len(),
        forall|k: int| 0 <= k < i ==> is_space(s[k]),
    ensures
        trim_start(s) == trim_start(s.skip(i)),
    decreases i,
{
    if i > 0 {
        assert(s.skip(1).skip(i - 1) =~= s.skip(i));
        lemma_trim_start_skip(s.skip(1), i - 1);
    } else {
        assert(s.skip(0) =~= s);
    }
}

proof fn lemma_trim_end_take(s: Seq<char>, j: int)
    requires
        0 <= j <= s.len(),
        forall|k: int| j <= k < s.len() ==> is_space(s[k]),
    ensures
        trim_end(s) == trim_end(s.take(j)),
    decreases s.len() - j,
{
    if j < s.len() {
        assert(s.drop_last().take(j) =~= s.take(j));
        lemma_trim_end_take(s.drop_last(), j);
    } else {
        assert(s.take(j) =~= s);
    }
}

/// The characters `s` without leading and trailing white space.
pub fn trim_chars(s: &Vec<char>) -> (r: Vec<char>)
    ensures
        r@ == trim(s@),
{
    let n = s.len();
    let mut i: usize = 0;
    while i < n && char_is_space(s[i])
        invariant
            n == s.len(),
            i <= n,
            forall|k: int| 0 <= k < i ==> is_space(s@[k]),
        decreases n - i,
    {
        i = i + 1;
    }
    proof {
        lemma_trim_start_skip(s@, i as int);
    }
    let ghost t = s@.skip(i as int);
    assert(trim_start(t) == t);
    let mut j: usize = n;
    while j > i && char_is_space(s[j - 1])
        invariant
            n == s.len(),
            i <= j <= n,
            forall|k: int| j <= k < n ==> is_space(s@[k]),
        decreases j,
    {
        j = j - 1;
    }
    let mut r: Vec<char> = Vec::new();
    let mut k: usize = i;
    while k < j
        invariant
            i <= k <= j <= n,
            n == s.len(),
            r@ == s@.subrange(i as int, k as int),
        decreases j - k,
    {
        r.push(s[k]);
        k = k + 1;
        assert(r@ =~= s@.subrange(i as int, k as int));
    }
    proof {
        assert forall|m: int| (j - i) <= m < t.len() implies is_space(t[m]) by {
            assert(t[m] == s@[m + i]);
        }
        lemma_trim_end_take(t, j - i);
        assert(t.take(j - i) =~= s@.subrange(i as int, j as int));
        if j > i {
            assert(t.take(j - i).last() == s@[j - 1]);
        }
    }
    r
}

/// `s` without leading and trailing white space.
pub fn trim_text(s: &str) -> (r: String)
    ensures
        r@ == trim(s@),
{
    let cs = chars_of(s);
    let t = trim_chars(&cs);
    string_of(&t)
}

// ---------------------------------------------------------------------------
// Replacing a pattern
// ---------------------------------------------------------------------------

/// `s` with every occurrence of the non-empty `pat` replaced by `rep`,
/// occurrences taken from the left without overlap, as `str::replace` does.
pub open spec fn replace_all(s: Seq<char>, pat: Seq<char>, rep: Seq<char>) -> Seq<char>
    decreases s.len(),
{
    if pat.len() == 0 || s.len() < pat.len() {
        s
    } else if s.take(pat.len() as int) == pat {
        rep + replace_all(s.skip(pat.len() as int), pat, rep)
    } else {
        seq![s[0]] + replace_all(s.skip(1), pat, rep)
    }
}

/// Whether `pat` occurs in `s` at position `i`.
pub open spec fn occurs_at(s: Seq<char>, pat: Seq<char>, i: int) -> bool {
    0 <= i && i + pat.len() <= s.len() && s.subrange(i, i + pat.len()) == pat
}

/// Whether the characters `pat` stand in `s` at position `i`.
fn chars_at(s: &Vec<char>, pat: &Vec<char>, i: usize) -> (b: bool)
    ensures
        b == occurs_at(s@, pat@, i as int),
{
    if i > s.len() || pat.len() > s.len() - i {
        return false;
    }
    let mut k: usize = 0;
    while k < pat.len()
        invariant
            i + pat.len() <= s.len(),
            k <= pat.len(),
            forall|m: int| 0 <= m < k ==> s@[i + m] == pat@[m],
        decreases pat.len() - k,
    {
        if s[i + k] != pat[k] {
            assert(s@.subrange(i as int, i + pat.len())[k as int] != pat@[k as int]);
            return false;
        }
        k = k + 1;
    }
    assert(s@.subrange(i as int, i + pat.len()) =~= pat@);
    true
}

/// The characters `s` with every occurrence of `pat` replaced by `rep`.
pub fn replace_chars(s: &Vec<char>, pat: &Vec<char>, rep: &Vec<char>) -> (r: Vec<char>)
    requires
        pat.len() > 0,
    ensures
        r@ == replace_all(s@, pat@, rep@),
{
    let mut out: Vec<char> = Vec::new();
    let mut i: usize = 0;
    assert(s@.skip(0) =~= s@);
    assert(out@ + replace_all(s@, pat@, rep@) =~= replace_all(s@, pat@, rep@));
    while i < s.len()
        invariant
            pat.len() > 0,
            i <= s.len(),
            out@ + replace_all(s@.skip(i as int), pat@, rep@) == replace_all(s@, pat@, rep@),
        decreases s.len() - i,
    {
        let ghost rest = s@.skip(i as int);
        if chars_at(s, pat, i) {
            proof {
                assert(rest.take(pat@.len() as int) =~= s@.subrange(i as int, i + pat@.len()));
                assert(rest.skip(pat@.len() as int) =~= s@.skip(i + pat@.len()));
            }
            let mut k: usize = 0;
            let ghost out0 = out@;
            while k < rep.len()
                invariant
                    k <= rep.len(),
                    out@ == out0 + rep@.take(k as int),
                decreases rep.len() - k,
            {
                out.push(rep[k]);
                k = k + 1;
                assert(out@ =~= out0 + rep@.take(k as int));
            }
            assert(rep@.take(rep.len() as int) =~= rep@);
            assert(out0 + (rep@ + replace_all(rest.skip(pat@.len() as int), pat@, rep@))
                =~= out@ + replace_all(rest.skip(pat@.len() as int), pat@, rep@));
            i = i + pat.len();
        } else {
            proof {
                assert(rest.skip(1) =~= s@.skip(i + 1));
                if rest.len() >= pat@.len() {
                    assert(rest.take(pat@.len() as int) =~= s@.subrange(i as int, i + pat@.len()));
                } else {
                    assert(replace_all(rest.skip(1), pat@, rep@) == rest.skip(1)) by {
                        lemma_replace_short(rest.skip(1), pat@, rep@);
                    }
                    assert(seq![rest[0]] + rest.skip(1) =~= rest);
                }
            }
            let ghost out0 = out@;
            out.push(s[i]);
            assert(out0 + (seq![rest[0]] + replace_all(rest.skip(1), pat@, rep@))
                =~= out@ + replace_all(rest.skip(1), pat@, rep@));
            i = i + 1;
        }
    }
    assert(s@.skip(i as int) =~= Seq::<char>::empty());
    assert(out@ + Seq::<char>::empty() =~= out@);
    out
}

proof fn lemma_replace_short(s: Seq<char>, pat: Seq<char>, rep: Seq<char>)
    requires
        s.len() < pat.len(),
    ensures
        replace_all(s, pat, rep) == s,
{
}

/// The text `s` with every occurrence of the non-empty `pat` replaced by `rep`.
pub fn replace_text(s: &str, pat: &str, rep: &str) -> (r: String)
    requires
        pat@.len() > 0,
    ensures
        r@ == replace_all(s@, pat@, rep@),
{
    let cs = chars_of(s);
    let ps = chars_of(pat);
    let rs = chars_of(rep);
    let out = replace_chars(&cs, &ps, &rs);
    string_of(&out)
}

/// Replacing a pattern that does not occur changes nothing.
pub proof fn lemma_replace_absent(s: Seq<char>, pat: Seq<char>, rep: Seq<char>)
    requires
        pat.len() > 0,
        forall|i: int| !occurs_at(s, pat, i),
    ensures
        replace_all(s, pat, rep) == s,
    decreases s.len(),
{
    if s.len() >= pat.len() {
        assert(!occurs_at(s, pat, 0));
        assert(s.subrange(0, pat.len() as int) =~= s.take(pat.len() as int));
        assert forall|i: int| !occurs_at(s.skip(1), pat, i) by {
            if occurs_at(s.skip(1), pat, i) {
                assert(s.skip(1).subrange(i, i + pat.len()) =~= s.subrange(i + 1, i + 1 + pat.len()));
                assert(occurs_at(s, pat, i + 1));
            }
        }
        lemma_replace_absent(s.skip(1), pat, rep);
        assert(seq![s[0]] + s.skip(1) =~= s);
    }
}

// ---------------------------------------------------------------------------
// Lines
// ---------------------------------------------------------------------------

/// `s` without one trailing carriage return.
pub open spec fn strip_cr(s: Seq<char>) -> Seq<char> {
    if s.len() > 0 && s.last() == '\r' {
        s.drop_last()
    } else {
        s
    }
}

/// The lines of `s` as `str::lines` gives them: split at `\n`, a `\r` just
/// before a `\n` dropped, and no empty line after a final `\n`.
pub open spec fn lines_of(s: Seq<char>) -> Seq<Seq<char>> {
    let p = split_on(s, '\n');
    let body = if p.last().len() == 0 { p.drop_last() } else { p };
    Seq::new(body.len(), |i: int| if i < p.len() - 1 { strip_cr(body[i]) } else { body[i] })
}

/// The lines of `s`.
pub fn lines_text(s: &str) -> (r: Vec<String>)
    ensures
        texts(r@) == lines_of(s@),
{
    let cs = chars_of(s);
    let p = split_chars(&cs, '\n');
    proof {
        lemma_split_nonempty(s@, '\n');
    }
    let n = p.len();
    let last_empty = p[n - 1].len() == 0;
    let m = if last_empty { n - 1 } else { n };
    let ghost pv = char_rows(p@);
    let ghost body = if pv.last().len() == 0 { pv.drop_last() } else { pv };
    assert(body.len() == m);
    assert(lines_of(s@).len() == m);
    let mut r: Vec<String> = Vec::new();
    let mut i: usize = 0;
    while i < m
        invariant
            m <= n == p.len(),
            pv == char_rows(p@),
            pv == split_on(s@, '\n'),
            body.len() == m,
            lines_of(s@).len() == m,
            body == (if pv.last().len() == 0 { pv.drop_last() } else { pv }),
            forall|k: int| 0 <= k < m ==> body[k] == pv[k],
            i <= m,
            r@.len() == i,
            forall|k: int| 0 <= k < i ==> #[trigger] r@[k]@ == lines_of(s@)[k],
        decreases m - i,
    {
        let piece = &p[i];
        let plen = piece.len();
        let t = if i + 1 < n && plen > 0 && piece[plen - 1] == '\r' {
            let mut c: Vec<char> = Vec::new();
            let mut k: usize = 0;
            while k < plen - 1
                invariant
                    plen == piece.len(),
                    plen > 0,
                    k <= plen - 1,
                    c@ == piece@.take(k as int),
                decreases plen - 1 - k,
            {
                c.push(piece[k]);
                k = k + 1;
                assert(c@ =~= piece@.take(k as int));
            }
            assert(piece@.take(plen - 1) =~= piece@.drop_last());
            string_of(&c)
        } else {
            string_of(piece)
        };
        proof {
            assert(pv[i as int] == p@[i as int]@);
            assert(lines_of(s@)[i as int] == (if i < pv.len() - 1 { strip_cr(body[i as int]) } else {
                body[i as int]
            }));
            if i + 1 < n && plen > 0 && piece@[plen - 1] == '\r' {
                assert(t@ == strip_cr(pv[i as int]));
            } else {
                assert(t@ == pv[i as int]);
            }
        }
        let ghost r0 = r@;
        r.push(t);
        assert(forall|k: int| 0 <= k < i ==> r@[k] == r0[k]);
        i = i + 1;
    }
    assert(texts(r@) =~= lines_of(s@));
    r
}

// ---------------------------------------------------------------------------
// Decimal rendering of integers
// ---------------------------------------------------------------------------

/// The decimal digit character for `d` in `0..10`.
pub open spec fn digit_char(d: int) -> char {
    if d == 0 { '0' } else if d == 1 { '1' } else if d == 2 { '2' } else if d == 3 { '3' }
    else if d == 4 { '4' } else if d == 5 { '5' } else if d == 6 { '6' } else if d == 7 { '7' }
    else if d == 8 { '8' } else { '9' }
}

/// The decimal digits of `n`, with no leading zero.
pub open spec fn nat_text(n: nat) -> Seq<char>
    decreases n,
{
    if n < 10 {
        seq![digit_char(n as int)]
    } else {
        nat_text(n / 10).push(digit_char((n % 10) as int))
    }
}

/// The decimal text of `n` as `Display` and `Debug` give it for integers:
/// a `-` before the digits of a negative number.
pub open spec fn int_text(n: int) -> Seq<char> {
    if n < 0 {
        seq!['-'] + nat_text((-n) as nat)
    } else {
        nat_text(n as nat)
    }
}

fn digit_of(d: u64) -> (c: char)
    requires
        d < 10,
    ensures
        c == digit_char(d as int),
{
    if d == 0 { '0' } else if d == 1 { '1' } else if d == 2 { '2' } else if d == 3 { '3' }
    else if d == 4 { '4' } else if d == 5 { '5' } else if d == 6 { '6' } else if d == 7 { '7' }
    else if d == 8 { '8' } else { '9' }
}

/// The decimal digits of `n`.
pub fn nat_chars(n: u64) -> (r: Vec<char>)
    ensures
        r@ == nat_text(n as nat),
{
    let mut out: Vec<char> = Vec::new();
    let mut m: u64 = n;
    while m >= 10
        invariant
            nat_text(n as nat) == nat_text(m as nat) + out@,
        decreases m,
    {
        let c = digit_of(m % 10);
        let ghost out0 = out@;
        out.insert(0, c);
        assert(nat_text(m as nat) == nat_text((m / 10) as nat).push(c));
        assert(nat_text((m / 10) as nat).push(c) + out0 =~= nat_text((m / 10) as nat) + out@);
        m = m / 10;
    }
    let c = digit_of(m);
    let ghost out0 = out@;
    out.insert(0, c);
    assert(seq![c] + out0 =~= out@);
    out
}

/// The decimal text of `n`.
pub fn int_chars(n: i64) -> (r: Vec<char>)
    ensures
        r@ == int_text(n as int),
{
    if n < 0 {
        let mag: u64 = if n == i64::MIN { 9223372036854775808u64 } else { (-n) as u64 };
        let d = nat_chars(mag);
        let mut r: Vec<char> = Vec::new();
        r.push('-');
        let mut k: usize = 0;
        while k < d.len()
            invariant
                k <= d.len(),
                r@ == seq!['-'] + d@.take(k as int),
            decreases d.len() - k,
        {
            r.push(d[k]);
            k = k + 1;
            assert(r@ =~= seq!['-'] + d@.take(k as int));
        }
        assert(d@.take(d.len() as int) =~= d@);
        r
    } else {
        nat_chars(n as u64)
    }
}

/// The decimal text of `n`.
pub fn int_string(n: i64) -> (r: String)
    ensures
        r@ == int_text(n as int),
{
    let c = int_chars(n);
    string_of(&c)
}

// ---------------------------------------------------------------------------
// Reading integers, booleans and characters
// ---------------------------------------------------------------------------

/// Whether `c` is an ASCII decimal digit.
pub open spec fn is_digit(c: char) -> bool {
    '0' <= c && c <= '9'
}

/// Whether every character of `s` is a decimal digit.
pub open spec fn all_digits(s: Seq<char>) -> bool {
    forall|i: int| 0 <= i < s.len() ==> is_digit(#[trigger] s[i])
}

/// The value of the decimal digits `s`.
pub open spec fn digits_value(s: Seq<char>) -> int
    decreases s.len(),
{
    if s.len() == 0 {
        0
    } else {
        digits_value(s.drop_last()) * 10 + (s.last() as int - '0' as int)
    }
}

/// The integer that `s` writes, in the syntax of `FromStr` for the integer
/// types: an optional `+` or `-`, then one or more decimal digits, nothing
/// else. `None` where `s` is not in that syntax; the range is not checked.
pub open spec fn integer_value(s: Seq<char>) -> Option<int> {
    if s.len() > 0 && (s[0] == '+' || s[0] == '-') {
        let d = s.skip(1);
        if d.len() > 0 && all_digits(d) {
            Some(if s[0] == '-' { -digits_value(d) } else { digits_value(d) })
        } else {
            None
        }
    } else if s.len() > 0 && all_digits(s) {
        Some(digits_value(s))
    } else {
        None
    }
}

/// What `s.parse::<i32>()` gives: the value where `s` writes an integer in
/// the range of `i32`, else `None`.
pub open spec fn parse_i32(s: Seq<char>) -> Option<i32> {
    match integer_value(s) {
        Some(v) => if i32::MIN <= v && v <= i32::MAX { Some(v as i32) } else { None },
        None => None,
    }
}

/// What `s.parse::<i64>()` gives.
pub open spec fn parse_i64(s: Seq<char>) -> Option<i64> {
    match integer_value(s) {
        Some(v) => if i64::MIN <= v && v <= i64::MAX { Some(v as i64) } else { None },
        None => None,
    }
}

/// What `s.parse::<bool>()` gives: only `true` and `false` are accepted.
pub open spec fn parse_bool(s: Seq<char>) -> Option<bool> {
    if s == seq!['t', 'r', 'u', 'e'] {
        Some(true)
    } else if s == seq!['f', 'a', 'l', 's', 'e'] {
        Some(false)
    } else {
        None
    }
}

/// What `s.parse::<char>()` gives: the character of a one-character text.
pub open spec fn parse_char(s: Seq<char>) -> Option<char> {
    if s.len() == 1 {
        Some(s[0])
    } else {
        None
    }
}

proof fn lemma_digits_prefix_grows(s: Seq<char>, k: int)
    requires
        0 <= k <= s.len(),
        all_digits(s),
    ensures
        digits_value(s.take(k)) <= digits_value(s),
        0 <= digits_value(s.take(k)),
    decreases s.len() - k,
{
    if k < s.len() {
        assert(s.drop_last().take(k) =~= s.take(k));
        assert(all_digits(s.drop_last()));
        assert(is_digit(s[s.len() - 1]));
        lemma_digits_prefix_grows(s.drop_last(), k);
        lemma_digits_nonneg(s.drop_last());
    } else {
        assert(s.take(k) =~= s);
        lemma_digits_nonneg(s);
    }
}

proof fn lemma_digits_nonneg(s: Seq<char>)
    requires
        all_digits(s),
    ensures
        0 <= digits_value(s),
    decreases s.len(),
{
    if s.len() > 0 {
        assert(all_digits(s.drop_last()));
        assert(is_digit(s[s.len() - 1]));
        lemma_digits_nonneg(s.drop_last());
    }
}

/// The value of the digits of `d` from position `start` on, if they are
/// all digits, there is at least one, and the value is at most `bound`.
fn digits_up_to(d: &Vec<char>, start: usize, bound: u64) -> (r: Option<u64>)
    requires
        start <= d.len(),
    ensures
        ({
            let t = d@.skip(start as int);
            match r {
                Some(v) => t.len() > 0 && all_digits(t) && v == digits_value(t) && v <= bound,
                None => !(t.len() > 0 && all_digits(t) && digits_value(t) <= bound),
            }
        }),
{
    let ghost t = d@.skip(start as int);
    if start == d.len() {
        return None;
    }
    let mut acc: u128 = 0;
    let mut i: usize = start;
    while i < d.len()
        invariant
            start <= i <= d.len(),
            t == d@.skip(start as int),
            all_digits(t.take(i - start)),
            acc == digits_value(t.take(i - start)),
            acc <= bound,
        decreases d.len() - i,
    {
        let c = d[i];
        if !('0' <= c && c <= '9') {
            assert(t[i - start] == c);
            return None;
        }
        let dv: u128 = (c as u32 - '0' as u32) as u128;
        let next = acc * 10 + dv;
        proof {
            assert(t.take(i + 1 - start).drop_last() =~= t.take(i - start));
            assert(t.take(i + 1 - start).last() == c);
            assert(all_digits(t.take(i + 1 - start)));
        }
        if next > bound as u128 {
            proof {
                if all_digits(t) {
                    lemma_digits_prefix_grows(t, i + 1 - start);
                }
            }
            assert(!(all_digits(t) && digits_value(t) <= bound));
            return None;
        }
        acc = next;
        i = i + 1;
    }
    assert(t.take(i - start) =~= t);
    Some(acc as u64)
}

/// The integer written by `s` if it lies in `lo..=hi`.
fn parse_in_range(s: &Vec<char>, lo: i64, hi: i64) -> (r: Option<i64>)
    requires
        lo < 0 < hi,
    ensures
        match r {
            Some(v) => integer_value(s@) == Some(v as int),
            None => !(integer_value(s@) matches Some(v) && lo <= v <= hi),
        },
        r matches Some(v) ==> lo <= v <= hi,
{
    if s.len() == 0 {
        return None;
    }
    let neg = s[0] == '-';
    let signed = s[0] == '+' || neg;
    let start: usize = if signed { 1 } else { 0 };
    let bound: u64 = if neg { ((-(lo + 1)) as u64) + 1 } else { hi as u64 };
    let got = digits_up_to(s, start, bound);
    proof {
        if !signed {
            assert(s@.skip(0) =~= s@);
        }
    }
    match got {
        Some(v) => {
            if neg {
                let r: i64 = if v == 0 { 0 } else { -((v - 1) as i64) - 1 };
                Some(r)
            } else {
                Some(v as i64)
            }
        },
        None => None,
    }
}

/// `s.parse::<i32>()`.
pub fn parse_i32_text(s: &str) -> (r: Option<i32>)
    ensures
        r == parse_i32(s@),
{
    let cs = chars_of(s);
    match parse_in_range(&cs, -2147483648, 2147483647) {
        Some(v) => Some(v as i32),
        None => None,
    }
}

/// `s.parse::<i64>()`.
pub fn parse_i64_text(s: &str) -> (r: Option<i64>)
    ensures
        r == parse_i64(s@),
{
    let cs = chars_of(s);
    parse_in_range(&cs, -9223372036854775808, 9223372036854775807)
}

/// `s.parse::<bool>()`.
pub fn parse_bool_text(s: &str) -> (r: Option<bool>)
    ensures
        r == parse_bool(s@),
{
    let cs = chars_of(s);
    let t: Vec<char> = vec!['t', 'r', 'u', 'e'];
    let f: Vec<char> = vec!['f', 'a', 'l', 's', 'e'];
    if chars_equal(&cs, &t) {
        assert(t@ =~= seq!['t', 'r', 'u', 'e']);
        Some(true)
    } else if chars_equal(&cs, &f) {
        assert(t@ =~= seq!['t', 'r', 'u', 'e']);
        assert(f@ =~= seq!['f', 'a', 'l', 's', 'e']);
        Some(false)
    } else {
        assert(t@ =~= seq!['t', 'r', 'u', 'e']);
        assert(f@ =~= seq!['f', 'a', 'l', 's', 'e']);
        None
    }
}

/// `s.parse::<char>()`.
pub fn parse_char_text(s: &str) -> (r: Option<char>)
    ensures
        r == parse_char(s@),
{
    let cs = chars_of(s);
    if cs.len() == 1 {
        Some(cs[0])
    } else {
        None
    }
}

// ---------------------------------------------------------------------------
// The syntax of floating-point literals
// ---------------------------------------------------------------------------

/// Whether `b` spells `lower` ignoring ASCII case, `upper` being the same
/// word in capitals.
pub open spec fn spells(b: Seq<char>, lower: Seq<char>, upper: Seq<char>) -> bool {
    b.len() == lower.len() && forall|i: int| 0 <= i < b.len() ==> #[trigger] b[i] == lower[i] || b[i]
        == upper[i]
}

/// Whether `b`, ignoring ASCII case, is `inf`, `infinity` or `nan`.
pub open spec fn is_float_word(b: Seq<char>) -> bool {
    ||| spells(b, seq!['i', 'n', 'f'], seq!['I', 'N', 'F'])
    ||| spells(
        b,
        seq!['i', 'n', 'f', 'i', 'n', 'i', 't', 'y'],
        seq!['I', 'N', 'F', 'I', 'N', 'I', 'T', 'Y'],
    )
    ||| spells(b, seq!['n', 'a', 'n'], seq!['N', 'A', 'N'])
}

/// Whether `m` is the digits of a decimal number with at most one point
/// and at least one digit.
pub open spec fn is_mantissa(m: Seq<char>) -> bool {
    &&& forall|i: int| 0 <= i < m.len() ==> is_digit(#[trigger] m[i]) || m[i] == '.'
    &&& forall|i: int, j: int| 0 <= i < m.len() && 0 <= j < m.len() && #[trigger] m[i] == '.'
        && #[trigger] m[j] == '.' ==> i == j
    &&& exists|i: int| 0 <= i < m.len() && is_digit(#[trigger] m[i])
}

/// Whether `e` is an exponent: `e` or `E`, an optional sign, one or more digits.
pub open spec fn is_exponent(e: Seq<char>) -> bool {
    e.len() >= 2 && (e[0] == 'e' || e[0] == 'E') && {
        let r = e.skip(1);
        let d = if r[0] == '+' || r[0] == '-' { r.skip(1) } else { r };
        d.len() > 0 && all_digits(d)
    }
}

/// Whether `b` is a decimal number with an optional exponent.
pub open spec fn is_decimal_number(b: Seq<char>) -> bool {
    exists|k: int|
        0 <= k <= b.len() && is_mantissa(#[trigger] b.take(k)) && (k == b.len() || is_exponent(
            b.skip(k),
        ))
}

/// Whether `s` is accepted by `FromStr` for `f32` and `f64`, whose grammar
/// the standard library documents: an optional sign, then `inf`, `infinity`
/// or `nan` in any case, or a decimal number with an optional exponent.
pub open spec fn is_float_text(s: Seq<char>) -> bool {
    let b = if s.len() > 0 && (s[0] == '+' || s[0] == '-') { s.skip(1) } else { s };
    is_float_word(b) || is_decimal_number(b)
}

fn spells_exec(b: &Vec<char>, start: usize, lower: &Vec<char>, upper: &Vec<char>) -> (r: bool)
    requires
        start <= b.len(),
        lower.len() == upper.len(),
    ensures
        r == spells(b@.skip(start as int), lower@, upper@),
{
    if b.len() - start != lower.len() {
        return false;
    }
    let mut i: usize = 0;
    while i < lower.len()
        invariant
            b.len() - start == lower.len() == upper.len(),
            start <= b.len(),
            i <= lower.len(),
            forall|k: int| 0 <= k < i ==> #[trigger] b@.skip(start as int)[k] == lower@[k] || b@.skip(start as int)[k] == upper@[k],
        decreases lower.len() - i,
    {
        let c = b[start + i];
        if c != lower[i] && c != upper[i] {
            assert(b@.skip(start as int)[i as int] == c);
            return false;
        }
        i = i + 1;
    }
    true
}

fn is_word_exec(b: &Vec<char>, start: usize) -> (r: bool)
    requires
        start <= b.len(),
    ensures
        r == is_float_word(b@.skip(start as int)),
{
    let l1: Vec<char> = vec!['i', 'n', 'f'];
    let u1: Vec<char> = vec!['I', 'N', 'F'];
    let l2: Vec<char> = vec!['i', 'n', 'f', 'i', 'n', 'i', 't', 'y'];
    let u2: Vec<char> = vec!['I', 'N', 'F', 'I', 'N', 'I', 'T', 'Y'];
    let l3: Vec<char> = vec!['n', 'a', 'n'];
    let u3: Vec<char> = vec!['N', 'A', 'N'];
    assert(l1@ =~= seq!['i', 'n', 'f']);
    assert(u1@ =~= seq!['I', 'N', 'F']);
    assert(l2@ =~= seq!['i', 'n', 'f', 'i', 'n', 'i', 't', 'y']);
    assert(u2@ =~= seq!['I', 'N', 'F', 'I', 'N', 'I', 'T', 'Y']);
    assert(l3@ =~= seq!['n', 'a', 'n']);
    assert(u3@ =~= seq!['N', 'A', 'N']);
    spells_exec(b, start, &l1, &u1) || spells_exec(b, start, &l2, &u2) || spells_exec(b, start, &l3, &u3)
}

fn is_number_exec(b: &Vec<char>, start: usize) -> (r: bool)
    requires
        start <= b.len(),
    ensures
        r == is_decimal_number(b@.skip(start as int)),
{
    let ghost t = b@.skip(start as int);
    // find the first exponent marker
    let mut k: usize = start;
    while k < b.len() && b[k] != 'e' && b[k] != 'E'
        invariant
            start <= k <= b.len(),
            t == b@.skip(start as int),
            forall|m: int| 0 <= m < k - start ==> t[m] != 'e' && t[m] != 'E',
        decreases b.len() - k,
    {
        k = k + 1;
    }
    let ghost kk: int = k - start;
    // check the mantissa
    let mut i: usize = start;
    let mut dots: usize = 0;
    let mut digits: bool = false;
    let mut ok: bool = true;
    let ghost mut dot_at: int = -1;
    while i < k
        invariant
            start <= i <= k <= b.len(),
            t == b@.skip(start as int),
            kk == k - start,
            dots <= 1,
            ok ==> forall|m: int| 0 <= m < i - start ==> is_digit(#[trigger] t[m]) || t[m] == '.',
            ok ==> (dots == 0 ==> forall|m: int| 0 <= m < i - start ==> t[m] != '.'),
            ok ==> (dots == 1 ==> 0 <= dot_at < i - start && t[dot_at] == '.' && forall|m: int|
                0 <= m < i - start && t[m] == '.' ==> m == dot_at),
            ok ==> (digits <==> exists|m: int| 0 <= m < i - start && is_digit(#[trigger] t[m])),
            !ok ==> !is_mantissa(t.take(kk)),
        decreases k - i,
    {
        let c = b[i];
        assert(t[i - start] == c);
        if ok {
            if '0' <= c && c <= '9' {
                digits = true;
            } else if c == '.' {
                if dots == 1 {
                    ok = false;
                    assert(t.take(kk)[dot_at] == '.' && t.take(kk)[i - start] == '.');
                } else {
                    dots = 1;
                    proof { dot_at = i - start; }
                }
            } else {
                ok = false;
                assert(t.take(kk)[i - start] == c);
            }
        }
        i = i + 1;
    }
    let mant_ok = ok && digits;
    proof {
        if mant_ok {
            assert forall|m: int| 0 <= m < kk implies is_digit(#[trigger] t.take(kk)[m]) || t.take(kk)[m] == '.' by {
                assert(t.take(kk)[m] == t[m]);
            }
            let w = choose|m: int| 0 <= m < i - start && is_digit(#[trigger] t[m]);
            assert(t.take(kk)[w] == t[w]);
            assert forall|x: int, y: int| 0 <= x < kk && 0 <= y < kk && #[trigger] t.take(kk)[x] == '.'
                && #[trigger] t.take(kk)[y] == '.' implies x == y by {
                assert(t.take(kk)[x] == t[x]);
                assert(t.take(kk)[y] == t[y]);
            }
            assert(is_mantissa(t.take(kk)));
        } else if ok {
            assert forall|m: int| 0 <= m < kk implies !is_digit(#[trigger] t.take(kk)[m]) by {
                assert(t.take(kk)[m] == t[m]);
            }
        }
    }
    // check the exponent
    let mut j: usize = if k < b.len() { k + 1 } else { k };
    if k < b.len() && j < b.len() && (b[j] == '+' || b[j] == '-') {
        j = j + 1;
    }
    let start_digits = j;
    let mut all: bool = true;
    while j < b.len()
        invariant
            k <= start_digits <= j <= b.len(),
            k < b.len() ==> k < start_digits,
            all ==> forall|m: int| start_digits <= m < j ==> is_digit(#[trigger] b@[m]),
            !all ==> exists|m: int| start_digits <= m < b.len() && !is_digit(#[trigger] b@[m]),
        decreases b.len() - j,
    {
        if !('0' <= b[j] && b[j] <= '9') {
            all = false;
        }
        j = j + 1;
    }
    let exp_ok = if k == b.len() { true } else { all && start_digits < b.len() };
    proof {
        assert(mant_ok == is_mantissa(t.take(kk)));
        if k < b.len() {
            let e = t.skip(kk);
            assert(e =~= b@.skip(k as int));
            assert(e[0] == b@[k as int]);
            if e.len() >= 2 {
                let r = e.skip(1);
                assert(r =~= b@.skip(k + 1));
                let d = if r[0] == '+' || r[0] == '-' { r.skip(1) } else { r };
                if r[0] == '+' || r[0] == '-' {
                    assert(d =~= b@.skip(k + 2));
                }
                assert(d =~= b@.skip(start_digits as int));
                if all && start_digits < b.len() {
                    assert forall|m: int| 0 <= m < d.len() implies is_digit(#[trigger] d[m]) by {
                        assert(d[m] == b@[start_digits + m]);
                    }
                }
                if !all {
                    let m = choose|m: int| start_digits <= m < b.len() && !is_digit(#[trigger] b@[m]);
                    assert(d[m - start_digits] == b@[m]);
                }
                assert(exp_ok == is_exponent(e));
            } else {
                assert(exp_ok == is_exponent(e));
            }
            assert(kk < t.len());
        } else {
            assert(kk == t.len());
        }
        assert(exp_ok == (kk == t.len() || is_exponent(t.skip(kk))));
        if mant_ok && exp_ok {
            assert(0 <= kk <= t.len() && is_mantissa(t.take(kk)) && (kk == t.len() || is_exponent(t.skip(kk))));
            assert(is_decimal_number(t));
        }
        // uniqueness of the split point
        if is_decimal_number(t) {
            let w = choose|w: int| 0 <= w <= t.len() && is_mantissa(#[trigger] t.take(w)) && (w == t.len()
                || is_exponent(t.skip(w)));
            if w < kk {
                assert(t.skip(w)[0] == t[w]);
            } else if w > kk {
                assert(t.take(w)[kk] == t[kk]);
            }
            assert(w == kk);
        }
    }
    mant_ok && exp_ok
}

/// Whether `s` parses as `f32` and as `f64`.
pub fn float_text_ok(s: &str) -> (r: bool)
    ensures
        r == is_float_text(s@),
{
    let b = chars_of(s);
    let start: usize = if b.len() > 0 && (b[0] == '+' || b[0] == '-') { 1 } else { 0 };
    proof {
        if start == 0 {
            assert(b@.skip(0) =~= b@);
        }
    }
    is_word_exec(&b, start) || is_number_exec(&b, start)
}

} // verus!
