//! Ordering rows by the text of a column, grouping rows by equal text, and
//! the aggregate functions applied to the groups.
use vstd::prelude::*;
use crate::output::{line_of, output_views, text_line, Output, OutputView};
use crate::table::{find, is_first, lemma_find, lemma_first_unique};
use crate::text::{char_rows, int_string, int_text, parse_i32, parse_i32_text, string_of, texts};

verus! {

// ---------------------------------------------------------------------------
// The order of texts
// ---------------------------------------------------------------------------

/// Whether `a` comes strictly before `b` in the order of `String`'s `Ord`:
/// lexicographic by character.
pub open spec fn text_lt(a: Seq<char>, b: Seq<char>) -> bool
    decreases a.len(),
{
    if b.len() == 0 {
        false
    } else if a.len() == 0 {
        true
    } else if a[0] != b[0] {
        a[0] < b[0]
    } else {
        text_lt(a.skip(1), b.skip(1))
    }
}

/// No text comes before itself, and of two different texts one comes first.
pub proof fn lemma_text_lt_total(a: Seq<char>, b: Seq<char>)
    ensures
        !text_lt(a, a),
        a != b ==> (text_lt(a, b) || text_lt(b, a)),
        !(text_lt(a, b) && text_lt(b, a)),
    decreases a.len(),
{
    if a.len() > 0 && b.len() > 0 {
        lemma_text_lt_total(a.skip(1), b.skip(1));
        lemma_text_lt_total(a.skip(1), a.skip(1));
        if a[0] == b[0] && a != b {
            assert(a.skip(1) != b.skip(1)) by {
                if a.skip(1) == b.skip(1) {
                    assert(a =~= seq![a[0]] + a.skip(1));
                    assert(b =~= seq![b[0]] + b.skip(1));
                }
            }
        }
    } else if a.len() == 0 && b.len() == 0 {
        assert(a =~= b);
    } else if a.len() > 0 {
        lemma_text_lt_total(a.skip(1), a.skip(1));
    }
}

/// The order of texts is transitive.
pub proof fn lemma_text_lt_trans(a: Seq<char>, b: Seq<char>, c: Seq<char>)
    requires
        text_lt(a, b),
        text_lt(b, c),
    ensures
        text_lt(a, c),
    decreases a.len(),
{
    if a.len() > 0 && b.len() > 0 && c.len() > 0 && a[0] == b[0] && b[0] == c[0] {
        lemma_text_lt_trans(a.skip(1), b.skip(1), c.skip(1));
    }
}

/// How two texts compare: -1, 0 or 1.
pub fn compare_text(a: &Vec<char>, b: &Vec<char>) -> (r: i8)
    ensures
        -1 <= r <= 1,
        r == -1 <==> text_lt(a@, b@),
        r == 1 <==> text_lt(b@, a@),
        r == 0 <==> a@ == b@,
{
    proof {
        lemma_text_lt_total(a@, b@);
    }
    let mut i: usize = 0;
    assert(a@.skip(0) =~= a@);
    assert(b@.skip(0) =~= b@);
    while i < a.len() && i < b.len() && a[i] == b[i]
        invariant
            i <= a.len(),
            i <= b.len(),
            a@.take(i as int) == b@.take(i as int),
            text_lt(a@, b@) == text_lt(a@.skip(i as int), b@.skip(i as int)),
            text_lt(b@, a@) == text_lt(b@.skip(i as int), a@.skip(i as int)),
        decreases a.len() - i,
    {
        proof {
            let sa = a@.skip(i as int);
            let sb = b@.skip(i as int);
            assert(sa.skip(1) =~= a@.skip(i + 1));
            assert(sb.skip(1) =~= b@.skip(i + 1));
            assert(a@.take(i + 1) =~= a@.take(i as int).push(a@[i as int]));
            assert(b@.take(i + 1) =~= b@.take(i as int).push(b@[i as int]));
        }
        i = i + 1;
    }
    let ghost sa = a@.skip(i as int);
    let ghost sb = b@.skip(i as int);
    if i == a.len() && i == b.len() {
        assert(a@ =~= a@.take(i as int));
        assert(b@ =~= b@.take(i as int));
        0
    } else if i == a.len() {
        assert(a@ =~= a@.take(i as int));
        assert(a@.len() < b@.len());
        assert(sa.len() == 0 && sb.len() > 0);
        -1
    } else if i == b.len() {
        assert(b@ =~= b@.take(i as int));
        assert(sb.len() == 0 && sa.len() > 0);
        1
    } else {
        assert(sa[0] == a@[i as int] && sb[0] == b@[i as int]);
        if a[i] < b[i] {
            assert(a@[i as int] != b@[i as int]);
            -1
        } else {
            assert(a@[i as int] != b@[i as int]);
            1
        }
    }
}

// ---------------------------------------------------------------------------
// Stable ordering of rows
// ---------------------------------------------------------------------------

/// Whether row `a` comes before row `b` when rows are ordered by their keys
/// and rows with equal keys keep their order.
pub open spec fn row_before(keys: Seq<Seq<char>>, a: int, b: int) -> bool {
    text_lt(keys[a], keys[b]) || (keys[a] == keys[b] && a < b)
}

/// Whether `p` lists the rows `0..n` in the order of a stable sort by
/// their keys, as `slice::sort_by` gives it.
pub open spec fn stably_sorted(keys: Seq<Seq<char>>, p: Seq<usize>) -> bool {
    &&& p.len() == keys.len()
    &&& forall|i: int| 0 <= i < p.len() ==> #[trigger] p[i] < keys.len()
    &&& forall|i: int, j: int| 0 <= i < j < p.len() ==> row_before(keys, #[trigger] p[i] as int, #[trigger] p[j] as int)
}

proof fn lemma_row_before_trans(keys: Seq<Seq<char>>, a: int, b: int, c: int)
    requires
        row_before(keys, a, b),
        row_before(keys, b, c),
    ensures
        row_before(keys, a, c),
{
    if text_lt(keys[a], keys[b]) && text_lt(keys[b], keys[c]) {
        lemma_text_lt_trans(keys[a], keys[b], keys[c]);
    }
}

/// The rows `0..keys.len()` in the order of a stable sort by their keys.
pub fn stable_order(keys: &Vec<Vec<char>>) -> (p: Vec<usize>)
    ensures
        stably_sorted(crate::text::char_rows(keys@), p@),
{
    let ghost ks = crate::text::char_rows(keys@);
    let mut out: Vec<usize> = Vec::new();
    let mut k: usize = 0;
    while k < keys.len()
        invariant
            ks == crate::text::char_rows(keys@),
            k <= keys.len(),
            out@.len() == k,
            forall|i: int| 0 <= i < out@.len() ==> #[trigger] out@[i] < k,
            forall|i: int, j: int| 0 <= i < j < out@.len() ==> row_before(ks, #[trigger] out@[i] as int, #[trigger] out@[j] as int),
        decreases keys.len() - k,
    {
        // the first position whose row must come after row k
        let mut pos: usize = 0;
        loop
            invariant_except_break
                ks == crate::text::char_rows(keys@),
                k < keys.len(),
                pos <= out@.len(),
                out@.len() == k,
                forall|i: int| 0 <= i < out@.len() ==> #[trigger] out@[i] < k,
                forall|i: int| 0 <= i < pos ==> row_before(ks, #[trigger] out@[i] as int, k as int),
            ensures
                pos <= out@.len(),
                forall|i: int| 0 <= i < pos ==> row_before(ks, #[trigger] out@[i] as int, k as int),
                pos < out@.len() ==> row_before(ks, k as int, out@[pos as int] as int),
            decreases out.len() - pos,
        {
            if pos >= out.len() {
                break;
            }
            let c = compare_text(&keys[out[pos]], &keys[k]);
            proof {
                assert(ks[out@[pos as int] as int] == keys@[out@[pos as int] as int]@);
                assert(ks[k as int] == keys@[k as int]@);
            }
            if c > 0 {
                break;
            }
            pos = pos + 1;
        }
        proof {
            if pos < out.len() {
                let r = out@[pos as int] as int;
                assert forall|i: int| pos <= i < out@.len() implies row_before(ks, k as int, #[trigger] out@[i] as int) by {
                    if i > pos {
                        lemma_row_before_trans(ks, k as int, r, out@[i] as int);
                    }
                }
            }
        }
        let ghost o0 = out@;
        out.insert(pos, k);
        proof {
            assert forall|i: int, j: int| 0 <= i < j < out@.len() implies row_before(ks, #[trigger] out@[i] as int, #[trigger] out@[j] as int) by {
                if j < pos {
                    assert(out@[i] == o0[i] && out@[j] == o0[j]);
                } else if j == pos {
                    assert(out@[i] == o0[i]);
                } else if i < pos {
                    assert(out@[i] == o0[i] && out@[j] == o0[j - 1]);
                } else if i == pos {
                    assert(out@[j] == o0[j - 1]);
                } else {
                    assert(out@[i] == o0[i - 1] && out@[j] == o0[j - 1]);
                }
            }
            assert forall|i: int| 0 <= i < out@.len() implies #[trigger] out@[i] < k + 1 by {
                if i < pos {
                    assert(out@[i] == o0[i]);
                } else if i > pos {
                    assert(out@[i] == o0[i - 1]);
                }
            }
        }
        k = k + 1;
    }
    out
}

/// A stable order lists every row exactly once.
pub proof fn lemma_stably_sorted_permutation(keys: Seq<Seq<char>>, p: Seq<usize>)
    requires
        stably_sorted(keys, p),
        keys.len() <= usize::MAX,
    ensures
        forall|i: int, j: int| 0 <= i < j < p.len() ==> p[i] != p[j],
        forall|r: usize| r < keys.len() ==> #[trigger] p.contains(r),
{
    assert forall|i: int, j: int| 0 <= i < j < p.len() implies p[i] != p[j] by {
        assert(row_before(keys, p[i] as int, p[j] as int));
        lemma_text_lt_total(keys[p[i] as int], keys[p[i] as int]);
    }
    lemma_distinct_covers(p, keys.len());
}

proof fn lemma_distinct_covers(p: Seq<usize>, n: nat)
    requires
        n <= usize::MAX,
        p.len() == n,
        forall|i: int| 0 <= i < p.len() ==> #[trigger] p[i] < n,
        forall|i: int, j: int| 0 <= i < j < p.len() ==> p[i] != p[j],
    ensures
        forall|r: usize| r < n ==> #[trigger] p.contains(r),
{
    let s = p.to_set();
    let full = Set::new(|r: usize| r < n);
    assert(s.subset_of(full));
    assert(p.no_duplicates()) by {
        assert forall|i: int, j: int| 0 <= i < p.len() && 0 <= j < p.len() && i != j implies p[i] != p[j] by {
            if i > j {
                assert(p[j] != p[i]);
            }
        }
    }
    p.unique_seq_to_set();
    assert(full =~= Set::new(|r: usize| r < n));
    lemma_range_card(n);
    assert forall|r: usize| r < n implies #[trigger] p.contains(r) by {
        if !p.contains(r) {
            assert(!s.contains(r));
            assert(s.subset_of(full.remove(r)));
            vstd::set_lib::lemma_len_subset(s, full.remove(r));
            assert(full.contains(r));
        }
    }
}

proof fn lemma_range_card(n: nat)
    requires
        n <= usize::MAX,
    ensures
        Set::new(|r: usize| r < n).finite(),
        Set::new(|r: usize| r < n).len() == n,
    decreases n,
{
    if n == 0 {
        assert(Set::new(|r: usize| r < n) =~= Set::<usize>::empty());
    } else {
        lemma_range_card((n - 1) as nat);
        assert(Set::new(|r: usize| r < n) =~= Set::new(|r: usize| r < (n - 1) as nat).insert((n - 1) as usize));
    }
}

// ---------------------------------------------------------------------------
// Grouping rows by equal keys
// ---------------------------------------------------------------------------

/// The rows with one key, in increasing order.
pub struct Group {
    pub key: String,
    pub rows: Vec<usize>,
}

pub struct GroupView {
    pub key: Seq<char>,
    pub rows: Seq<usize>,
}

impl View for Group {
    type V = GroupView;

    open spec fn view(&self) -> GroupView {
        GroupView { key: self.key@, rows: self.rows@ }
    }
}

pub open spec fn group_views(v: Seq<Group>) -> Seq<GroupView> {
    Seq::new(v.len(), |i: int| v[i]@)
}

pub open spec fn group_keys(g: Seq<GroupView>) -> Seq<Seq<char>> {
    Seq::new(g.len(), |i: int| g[i].key)
}

/// The groups of rows with equal keys, in the order their keys first occur,
/// as an entry map filled row by row gives them.
pub open spec fn grouped(keys: Seq<Seq<char>>) -> Seq<GroupView>
    decreases keys.len(),
{
    if keys.len() == 0 {
        Seq::empty()
    } else {
        let g = grouped(keys.drop_last());
        let r = (keys.len() - 1) as usize;
        match find(group_keys(g), keys.last()) {
            Some(j) => g.update(j, GroupView { key: g[j].key, rows: g[j].rows.push(r) }),
            None => g.push(GroupView { key: keys.last(), rows: seq![r] }),
        }
    }
}

/// The groups of the rows `0..keys.len()` by equal key.
pub fn group_rows(keys: &Vec<String>) -> (g: Vec<Group>)
    ensures
        group_views(g@) == grouped(texts(keys@)),
{
    let mut g: Vec<Group> = Vec::new();
    let mut r: usize = 0;
    while r < keys.len()
        invariant
            r <= keys.len(),
            group_views(g@) == grouped(texts(keys@).take(r as int)),
        decreases keys.len() - r,
    {
        let ghost ks = texts(keys@).take(r + 1);
        let ghost g0 = group_views(g@);
        proof {
            assert(ks.drop_last() =~= texts(keys@).take(r as int));
            assert(ks.last() == keys@[r as int]@);
        }
        let mut j: usize = 0;
        let mut found: bool = false;
        loop
            invariant_except_break
                j <= g.len(),
                r < keys.len(),
                g0 == group_views(g@),
                !found,
                forall|m: int| 0 <= m < j ==> group_keys(g0)[m] != keys@[r as int]@,
            ensures
                j <= g.len(),
                g0 == group_views(g@),
                found ==> j < g.len() && group_keys(g0)[j as int] == keys@[r as int]@,
                forall|m: int| 0 <= m < j ==> group_keys(g0)[m] != keys@[r as int]@,
                !found ==> j == g.len(),
            decreases g.len() - j,
        {
            if j >= g.len() {
                break;
            }
            if g[j].key == keys[r] {
                found = true;
                break;
            }
            j = j + 1;
        }
        proof {
            lemma_find(group_keys(g0), ks.last());
            if found {
                assert(is_first(group_keys(g0), ks.last(), j as int));
                lemma_first_unique(group_keys(g0), ks.last(), j as int, find(group_keys(g0), ks.last())->0);
            }
        }
        if found {
            let mut grp = Group { key: String::new(), rows: Vec::new() };
            std::mem::swap(&mut grp, &mut g[j]);
            grp.rows.push(r);
            g.set(j, grp);
            proof {
                assert(group_views(g@) =~= g0.update(
                    j as int,
                    GroupView { key: g0[j as int].key, rows: g0[j as int].rows.push(r) },
                ));
            }
        } else {
            let mut rows: Vec<usize> = Vec::new();
            rows.push(r);
            g.push(Group { key: keys[r].clone(), rows });
            proof {
                assert(rows@ =~= seq![r]);
                assert(group_views(g@) =~= g0.push(GroupView { key: ks.last(), rows: seq![r] }));
            }
        }
        r = r + 1;
    }
    assert(texts(keys@).take(r as int) =~= texts(keys@));
    g
}

// ---------------------------------------------------------------------------
// Aggregates
// ---------------------------------------------------------------------------

/// The integer a value reads as, zero where it does not read as an `i32`.
pub open spec fn int_or_zero(v: Seq<char>) -> int {
    match parse_i32(v) {
        Some(x) => x as int,
        None => 0,
    }
}

/// Whether every row lies below `n`.
pub open spec fn rows_below(rows: Seq<usize>, n: nat) -> bool {
    forall|i: int| 0 <= i < rows.len() ==> #[trigger] rows[i] < n
}

/// The integers the rows' values read as.
pub open spec fn row_ints(values: Seq<Seq<char>>, rows: Seq<usize>) -> Seq<int> {
    Seq::new(rows.len(), |i: int| int_or_zero(values[rows[i] as int]))
}

/// The sum of the integers.
pub open spec fn total(xs: Seq<int>) -> int
    decreases xs.len(),
{
    if xs.len() == 0 {
        0
    } else {
        total(xs.drop_last()) + xs.last()
    }
}

/// Whether every running sum of the integers, taken in order, fits an `i32`.
pub open spec fn sums_fit(xs: Seq<int>) -> bool {
    forall|k: int| 0 < k <= xs.len() ==> i32::MIN <= #[trigger] total(xs.take(k)) <= i32::MAX
}

/// The least of the integers, zero for none.
pub open spec fn least(xs: Seq<int>) -> int
    decreases xs.len(),
{
    if xs.len() == 0 {
        0
    } else if xs.len() == 1 {
        xs[0]
    } else {
        let m = least(xs.drop_last());
        if xs.last() < m { xs.last() } else { m }
    }
}

/// The greatest of the integers, zero for none.
pub open spec fn greatest(xs: Seq<int>) -> int
    decreases xs.len(),
{
    if xs.len() == 0 {
        0
    } else if xs.len() == 1 {
        xs[0]
    } else {
        let m = greatest(xs.drop_last());
        if xs.last() > m { xs.last() } else { m }
    }
}

/// The line `For group <key>: <name> = <value>`.
pub open spec fn result_line(key: Seq<char>, name: Seq<char>, value: int) -> OutputView {
    text_line("For group "@ + key + ": "@ + name + " = "@ + int_text(value))
}

/// What applying `function` to a group shows: `None` where the program
/// stops there, as a row lies beyond the values or a running sum leaves
/// the range of `i32`.
pub open spec fn group_result(function: Seq<char>, g: GroupView, values: Seq<Seq<char>>) -> Option<OutputView> {
    let xs = row_ints(values, g.rows);
    if function == "count"@ {
        Some(result_line(g.key, "COUNT"@, g.rows.len() as int))
    } else if function == "sum"@ || function == "avg"@ || function == "min"@ || function == "max"@ {
        if !rows_below(g.rows, values.len()) {
            None
        } else if function == "sum"@ {
            if sums_fit(xs) { Some(result_line(g.key, "SUM"@, total(xs))) } else { None }
        } else if function == "avg"@ {
            Some(OutputView::Average {
                group: g.key,
                values: Seq::new(g.rows.len(), |i: int| values[g.rows[i] as int]),
            })
        } else if function == "min"@ {
            Some(result_line(g.key, "MIN"@, least(xs)))
        } else {
            Some(result_line(g.key, "MAX"@, greatest(xs)))
        }
    } else {
        Some(text_line("Unknown function: "@ + function))
    }
}

/// The lines shown for the groups, in order, up to the first group where
/// the program stops, and whether it stops.
pub open spec fn aggregate_lines(function: Seq<char>, groups: Seq<GroupView>, values: Seq<Seq<char>>) -> (Seq<OutputView>, bool)
    decreases groups.len(),
{
    if groups.len() == 0 {
        (Seq::empty(), false)
    } else {
        let (before, stopped) = aggregate_lines(function, groups.drop_last(), values);
        if stopped {
            (before, true)
        } else {
            match group_result(function, groups.last(), values) {
                Some(o) => (before.push(o), false),
                None => (before, true),
            }
        }
    }
}

fn int_line(key: &String, name: &str, value: i64) -> (o: Output)
    ensures
        o@ == result_line(key@, name@, value as int),
{
    let mut t = String::from_str("For group ");
    t.append(key.as_str());
    t.append(": ");
    t.append(name);
    t.append(" = ");
    let v = int_string(value);
    t.append(v.as_str());
    line_of(t)
}

/// The integers the values at `rows` read as, where every row lies below
/// the number of values.
fn ints_at(values: &Vec<String>, rows: &Vec<usize>) -> (r: Option<Vec<i32>>)
    ensures
        r is Some <==> rows_below(rows@, values@.len()),
        r matches Some(v) ==> v@.len() == rows@.len() && forall|i: int| 0 <= i < v@.len() ==> #[trigger] v@[i] as int == row_ints(texts(values@), rows@)[i],
{
    let mut out: Vec<i32> = Vec::new();
    let mut i: usize = 0;
    while i < rows.len()
        invariant
            i <= rows.len(),
            out@.len() == i,
            rows_below(rows@.take(i as int), values@.len()),
            forall|k: int| 0 <= k < i ==> #[trigger] out@[k] as int == row_ints(texts(values@), rows@)[k],
        decreases rows.len() - i,
    {
        if rows[i] >= values.len() {
            assert(!(rows@[i as int] < values@.len()));
            return None;
        }
        let x = match parse_i32_text(values[rows[i]].as_str()) {
            Some(x) => x,
            None => 0,
        };
        proof {
            assert(texts(values@)[rows@[i as int] as int] == values@[rows@[i as int] as int]@);
        }
        out.push(x);
        proof {
            assert forall|k: int| 0 <= k < i + 1 implies #[trigger] rows@.take(i + 1)[k] < values@.len() by {
                if k < i {
                    assert(rows@.take(i + 1)[k] == rows@.take(i as int)[k]);
                }
            }
        }
        i = i + 1;
    }
    assert(rows@.take(i as int) =~= rows@);
    Some(out)
}

proof fn lemma_total_take(xs: Seq<int>, k: int)
    requires
        0 <= k < xs.len(),
    ensures
        total(xs.take(k + 1)) == total(xs.take(k)) + xs[k],
{
    assert(xs.take(k + 1).drop_last() =~= xs.take(k));
}

/// The sum of the integers, where every running sum fits an `i32`.
fn checked_total(xs: &Vec<i32>) -> (r: Option<i64>)
    ensures
        ({
            let s = Seq::new(xs@.len(), |i: int| xs@[i] as int);
            &&& r is Some <==> sums_fit(s)
            &&& r matches Some(v) ==> v == total(s)
        }),
{
    let ghost s = Seq::new(xs@.len(), |i: int| xs@[i] as int);
    let mut acc: i64 = 0;
    let mut i: usize = 0;
    assert(s.take(0) =~= Seq::<int>::empty());
    while i < xs.len()
        invariant
            s == Seq::new(xs@.len(), |i: int| xs@[i] as int),
            i <= xs.len(),
            acc == total(s.take(i as int)),
            i32::MIN <= acc <= i32::MAX,
            forall|k: int| 0 < k <= i ==> i32::MIN <= #[trigger] total(s.take(k)) <= i32::MAX,
        decreases xs.len() - i,
    {
        proof {
            lemma_total_take(s, i as int);
        }
        let next: i64 = acc + xs[i] as i64;
        if next < -2147483648 || next > 2147483647 {
            assert(total(s.take(i + 1)) == next);
            return None;
        }
        acc = next;
        i = i + 1;
    }
    assert(s.take(i as int) =~= s);
    Some(acc)
}

proof fn lemma_least_step(xs: Seq<int>, k: int)
    requires
        0 < k < xs.len(),
    ensures
        least(xs.take(k + 1)) == if xs[k] < least(xs.take(k)) { xs[k] } else { least(xs.take(k)) },
        greatest(xs.take(k + 1)) == if xs[k] > greatest(xs.take(k)) { xs[k] } else { greatest(xs.take(k)) },
{
    assert(xs.take(k + 1).drop_last() =~= xs.take(k));
}

/// The least and greatest of the integers, zero for none.
fn least_greatest(xs: &Vec<i32>) -> (r: (i32, i32))
    ensures
        ({
            let s = Seq::new(xs@.len(), |i: int| xs@[i] as int);
            r.0 == least(s) && r.1 == greatest(s)
        }),
{
    let ghost s = Seq::new(xs@.len(), |i: int| xs@[i] as int);
    if xs.len() == 0 {
        return (0, 0);
    }
    let mut lo: i32 = xs[0];
    let mut hi: i32 = xs[0];
    let mut i: usize = 1;
    assert(s.take(1) =~= seq![s[0]]);
    while i < xs.len()
        invariant
            s == Seq::new(xs@.len(), |i: int| xs@[i] as int),
            1 <= i <= xs.len(),
            lo == least(s.take(i as int)),
            hi == greatest(s.take(i as int)),
        decreases xs.len() - i,
    {
        proof {
            lemma_least_step(s, i as int);
        }
        if xs[i] < lo {
            lo = xs[i];
        }
        if xs[i] > hi {
            hi = xs[i];
        }
        i = i + 1;
    }
    assert(s.take(i as int) =~= s);
    (lo, hi)
}

/// What applying `function` to one group shows, or `None` where the
/// program stops.
pub fn group_result_of(function: &String, g: &Group, values: &Vec<String>) -> (r: Option<Output>)
    ensures
        match r {
            Some(o) => group_result(function@, g@, texts(values@)) == Some(o@),
            None => group_result(function@, g@, texts(values@)) is None,
        },
{
    let f = function.as_str();
    let is_count = crate::text::text_is(f, "count");
    let is_sum = crate::text::text_is(f, "sum");
    let is_avg = crate::text::text_is(f, "avg");
    let is_min = crate::text::text_is(f, "min");
    let is_max = crate::text::text_is(f, "max");
    if is_count {
        let mut t = String::from_str("For group ");
        t.append(g.key.as_str());
        t.append(": ");
        t.append("COUNT");
        t.append(" = ");
        let v = crate::text::string_of(&crate::text::nat_chars(g.rows.len() as u64));
        t.append(v.as_str());
        return Some(line_of(t));
    }
    if !(is_sum || is_avg || is_min || is_max) {
        let mut t = String::from_str("Unknown function: ");
        t.append(f);
        return Some(line_of(t));
    }
    let xs = match ints_at(values, &g.rows) {
        Some(xs) => xs,
        None => {
            return None;
        },
    };
    let ghost s = Seq::new(xs@.len(), |i: int| xs@[i] as int);
    assert(s =~= row_ints(texts(values@), g.rows@));
    if is_sum {
        match checked_total(&xs) {
            Some(v) => Some(int_line(&g.key, "SUM", v)),
            None => None,
        }
    } else if is_avg {
        let mut vs: Vec<String> = Vec::new();
        let mut i: usize = 0;
        while i < g.rows.len()
            invariant
                i <= g.rows.len(),
                rows_below(g.rows@, values@.len()),
                vs@.len() == i,
                forall|k: int| 0 <= k < i ==> #[trigger] vs@[k]@ == values@[g.rows@[k] as int]@,
            decreases g.rows.len() - i,
        {
            assert(g.rows@[i as int] < values@.len());
            vs.push(values[g.rows[i]].clone());
            i = i + 1;
        }
        let o = Output::Average { group: g.key.clone(), values: vs };
        proof {
            assert(texts(vs@) =~= Seq::new(g.rows@.len(), |i: int| texts(values@)[g.rows@[i] as int]));
        }
        Some(o)
    } else {
        let (lo, hi) = least_greatest(&xs);
        if is_min {
            Some(int_line(&g.key, "MIN", lo as i64))
        } else {
            Some(int_line(&g.key, "MAX", hi as i64))
        }
    }
}

/// The lines that applying `function` to the groups shows, and whether the
/// program stops after them.
pub fn aggregate(function: &String, groups: &Vec<Group>, values: &Vec<String>) -> (r: (Vec<Output>, bool))
    ensures
        (output_views(r.0@), r.1) == aggregate_lines(function@, group_views(groups@), texts(values@)),
{
    let mut out: Vec<Output> = Vec::new();
    let mut i: usize = 0;
    while i < groups.len()
        invariant
            i <= groups.len(),
            aggregate_lines(function@, group_views(groups@).take(i as int), texts(values@))
                == (output_views(out@), false),
        decreases groups.len() - i,
    {
        let ghost gs = group_views(groups@).take(i + 1);
        assert(gs.drop_last() =~= group_views(groups@).take(i as int));
        assert(gs.last() == groups@[i as int]@);
        match group_result_of(function, &groups[i], values) {
            Some(o) => {
                let ghost o0 = output_views(out@);
                out.push(o);
                assert(output_views(out@) =~= o0.push(o@));
            },
            None => {
                proof {
                    lemma_aggregate_stops(function@, group_views(groups@), texts(values@), i + 1);
                }
                return (out, true);
            },
        }
        i = i + 1;
    }
    assert(group_views(groups@).take(i as int) =~= group_views(groups@));
    (out, false)
}

proof fn lemma_aggregate_stops(f: Seq<char>, gs: Seq<GroupView>, values: Seq<Seq<char>>, k: int)
    requires
        0 < k <= gs.len(),
        aggregate_lines(f, gs.take(k), values).1,
    ensures
        aggregate_lines(f, gs, values) == aggregate_lines(f, gs.take(k), values),
    decreases gs.len() - k,
{
    if k < gs.len() {
        assert(gs.take(k + 1).drop_last() =~= gs.take(k));
        lemma_aggregate_stops(f, gs, values, k + 1);
    } else {
        assert(gs.take(k) =~= gs);
    }
}

} // verus!
