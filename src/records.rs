//! Line records: the lines that captured byte ranges touch (grep style), or
//! the line and column at which each range starts (vimgrep style).
use vstd::prelude::*;
use vstd::seq_lib::to_multiset_insert;
use crate::lines::{
    line_of, column_of, lines, strip_cr, line_text, line_count, lemma_line_of_bounded,
    lemma_line_of_monotone, lemma_lines_len, split_lines, CARRIAGE_RETURN, NEWLINE,
};

verus! {

/// A byte range `[start, end)` lies inside a text of `len` bytes.
pub open spec fn valid_range(len: nat, g: (usize, usize)) -> bool {
    g.0 <= g.1 && g.1 <= len
}

pub open spec fn valid_ranges(len: nat, gs: Seq<(usize, usize)>) -> bool {
    forall|k: int| 0 <= k < gs.len() ==> valid_range(len, #[trigger] gs[k])
}

/// The last 0-based line that range `g` touches; an empty range touches the
/// line on which it stands.
pub open spec fn last_line_of(t: Seq<u8>, g: (usize, usize)) -> nat {
    if g.1 > g.0 {
        line_of(t, g.1 - 1)
    } else {
        line_of(t, g.0 as int)
    }
}

/// Range `g` touches the 0-based line `l` of `t`.
pub open spec fn range_covers(t: Seq<u8>, g: (usize, usize), l: int) -> bool {
    line_of(t, g.0 as int) <= l <= last_line_of(t, g)
}

/// One of the first `m` ranges touches line `l`.
pub open spec fn covered_by_first(t: Seq<u8>, gs: Seq<(usize, usize)>, m: int, l: int) -> bool {
    exists|k: int| 0 <= k < m && range_covers(t, #[trigger] gs[k], l)
}

/// Some range touches line `l`.
pub open spec fn covered(t: Seq<u8>, gs: Seq<(usize, usize)>, l: int) -> bool {
    covered_by_first(t, gs, gs.len() as int, l)
}

/// The 1-based (line, column) at which byte offset `p` of `t` stands.
pub open spec fn position_of(t: Seq<u8>, p: int) -> (int, int) {
    ((line_of(t, p) + 1) as int, (column_of(t, p) + 1) as int)
}

/// Lexicographic order on (line, column) positions.
pub open spec fn position_le(a: (int, int), b: (int, int)) -> bool {
    a.0 < b.0 || (a.0 == b.0 && a.1 <= b.1)
}

pub open spec fn positions_sorted(s: Seq<(int, int)>) -> bool {
    forall|i: int, j: int| 0 <= i < j < s.len() ==> position_le(s[i], s[j])
}

/// The positions at which the ranges start, in the ranges' order.
pub open spec fn start_positions(t: Seq<u8>, gs: Seq<(usize, usize)>) -> Seq<(int, int)> {
    gs.map_values(|g: (usize, usize)| position_of(t, g.0 as int))
}

/// One printable line: its 1-based number, the 1-based column of a match
/// start (vimgrep style only) and the line's text.
pub struct LineRecord {
    pub line: usize,
    pub column: Option<usize>,
    pub text: Vec<u8>,
}

/// The (line, column) of a record; column 0 where it has none.
pub open spec fn record_position(r: LineRecord) -> (int, int) {
    (r.line as int, match r.column {
        Some(c) => c as int,
        None => 0,
    })
}

/// `r` is the grep-style output for ranges `gs` of text `t`: each line that
/// some range touches, once, in ascending order, with the line's text.
pub open spec fn is_grep_output(t: Seq<u8>, gs: Seq<(usize, usize)>, r: Seq<LineRecord>) -> bool {
    &&& forall|i: int|
        0 <= i < r.len() ==> {
            &&& (#[trigger] r[i]).column.is_none()
            &&& 1 <= r[i].line
            &&& covered(t, gs, r[i].line - 1)
            &&& r[i].text@ == line_text(t, r[i].line - 1)
        }
    &&& forall|i: int, j: int| 0 <= i < j < r.len() ==> r[i].line < r[j].line
    &&& forall|l: int| covered(t, gs, l) ==> exists|i: int| 0 <= i < r.len() && r[i].line == l + 1
}

/// `r` is the vimgrep-style output for ranges `gs` of text `t`: one record
/// per range at the position where it starts, in ascending position order,
/// with the text of that line.
pub open spec fn is_vimgrep_output(t: Seq<u8>, gs: Seq<(usize, usize)>, r: Seq<LineRecord>) -> bool {
    &&& forall|i: int|
        0 <= i < r.len() ==> {
            &&& (#[trigger] r[i]).column.is_some()
            &&& 1 <= r[i].line
            &&& r[i].text@ == line_text(t, r[i].line - 1)
        }
    &&& positions_sorted(record_positions(r))
    &&& record_positions(r).to_multiset() == start_positions(t, gs).to_multiset()
}

/// Line and column of every offset `0..=t.len()` of `t`.
fn position_tables(t: &[u8]) -> (r: (Vec<usize>, Vec<usize>))
    requires
        t@.len() < usize::MAX,
    ensures
        r.0@.len() == t@.len() + 1,
        r.1@.len() == t@.len() + 1,
        forall|p: int| 0 <= p <= t@.len() ==> r.0@[p] == line_of(t@, p),
        forall|p: int| 0 <= p <= t@.len() ==> r.1@[p] == column_of(t@, p),
{
    let mut ln: Vec<usize> = Vec::new();
    let mut col: Vec<usize> = Vec::new();
    let mut line: usize = 0;
    let mut column: usize = 0;
    let mut i: usize = 0;
    while i < t.len()
        invariant
            i <= t@.len() < usize::MAX,
            ln@.len() == i,
            col@.len() == i,
            line == line_of(t@, i as int),
            column == column_of(t@, i as int),
            forall|p: int| 0 <= p < i ==> ln@[p] == line_of(t@, p),
            forall|p: int| 0 <= p < i ==> col@[p] == column_of(t@, p),
        decreases t.len() - i,
    {
        proof {
            lemma_line_of_bounded(t@, i as int);
        }
        ln.push(line);
        col.push(column);
        if t[i] == NEWLINE {
            line = line + 1;
            column = 0;
        } else {
            column = column + 1;
        }
        i = i + 1;
    }
    ln.push(line);
    col.push(column);
    (ln, col)
}

/// The line as it is emitted: without one trailing carriage return.
pub fn strip_carriage_return(s: &Vec<u8>) -> (r: Vec<u8>)
    ensures
        r@ == strip_cr(s@),
{
    let m: usize = if s.len() > 0 && s[s.len() - 1] == CARRIAGE_RETURN {
        s.len() - 1
    } else {
        s.len()
    };
    let mut r: Vec<u8> = Vec::new();
    let mut i: usize = 0;
    while i < m
        invariant
            m <= s@.len(),
            i <= m,
            r@ =~= s@.subrange(0, i as int),
        decreases m - i,
    {
        r.push(s[i]);
        i = i + 1;
    }
    assert(strip_cr(s@) =~= s@.subrange(0, m as int));
    r
}

/// Grep-style records: each line that some range touches, once, in
/// ascending order, with its text.
pub fn grep_records(t: &[u8], gs: &Vec<(usize, usize)>) -> (r: Vec<LineRecord>)
    requires
        t@.len() < usize::MAX,
        valid_ranges(t@.len(), gs@),
    ensures
        is_grep_output(t@, gs@, r@),
        gs@.len() == 0 ==> r@.len() == 0,
{
    let (ln, _col) = position_tables(t);
    let lns = split_lines(t);
    proof {
        lemma_lines_len(t@);
        lemma_line_of_bounded(t@, t@.len() as int);
    }
    let n: usize = ln[t.len()] + 1;
    let mut marked: Vec<bool> = Vec::new();
    let mut l: usize = 0;
    while l < n
        invariant
            l <= n,
            marked@.len() == l,
            forall|x: int| 0 <= x < l ==> !marked@[x],
        decreases n - l,
    {
        marked.push(false);
        l = l + 1;
    }
    let mut k: usize = 0;
    while k < gs.len()
        invariant
            k <= gs@.len(),
            n == line_count(t@),
            ln@.len() == t@.len() + 1,
            forall|p: int| 0 <= p <= t@.len() ==> ln@[p] == line_of(t@, p),
            valid_ranges(t@.len(), gs@),
            marked@.len() == n,
            forall|x: int| 0 <= x < n ==> (marked@[x] <==> covered_by_first(t@, gs@, k as int, x)),
        decreases gs.len() - k,
    {
        let g = gs[k];
        assert(valid_range(t@.len(), gs@[k as int]));
        let a = ln[g.0];
        let b = if g.1 > g.0 {
            ln[g.1 - 1]
        } else {
            a
        };
        proof {
            lemma_line_of_monotone(t@, g.0 as int, t@.len() as int);
            if g.1 > g.0 {
                lemma_line_of_monotone(t@, g.1 - 1, t@.len() as int);
                lemma_line_of_monotone(t@, g.0 as int, g.1 - 1);
            }
        }
        let mut x: usize = a;
        while x <= b
            invariant
                a <= x <= b + 1,
                b < n,
                marked@.len() == n,
                forall|y: int|
                    0 <= y < n ==> (marked@[y] <==> (covered_by_first(t@, gs@, k as int, y) || (a
                        <= y < x))),
            decreases b + 1 - x,
        {
            marked[x] = true;
            x = x + 1;
        }
        assert forall|y: int| 0 <= y < n implies (marked@[y] <==> covered_by_first(
            t@,
            gs@,
            k + 1,
            y,
        )) by {
            if a <= y <= b {
                assert(range_covers(t@, gs@[k as int], y));
            }
            if covered_by_first(t@, gs@, k + 1, y) {
                let w = choose|w: int| 0 <= w < k + 1 && range_covers(t@, #[trigger] gs@[w], y);
                if w < k {
                    assert(covered_by_first(t@, gs@, k as int, y));
                }
            }
        }
        k = k + 1;
    }
    let mut r: Vec<LineRecord> = Vec::new();
    let mut l: usize = 0;
    while l < n
        invariant
            l <= n,
            n == line_count(t@),
            marked@.len() == n,
            lns.deep_view() == lines(t@),
            lines(t@).len() == n,
            forall|x: int| 0 <= x < n ==> (marked@[x] <==> covered(t@, gs@, x)),
            forall|i: int|
                0 <= i < r@.len() ==> {
                    &&& (#[trigger] r@[i]).column.is_none()
                    &&& 1 <= r@[i].line <= l
                    &&& covered(t@, gs@, r@[i].line - 1)
                    &&& r@[i].text@ == line_text(t@, r@[i].line - 1)
                },
            forall|i: int, j: int| 0 <= i < j < r@.len() ==> r@[i].line < r@[j].line,
            forall|x: int|
                0 <= x < l && covered(t@, gs@, x) ==> exists|i: int|
                    0 <= i < r@.len() && r@[i].line == x + 1,
        decreases n - l,
    {
        if marked[l] {
            assert(lns.deep_view()[l as int] == lns@[l as int]@);
            let text = strip_carriage_return(&lns[l]);
            let ghost old_r = r@;
            r.push(LineRecord { line: l + 1, column: None, text });
            assert(r@[old_r.len() as int].line == l + 1);
            assert forall|x: int|
                0 <= x < l + 1 && covered(t@, gs@, x) implies exists|i: int|
                0 <= i < r@.len() && r@[i].line == x + 1 by {
                if x < l {
                    let i = choose|i: int| 0 <= i < old_r.len() && old_r[i].line == x + 1;
                    assert(r@[i] == old_r[i]);
                }
            }
        }
        l = l + 1;
    }
    proof {
        if r@.len() > 0 {
            assert(covered(t@, gs@, r@[0].line - 1));
        }
        assert forall|x: int| covered(t@, gs@, x) implies 0 <= x < n by {
            let w = choose|w: int| 0 <= w < gs@.len() && range_covers(t@, #[trigger] gs@[w], x);
            assert(valid_range(t@.len(), gs@[w]));
            lemma_line_of_monotone(t@, gs@[w].0 as int, t@.len() as int);
            if gs@[w].1 > gs@[w].0 {
                lemma_line_of_monotone(t@, gs@[w].1 - 1, t@.len() as int);
            }
        }
    }
    r
}

pub open spec fn as_position(p: (usize, usize)) -> (int, int) {
    (p.0 as int, p.1 as int)
}

pub open spec fn record_positions(r: Seq<LineRecord>) -> Seq<(int, int)> {
    r.map_values(|x: LineRecord| record_position(x))
}

/// The start positions of the ranges, in ascending (line, column) order.
fn sorted_start_positions(t: &[u8], gs: &Vec<(usize, usize)>) -> (r: Vec<(usize, usize)>)
    requires
        t@.len() < usize::MAX,
        valid_ranges(t@.len(), gs@),
    ensures
        r@.len() == gs@.len(),
        positions_sorted(r@.map_values(|p: (usize, usize)| as_position(p))),
        r@.map_values(|p: (usize, usize)| as_position(p)).to_multiset() == start_positions(
            t@,
            gs@,
        ).to_multiset(),
        forall|i: int| 0 <= i < r@.len() ==> 1 <= (#[trigger] r@[i]).0 <= line_count(t@),
{
    let (ln, col) = position_tables(t);
    let mut keys: Vec<(usize, usize)> = Vec::new();
    let mut k: usize = 0;
    proof {
        assert(keys@.map_values(|p: (usize, usize)| as_position(p)) =~= start_positions(
            t@,
            gs@.subrange(0, 0),
        ));
    }
    while k < gs.len()
        invariant
            k <= gs@.len(),
            keys@.len() == k,
            ln@.len() == t@.len() + 1,
            col@.len() == t@.len() + 1,
            forall|p: int| 0 <= p <= t@.len() ==> ln@[p] == line_of(t@, p),
            forall|p: int| 0 <= p <= t@.len() ==> col@[p] == column_of(t@, p),
            valid_ranges(t@.len(), gs@),
            t@.len() < usize::MAX,
            positions_sorted(keys@.map_values(|p: (usize, usize)| as_position(p))),
            keys@.map_values(|p: (usize, usize)| as_position(p)).to_multiset() == start_positions(
                t@,
                gs@.subrange(0, k as int),
            ).to_multiset(),
            forall|i: int| 0 <= i < keys@.len() ==> 1 <= (#[trigger] keys@[i]).0 <= line_count(t@),
        decreases gs.len() - k,
    {
        let g = gs[k];
        assert(valid_range(t@.len(), gs@[k as int]));
        proof {
            lemma_line_of_bounded(t@, g.0 as int);
            lemma_line_of_monotone(t@, g.0 as int, t@.len() as int);
        }
        let pos: (usize, usize) = (ln[g.0] + 1, col[g.0] + 1);
        let ghost ks = keys@.map_values(|p: (usize, usize)| as_position(p));
        let mut j: usize = 0;
        while j < keys.len() && (keys[j].0 < pos.0 || (keys[j].0 == pos.0 && keys[j].1 <= pos.1))
            invariant
                j <= keys@.len(),
                ks == keys@.map_values(|p: (usize, usize)| as_position(p)),
                forall|i: int| 0 <= i < j ==> position_le(ks[i], as_position(pos)),
            decreases keys.len() - j,
        {
            j = j + 1;
        }
        let ghost kpos = as_position(pos);
        proof {
            if j < keys@.len() {
                assert(!position_le(ks[j as int], kpos));
            }
        }
        let ghost old_keys = keys@;
        keys.insert(j, pos);
        proof {
            let ks2 = keys@.map_values(|p: (usize, usize)| as_position(p));
            assert(ks2 =~= ks.insert(j as int, kpos));
            to_multiset_insert(ks, j as int, kpos);
            let sp = start_positions(t@, gs@.subrange(0, k as int));
            let sp2 = start_positions(t@, gs@.subrange(0, k + 1));
            assert(sp2 =~= sp.push(kpos));
            vstd::seq_lib::to_multiset_build(sp, kpos);
            assert forall|a: int, b: int| 0 <= a < b < ks2.len() implies position_le(
                ks2[a],
                ks2[b],
            ) by {
                if b < j {
                } else if b == j {
                    assert(ks2[a] == ks[a]);
                } else if a < j {
                    assert(ks2[b] == ks[b - 1]);
                    assert(ks2[a] == ks[a]);
                    assert(position_le(ks[a], ks[b - 1]));
                } else if a == j {
                    assert(ks2[b] == ks[b - 1]);
                    assert(position_le(ks[j as int], ks[b - 1]) || j == b - 1);
                } else {
                    assert(ks2[b] == ks[b - 1]);
                    assert(ks2[a] == ks[a - 1]);
                }
            }
            assert forall|i: int| 0 <= i < keys@.len() implies 1 <= (#[trigger] keys@[i]).0
                <= line_count(t@) by {
                if i < j {
                    assert(keys@[i] == old_keys[i]);
                } else if i > j {
                    assert(keys@[i] == old_keys[i - 1]);
                }
            }
        }
        k = k + 1;
    }
    assert(gs@.subrange(0, gs@.len() as int) =~= gs@);
    keys
}

/// Vimgrep-style records: one per range, at the line and column where it
/// starts, in ascending (line, column) order.
pub fn vimgrep_records(t: &[u8], gs: &Vec<(usize, usize)>) -> (r: Vec<LineRecord>)
    requires
        t@.len() < usize::MAX,
        valid_ranges(t@.len(), gs@),
    ensures
        is_vimgrep_output(t@, gs@, r@),
        r@.len() == gs@.len(),
{
    let keys = sorted_start_positions(t, gs);
    let lns = split_lines(t);
    proof {
        lemma_lines_len(t@);
    }
    let ghost ks = keys@.map_values(|p: (usize, usize)| as_position(p));
    let mut r: Vec<LineRecord> = Vec::new();
    let mut i: usize = 0;
    while i < keys.len()
        invariant
            i <= keys@.len(),
            ks == keys@.map_values(|p: (usize, usize)| as_position(p)),
            forall|x: int| 0 <= x < keys@.len() ==> 1 <= (#[trigger] keys@[x]).0 <= line_count(t@),
            lns.deep_view() == lines(t@),
            lines(t@).len() == line_count(t@),
            record_positions(r@) =~= ks.subrange(0, i as int),
            forall|x: int|
                0 <= x < r@.len() ==> {
                    &&& (#[trigger] r@[x]).column.is_some()
                    &&& 1 <= r@[x].line
                    &&& r@[x].text@ == line_text(t@, r@[x].line - 1)
                },
        decreases keys.len() - i,
    {
        let key = keys[i];
        assert(1 <= keys@[i as int].0 <= line_count(t@));
        assert(lns.deep_view()[key.0 - 1] == lns@[key.0 - 1]@);
        let text = strip_carriage_return(&lns[key.0 - 1]);
        let ghost before = r@;
        r.push(LineRecord { line: key.0, column: Some(key.1), text });
        assert(record_positions(r@) =~= record_positions(before).push(ks[i as int]));
        i = i + 1;
    }
    assert(ks.subrange(0, ks.len() as int) =~= ks);
    r
}

} // verus!
