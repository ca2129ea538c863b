//! Lines of a source text: which line and column a byte offset falls on,
//! and the text of each line.
use vstd::prelude::*;

verus! {

/// The line-break byte.
pub const NEWLINE: u8 = 10;

/// The carriage-return byte, dropped from the end of an emitted line.
pub const CARRIAGE_RETURN: u8 = 13;

/// The 0-based line on which byte offset `p` of `t` lies: the number of line
/// breaks before it.
pub open spec fn line_of(t: Seq<u8>, p: int) -> nat
    decreases p,
{
    if p <= 0 {
        0
    } else if t[p - 1] == NEWLINE {
        line_of(t, p - 1) + 1
    } else {
        line_of(t, p - 1)
    }
}

/// The 0-based column of byte offset `p` of `t`: the number of bytes between
/// the last line break before it and `p`.
pub open spec fn column_of(t: Seq<u8>, p: int) -> nat
    decreases p,
{
    if p <= 0 {
        0
    } else if t[p - 1] == NEWLINE {
        0
    } else {
        column_of(t, p - 1) + 1
    }
}

/// The lines of `t`: its bytes split at each line break, breaks removed.
/// A text has one line more than it has line breaks.
pub open spec fn lines(t: Seq<u8>) -> Seq<Seq<u8>>
    decreases t.len(),
{
    if t.len() == 0 {
        seq![Seq::empty()]
    } else {
        let prev = lines(t.drop_last());
        if t.last() == NEWLINE {
            prev.push(Seq::empty())
        } else {
            prev.update(prev.len() - 1, prev.last().push(t.last()))
        }
    }
}

/// A line as it is emitted: one trailing carriage return removed.
pub open spec fn strip_cr(s: Seq<u8>) -> Seq<u8> {
    if s.len() > 0 && s.last() == CARRIAGE_RETURN {
        s.drop_last()
    } else {
        s
    }
}

/// The emitted text of the 0-based line `l` of `t`.
pub open spec fn line_text(t: Seq<u8>, l: int) -> Seq<u8> {
    strip_cr(lines(t)[l])
}

/// The number of lines of `t`.
pub open spec fn line_count(t: Seq<u8>) -> nat {
    line_of(t, t.len() as int) + 1
}

pub proof fn lemma_line_of_bounded(t: Seq<u8>, p: int)
    requires
        0 <= p,
    ensures
        line_of(t, p) <= p,
        column_of(t, p) <= p,
    decreases p,
{
    if p > 0 {
        lemma_line_of_bounded(t, p - 1);
    }
}

pub proof fn lemma_line_of_monotone(t: Seq<u8>, p: int, q: int)
    requires
        0 <= p <= q,
    ensures
        line_of(t, p) <= line_of(t, q),
    decreases q - p,
{
    if p < q {
        lemma_line_of_monotone(t, p, q - 1);
    }
}

pub proof fn lemma_lines_len(t: Seq<u8>)
    ensures
        lines(t).len() == line_count(t),
    decreases t.len(),
{
    if t.len() > 0 {
        lemma_lines_len(t.drop_last());
        assert(t.drop_last() =~= t.subrange(0, t.len() - 1));
        lemma_line_of_prefix(t, t.len() - 1);
    }
}

/// The line of an offset depends only on the bytes before it.
pub proof fn lemma_line_of_prefix(t: Seq<u8>, p: int)
    requires
        0 <= p <= t.len(),
    ensures
        line_of(t.subrange(0, p), p) == line_of(t, p),
        column_of(t.subrange(0, p), p) == column_of(t, p),
    decreases p,
{
    if p > 0 {
        lemma_line_of_prefix(t, p - 1);
        lemma_line_of_prefix(t.subrange(0, p), p - 1);
        assert(t.subrange(0, p).subrange(0, p - 1) =~= t.subrange(0, p - 1));
    }
}

/// Splits `t` into its lines.
pub fn split_lines(t: &[u8]) -> (r: Vec<Vec<u8>>)
    ensures
        r.deep_view() == lines(t@),
{
    let mut done: Vec<Vec<u8>> = Vec::new();
    let mut cur: Vec<u8> = Vec::new();
    let mut i: usize = 0;
    assert(t@.subrange(0, 0) =~= Seq::<u8>::empty());
    assert(done.deep_view().push(cur@) =~= lines(t@.subrange(0, 0)));
    while i < t.len()
        invariant
            i <= t@.len(),
            done.deep_view().push(cur@) =~= lines(t@.subrange(0, i as int)),
        decreases t.len() - i,
    {
        let b = t[i];
        let ghost before = t@.subrange(0, i as int);
        let ghost after = t@.subrange(0, i + 1);
        assert(after.drop_last() =~= before);
        if b == NEWLINE {
            let ghost d = done.deep_view();
            let ghost c = cur@;
            done.push(cur);
            assert(done@.last().deep_view() =~= c);
            assert(done.deep_view() =~= d.push(c));
            cur = Vec::new();
        } else {
            cur.push(b);
        }
        i = i + 1;
    }
    assert(t@.subrange(0, t@.len() as int) =~= t@);
    let ghost d = done.deep_view();
    let ghost c = cur@;
    done.push(cur);
    assert(done@.last().deep_view() =~= c);
    assert(done.deep_view() =~= d.push(c));
    done
}

} // verus!
