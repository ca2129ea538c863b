//! Output lines: `PATH:LINE:TEXT` in grep style and `PATH:LINE:COL:TEXT`
//! in vimgrep style, each ended by a line break.
use vstd::prelude::*;
use crate::lines::NEWLINE;
use crate::records::LineRecord;

verus! {

/// The separator between the fields of an output line.
pub const COLON: u8 = 58;

/// The ASCII digit zero.
pub const DIGIT_ZERO: u8 = 48;

/// The decimal digits of `n`, most significant first, without leading zeros.
pub open spec fn decimal(n: nat) -> Seq<u8>
    decreases n,
{
    if n < 10 {
        seq![(DIGIT_ZERO + n) as u8]
    } else {
        decimal(n / 10).push((DIGIT_ZERO + n % 10) as u8)
    }
}

/// The output line of record `rec` found in the file named `path`.
pub open spec fn record_line(path: Seq<u8>, rec: LineRecord) -> Seq<u8> {
    let head = path + seq![COLON] + decimal(rec.line as nat) + seq![COLON];
    let col = match rec.column {
        Some(c) => decimal(c as nat) + seq![COLON],
        None => Seq::empty(),
    };
    head + col + rec.text@ + seq![NEWLINE]
}

/// The output lines of `recs`, one after the other.
pub open spec fn records_output(path: Seq<u8>, recs: Seq<LineRecord>) -> Seq<u8>
    decreases recs.len(),
{
    if recs.len() == 0 {
        Seq::empty()
    } else {
        records_output(path, recs.drop_last()) + record_line(path, recs.last())
    }
}

/// Appends the decimal digits of `n` to `out`.
pub fn push_decimal(out: &mut Vec<u8>, n: usize)
    ensures
        final(out)@ == old(out)@ + decimal(n as nat),
    decreases n,
{
    if n >= 10 {
        push_decimal(out, n / 10);
    }
    let d: u8 = (n % 10) as u8;
    out.push(DIGIT_ZERO + d);
    assert(final(out)@ =~= old(out)@ + decimal(n as nat));
}

fn push_all(out: &mut Vec<u8>, s: &[u8])
    ensures
        final(out)@ == old(out)@ + s@,
{
    let mut i: usize = 0;
    while i < s.len()
        invariant
            i <= s@.len(),
            out@ =~= old(out)@ + s@.subrange(0, i as int),
        decreases s.len() - i,
    {
        out.push(s[i]);
        i = i + 1;
    }
    assert(s@.subrange(0, s@.len() as int) =~= s@);
}

/// Appends the output line of `rec` to `out`.
pub fn push_record_line(out: &mut Vec<u8>, path: &[u8], rec: &LineRecord)
    ensures
        final(out)@ == old(out)@ + record_line(path@, *rec),
{
    let ghost start = out@;
    push_all(out, path);
    out.push(COLON);
    push_decimal(out, rec.line);
    out.push(COLON);
    let ghost mid = out@;
    match rec.column {
        Some(c) => {
            push_decimal(out, c);
            out.push(COLON);
        },
        None => {},
    }
    push_all(out, rec.text.as_slice());
    out.push(NEWLINE);
    assert(out@ =~= start + record_line(path@, *rec));
}

/// The output line of one record.
pub fn render_record(path: &[u8], rec: &LineRecord) -> (r: Vec<u8>)
    ensures
        r@ == record_line(path@, *rec),
{
    let mut out: Vec<u8> = Vec::new();
    push_record_line(&mut out, path, rec);
    assert(out@ =~= record_line(path@, *rec));
    out
}

/// The output of a file's records, in their order.
pub fn render_records(path: &[u8], recs: &Vec<LineRecord>) -> (r: Vec<u8>)
    ensures
        r@ == records_output(path@, recs@),
{
    let mut out: Vec<u8> = Vec::new();
    let mut i: usize = 0;
    while i < recs.len()
        invariant
            i <= recs@.len(),
            out@ == records_output(path@, recs@.subrange(0, i as int)),
        decreases recs.len() - i,
    {
        push_record_line(&mut out, path, &recs[i]);
        assert(recs@.subrange(0, i + 1).drop_last() =~= recs@.subrange(0, i as int));
        i = i + 1;
    }
    assert(recs@.subrange(0, recs@.len() as int) =~= recs@);
    out
}

/// Every output line begins with the path exactly as it was given, then a
/// colon.
pub proof fn lemma_record_line_starts_with_path(path: Seq<u8>, rec: LineRecord)
    ensures
        record_line(path, rec).subrange(0, path.len() as int) == path,
        record_line(path, rec)[path.len() as int] == COLON,
{
    assert(record_line(path, rec).subrange(0, path.len() as int) =~= path);
}

/// No records give no output.
pub proof fn lemma_no_records_no_output(path: Seq<u8>, recs: Seq<LineRecord>)
    requires
        recs.len() == 0,
    ensures
        records_output(path, recs) == Seq::<u8>::empty(),
{
}

} // verus!
