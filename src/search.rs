//! Searching one file: the language it is read in, the nodes the query
//! captures (or every node, for a filter alone), and the output lines.
use vstd::prelude::*;
use crate::config::SearchError;
use crate::language::{all_languages, candidate_languages, candidates, registry, SupportedLanguage};
use crate::records::{
    covered, position_le, record_positions, grep_records, vimgrep_records, is_grep_output, is_vimgrep_output, valid_ranges, LineRecord,
};
use crate::render::{decimal, record_line, records_output, render_records, COLON};
use crate::lines::{line_text, NEWLINE};
use crate::treesitter::{
    captures_of, capture_names_of, get_all_nodes, get_matches, grammar_of, in_bounds, is_utf8,
    lemma_in_bounds_within, nodes_within, opt_view, padded, prepare_query, query_compiles,
    selected_capture, triple, triples, CapturedNode, ALL_NODES_QUERY,
};

verus! {

/// The ranges of the nodes a filter kept (all of them where there is no
/// filter), in the nodes' order.
pub open spec fn kept_ranges(nodes: Seq<CapturedNode>, keep: Option<Seq<bool>>) -> Seq<(usize, usize)>
    decreases nodes.len(),
{
    if nodes.len() == 0 {
        Seq::empty()
    } else {
        let prev = kept_ranges(nodes.drop_last(), keep);
        let i = nodes.len() - 1;
        let kept = match keep {
            Some(k) => k[i],
            None => true,
        };
        if kept {
            prev.push((nodes.last().start, nodes.last().end))
        } else {
            prev
        }
    }
}

/// The byte ranges of the nodes that the filter's verdicts `keep` kept, or of
/// all nodes where there is no filter.
pub fn select_ranges(nodes: &Vec<CapturedNode>, keep: Option<&Vec<bool>>) -> (r: Vec<(usize, usize)>)
    requires
        keep matches Some(k) ==> k@.len() == nodes@.len(),
    ensures
        r@ == kept_ranges(
            nodes@,
            match keep {
                Some(k) => Some(k@),
                None => None,
            },
        ),
{
    let ghost kv: Option<Seq<bool>> = match keep {
        Some(k) => Some(k@),
        None => None,
    };
    let mut r: Vec<(usize, usize)> = Vec::new();
    let mut i: usize = 0;
    assert(nodes@.subrange(0, 0) =~= Seq::<CapturedNode>::empty());
    while i < nodes.len()
        invariant
            i <= nodes@.len(),
            keep matches Some(k) ==> k@.len() == nodes@.len(),
            kv == match keep {
                Some(k) => Some(k@),
                None => None::<Seq<bool>>,
            },
            r@ == kept_ranges(nodes@.subrange(0, i as int), kv),
        decreases nodes.len() - i,
    {
        assert(nodes@.subrange(0, i + 1).drop_last() =~= nodes@.subrange(0, i as int));
        let kept = match keep {
            Some(k) => k[i],
            None => true,
        };
        if kept {
            r.push((nodes[i].start, nodes[i].end));
        }
        i = i + 1;
    }
    assert(nodes@.subrange(0, nodes@.len() as int) =~= nodes@);
    r
}

/// The ranges of nodes that lie within a text of `len` bytes lie within it.
pub proof fn lemma_kept_ranges_valid(nodes: Seq<CapturedNode>, keep: Option<Seq<bool>>, len: nat)
    requires
        nodes_within(nodes, len),
    ensures
        valid_ranges(len, kept_ranges(nodes, keep)),
    decreases nodes.len(),
{
    if nodes.len() > 0 {
        assert(nodes_within(nodes.drop_last(), len)) by {
            assert forall|i: int| 0 <= i < nodes.drop_last().len() implies (
            #[trigger] nodes.drop_last()[i]).start <= nodes.drop_last()[i].end <= len by {
                assert(nodes.drop_last()[i] == nodes[i]);
            }
        }
        lemma_kept_ranges_valid(nodes.drop_last(), keep, len);
        assert(nodes[nodes.len() - 1].start <= nodes[nodes.len() - 1].end <= len);
    }
}

/// The output of a file, grep or vimgrep style, for the byte ranges `gs`
/// of its text.
pub open spec fn is_file_output(
    path: Seq<u8>,
    t: Seq<u8>,
    gs: Seq<(usize, usize)>,
    vimgrep: bool,
    out: Seq<u8>,
) -> bool {
    exists|recs: Seq<LineRecord>|
        {
            &&& if vimgrep {
                is_vimgrep_output(t, gs, recs)
            } else {
                is_grep_output(t, gs, recs)
            }
            &&& out == records_output(path, recs)
        }
}

/// The output lines of the file at `path` with text `t` for byte ranges `gs`.
pub fn file_output(path: &[u8], t: &[u8], gs: &Vec<(usize, usize)>, vimgrep: bool) -> (r: Vec<u8>)
    requires
        t@.len() < usize::MAX,
        valid_ranges(t@.len(), gs@),
    ensures
        is_file_output(path@, t@, gs@, vimgrep, r@),
        gs@.len() == 0 ==> r@.len() == 0,
{
    let recs = if vimgrep {
        vimgrep_records(t, gs)
    } else {
        grep_records(t, gs)
    };
    let r = render_records(path, &recs);
    proof {
        if gs@.len() == 0 {
            assert(recs@.len() == 0);
        }
    }
    r
}

/// The nodes a search of `text` in language `l` finds, or `None` where the
/// query does not compile for `l` or lacks the asked-for capture. Without a
/// query source, every node.
pub open spec fn attempt(
    l: SupportedLanguage,
    src: Option<Seq<char>>,
    capture: Option<Seq<char>>,
    text: Seq<u8>,
) -> Option<Seq<(Seq<char>, int, int)>> {
    let s = match src {
        Some(q) => padded(q),
        None => padded(ALL_NODES_QUERY@),
    };
    let i = match src {
        Some(_) => selected_capture(capture_names_of(l, s), capture),
        None => 0,
    };
    let index: u32 = match src {
        Some(_) => i as u32,
        None => 0u32,
    };
    if query_compiles(l, s) && i >= 0 {
        Some(in_bounds(captures_of(l, s, index, text), text.len() as int))
    } else {
        None
    }
}

/// The first of `cands` that a search succeeds with, and what it finds.
pub open spec fn first_success(
    cands: Seq<SupportedLanguage>,
    src: Option<Seq<char>>,
    capture: Option<Seq<char>>,
    text: Seq<u8>,
) -> Option<(SupportedLanguage, Seq<(Seq<char>, int, int)>)>
    decreases cands.len(),
{
    if cands.len() == 0 {
        None
    } else {
        match attempt(cands[0], src, capture, text) {
            Some(ts) => Some((cands[0], ts)),
            None => first_success(cands.drop_first(), src, capture, text),
        }
    }
}

pub open spec fn found_view(o: Option<(SupportedLanguage, Vec<CapturedNode>)>) -> Option<
    (SupportedLanguage, Seq<(Seq<char>, int, int)>),
> {
    match o {
        Some(f) => Some((f.0, triples(f.1@))),
        None => None,
    }
}

pub open spec fn src_view(source: Option<&str>) -> Option<Seq<char>> {
    match source {
        Some(q) => Some(q@),
        None => None,
    }
}

/// The language a file is searched in, and the nodes found in it: the first
/// of its candidate languages for which the query compiles with the asked-for
/// capture. `Ok(None)` where no candidate works and none was forced; an
/// error where the forced language does not work.
pub fn file_nodes(
    path: &[u8],
    text: &[u8],
    forced: Option<SupportedLanguage>,
    source: Option<&str>,
    capture: Option<&String>,
) -> (r: Result<Option<(SupportedLanguage, Vec<CapturedNode>)>, SearchError>)
    ensures
        ({
            let cands = candidates(path@, forced);
            let best = first_success(cands, src_view(source), opt_view(capture), text@);
            &&& cands.len() == 0 ==> r == Ok::<
                Option<(SupportedLanguage, Vec<CapturedNode>)>,
                SearchError,
            >(None)
            &&& cands.len() > 0 && !vstd::utf8::valid_utf8(text@) ==> r == Err::<
                Option<(SupportedLanguage, Vec<CapturedNode>)>,
                SearchError,
            >(SearchError::EncodingError)
            &&& cands.len() > 0 && vstd::utf8::valid_utf8(text@) && (forced.is_none()
                || best.is_some()) ==> (r matches Ok(o) && found_view(o) == best)
            &&& cands.len() > 0 && vstd::utf8::valid_utf8(text@) && forced.is_some()
                && best.is_none() ==> (r == Err::<
                Option<(SupportedLanguage, Vec<CapturedNode>)>,
                SearchError,
            >(SearchError::InvalidQuery) || r matches Err(SearchError::InvalidCaptureName(_)))
            &&& r matches Ok(Some(found)) ==> nodes_within(found.1@, text@.len())
        }),
{
    let cands = candidate_languages(path, forced);
    if cands.len() == 0 {
        return Ok(None);
    }
    if !is_utf8(text) {
        return Err(SearchError::EncodingError);
    }
    let ghost sv = src_view(source);
    let ghost cv = opt_view(capture);
    let mut i: usize = 0;
    assert(cands@.subrange(0, cands@.len() as int) =~= cands@);
    while i < cands.len()
        invariant
            i <= cands@.len(),
            cands@ == candidates(path@, forced),
            cands@.len() > 0,
            vstd::utf8::valid_utf8(text@),
            sv == src_view(source),
            cv == opt_view(capture),
            forced.is_some() ==> i == 0,
            first_success(cands@, sv, cv, text@) == first_success(
                cands@.subrange(i as int, cands@.len() as int),
                sv,
                cv,
                text@,
            ),
        decreases cands.len() - i,
    {
        let l = cands[i];
        let ghost rest = cands@.subrange(i as int, cands@.len() as int);
        assert(rest[0] == l);
        assert(rest.drop_first() =~= cands@.subrange(i + 1, cands@.len() as int));
        let g = grammar_of(l);
        let ghost expected = attempt(l, sv, cv, text@);
        let outcome: Result<Vec<CapturedNode>, SearchError>;
        match source {
            Some(src) => match prepare_query(src, &g, capture) {
                Ok(prepared) => {
                    outcome = get_matches(&prepared.query, prepared.capture_index, text);
                    assert(expected is Some);
                    assert(prepared.capture_index as int == selected_capture(
                        capture_names_of(l, padded(src@)),
                        cv,
                    ));
                },
                Err(e) => {
                    assert(expected is None);
                    assert(e == SearchError::InvalidQuery || e matches SearchError::InvalidCaptureName(_));
                    outcome = Err(e);
                },
            },
            None => {
                outcome = get_all_nodes(text, &g);
                assert(outcome is Err ==> outcome == Err::<Vec<CapturedNode>, SearchError>(
                    SearchError::InvalidQuery,
                ));
            },
        }
        assert(outcome is Ok <==> expected is Some);
        assert(outcome matches Ok(ns) ==> triples(ns@) == expected->Some_0);
        assert(outcome matches Err(e) ==> (e == SearchError::InvalidQuery
            || e matches SearchError::InvalidCaptureName(_)));
        match outcome {
            Ok(nodes) => {
                proof {
                }
                return Ok(Some((l, nodes)));
            },
            Err(e) => {
                if forced.is_some() {
                    assert(cands@ == seq![forced->Some_0]);
                    assert(cands@.subrange(1, 1) =~= Seq::<SupportedLanguage>::empty());
                    assert(cands@.drop_first() =~= Seq::<SupportedLanguage>::empty());
                    assert(first_success(cands@.drop_first(), sv, cv, text@) is None);
                    assert(cands@[0] == l);
                    assert(first_success(cands@, sv, cv, text@) is None);
                    return Err(e);
                }
            },
        }
        i = i + 1;
    }
    assert(cands@.subrange(i as int, cands@.len() as int) =~= Seq::<SupportedLanguage>::empty());
    Ok(None)
}

/// The byte ranges of nodes given as plain values.
pub open spec fn triple_ranges(ts: Seq<(Seq<char>, int, int)>) -> Seq<(usize, usize)> {
    ts.map_values(|t: (Seq<char>, int, int)| (t.1 as usize, t.2 as usize))
}

proof fn lemma_kept_all(ns: Seq<CapturedNode>)
    ensures
        kept_ranges(ns, None) == triple_ranges(triples(ns)),
    decreases ns.len(),
{
    if ns.len() > 0 {
        lemma_kept_all(ns.drop_last());
        assert(triples(ns.drop_last()) =~= triples(ns).drop_last());
        assert(triple_ranges(triples(ns)) =~= triple_ranges(triples(ns.drop_last())).push(
            (ns.last().start, ns.last().end),
        ));
    } else {
        assert(triple_ranges(triples(ns)) =~= Seq::<(usize, usize)>::empty());
    }
}

/// Searches one file with a query and no filter: the file's output lines for
/// the nodes the first working candidate language finds; empty where no
/// language applies to it.
pub fn search_file(
    path: &[u8],
    text: &[u8],
    forced: Option<SupportedLanguage>,
    source: &str,
    capture: Option<&String>,
    vimgrep: bool,
) -> (r: Result<Vec<u8>, SearchError>)
    requires
        text@.len() < usize::MAX,
    ensures
        ({
            let cands = candidates(path@, forced);
            let best = first_success(cands, Some(source@), opt_view(capture), text@);
            &&& cands.len() == 0 ==> (r matches Ok(out) && out@.len() == 0)
            &&& cands.len() > 0 && !vstd::utf8::valid_utf8(text@) ==> r == Err::<
                Vec<u8>,
                SearchError,
            >(SearchError::EncodingError)
            &&& cands.len() > 0 && vstd::utf8::valid_utf8(text@) && forced.is_none()
                && best.is_none() ==> (r matches Ok(out) && out@.len() == 0)
            &&& cands.len() > 0 && vstd::utf8::valid_utf8(text@) && best.is_some() ==> (r matches Ok(
                out,
            ) && is_file_output(path@, text@, triple_ranges(best->Some_0.1), vimgrep, out@))
            &&& cands.len() > 0 && vstd::utf8::valid_utf8(text@) && forced.is_some()
                && best.is_none() ==> r is Err
        }),
{
    match file_nodes(path, text, forced, Some(source), capture) {
        Err(e) => Err(e),
        Ok(None) => Ok(Vec::new()),
        Ok(Some((_l, nodes))) => {
            let gs = select_ranges(&nodes, None);
            proof {
                lemma_kept_ranges_valid(nodes@, None, text@.len());
                lemma_kept_all(nodes@);
            }
            let out = file_output(path, text, &gs, vimgrep);
            Ok(out)
        },
    }
}

/// Query `src` compiles for `l` and has the asked-for capture.
pub open spec fn query_works(l: SupportedLanguage, src: Seq<char>, capture: Option<Seq<char>>) -> bool {
    query_compiles(l, padded(src)) && selected_capture(capture_names_of(l, padded(src)), capture) >= 0
}

/// The languages a query is checked against: the forced one, or all.
pub open spec fn checked_languages(forced: Option<SupportedLanguage>) -> Seq<SupportedLanguage> {
    match forced {
        Some(l) => seq![l],
        None => registry(),
    }
}

/// Checks the query before any file is searched: it must compile, with the
/// asked-for capture, for the forced language, or for some language where
/// none is forced.
pub fn check_query(source: &str, capture: Option<&String>, forced: Option<SupportedLanguage>) -> (r:
    Result<(), SearchError>)
    ensures
        r is Ok <==> exists|i: int|
            0 <= i < checked_languages(forced).len() && query_works(
                #[trigger] checked_languages(forced)[i],
                source@,
                opt_view(capture),
            ),
        r matches Err(e) ==> (e == SearchError::InvalidQuery || e matches SearchError::InvalidCaptureName(_)),
{
    let langs = match forced {
        Some(l) => {
            let mut v: Vec<SupportedLanguage> = Vec::new();
            v.push(l);
            assert(v@ =~= seq![l]);
            v
        },
        None => all_languages(),
    };
    let mut err = SearchError::InvalidQuery;
    let mut i: usize = 0;
    while i < langs.len()
        invariant
            i <= langs@.len(),
            langs@ == checked_languages(forced),
            forall|j: int| 0 <= j < i ==> !query_works(#[trigger] langs@[j], source@, opt_view(capture)),
            err == SearchError::InvalidQuery || err matches SearchError::InvalidCaptureName(_),
        decreases langs.len() - i,
    {
        let g = grammar_of(langs[i]);
        match prepare_query(source, &g, capture) {
            Ok(_) => {
                assert(query_works(langs@[i as int], source@, opt_view(capture)));
                return Ok(());
            },
            Err(e) => {
                assert(!query_works(langs@[i as int], source@, opt_view(capture)));
                if e matches SearchError::InvalidCaptureName(_) {
                    err = e;
                }
            },
        }
        i = i + 1;
    }
    Err(err)
}

/// Records that agree in line, column and text print alike.
proof fn lemma_alike_records_print_alike(path: Seq<u8>, r1: Seq<LineRecord>, r2: Seq<LineRecord>)
    requires
        r1.len() == r2.len(),
        forall|i: int|
            0 <= i < r1.len() ==> (#[trigger] r1[i]).line == r2[i].line && r1[i].column
                == r2[i].column && r1[i].text@ == r2[i].text@,
    ensures
        records_output(path, r1) == records_output(path, r2),
    decreases r1.len(),
{
    if r1.len() > 0 {
        lemma_alike_records_print_alike(path, r1.drop_last(), r2.drop_last());
        assert(record_line(path, r1.last()) == record_line(path, r2.last()));
    }
}

proof fn lemma_grep_output_unique(t: Seq<u8>, gs: Seq<(usize, usize)>, r1: Seq<LineRecord>, r2: Seq<LineRecord>)
    requires
        is_grep_output(t, gs, r1),
        is_grep_output(t, gs, r2),
    ensures
        r1.len() == r2.len(),
        forall|i: int| 0 <= i < r1.len() ==> (#[trigger] r1[i]).line == r2[i].line,
    decreases r1.len(),
{
    assert forall|i: int| 0 <= i < r1.len() && i < r2.len() implies (#[trigger] r1[i]).line == r2[i].line by {
        lemma_grep_lines_agree(t, gs, r1, r2, i);
    }
    if r1.len() < r2.len() {
        let m = r1.len() as int;
        assert(covered(t, gs, r2[m].line - 1));
        let k = choose|k: int| 0 <= k < r1.len() && r1[k].line == r2[m].line - 1 + 1;
        assert(r1[k].line == r2[k].line);
    } else if r2.len() < r1.len() {
        let m = r2.len() as int;
        assert(covered(t, gs, r1[m].line - 1));
        let k = choose|k: int| 0 <= k < r2.len() && r2[k].line == r1[m].line - 1 + 1;
        assert(r1[k].line == r2[k].line);
    }
}

proof fn lemma_grep_lines_agree(
    t: Seq<u8>,
    gs: Seq<(usize, usize)>,
    r1: Seq<LineRecord>,
    r2: Seq<LineRecord>,
    i: int,
)
    requires
        is_grep_output(t, gs, r1),
        is_grep_output(t, gs, r2),
        0 <= i < r1.len(),
        i < r2.len(),
    ensures
        r1[i].line == r2[i].line,
    decreases i,
{
    if i > 0 {
        lemma_grep_lines_agree(t, gs, r1, r2, i - 1);
    }
    let a = r1[i].line;
    let b = r2[i].line;
    if a < b {
        assert(covered(t, gs, a - 1));
        let k = choose|k: int| 0 <= k < r2.len() && r2[k].line == a - 1 + 1;
        if k < i {
            assert forall|j: int| 0 <= j < i implies r1[j].line == r2[j].line by {
                lemma_grep_lines_agree(t, gs, r1, r2, j);
            }
            assert(r1[k].line < r1[i].line);
        } else if k > i {
            assert(r2[i].line < r2[k].line);
        }
    } else if b < a {
        assert(covered(t, gs, b - 1));
        let k = choose|k: int| 0 <= k < r1.len() && r1[k].line == b - 1 + 1;
        if k < i {
            assert forall|j: int| 0 <= j < i implies r1[j].line == r2[j].line by {
                lemma_grep_lines_agree(t, gs, r1, r2, j);
            }
            assert(r2[k].line < r2[i].line);
        } else if k > i {
            assert(r1[i].line < r1[k].line);
        }
    }
}

proof fn lemma_position_order_total()
    ensures
        vstd::relations::total_ordering(|a: (int, int), b: (int, int)| position_le(a, b)),
{
}

/// The output of a file is determined by its path, text, ranges and style:
/// searching the same file again prints the same lines in the same order.
pub proof fn lemma_file_output_unique(
    path: Seq<u8>,
    t: Seq<u8>,
    gs: Seq<(usize, usize)>,
    vimgrep: bool,
    out1: Seq<u8>,
    out2: Seq<u8>,
)
    requires
        is_file_output(path, t, gs, vimgrep, out1),
        is_file_output(path, t, gs, vimgrep, out2),
    ensures
        out1 == out2,
{
    let r1 = choose|recs: Seq<LineRecord>|
        {
            &&& if vimgrep {
                is_vimgrep_output(t, gs, recs)
            } else {
                is_grep_output(t, gs, recs)
            }
            &&& out1 == records_output(path, recs)
        };
    let r2 = choose|recs: Seq<LineRecord>|
        {
            &&& if vimgrep {
                is_vimgrep_output(t, gs, recs)
            } else {
                is_grep_output(t, gs, recs)
            }
            &&& out2 == records_output(path, recs)
        };
    if vimgrep {
        let leq = |a: (int, int), b: (int, int)| position_le(a, b);
        lemma_position_order_total();
        let p1 = record_positions(r1);
        let p2 = record_positions(r2);
        assert(vstd::relations::sorted_by(p1, leq));
        assert(vstd::relations::sorted_by(p2, leq));
        vstd::seq_lib::lemma_sorted_unique(p1, p2, leq);
        assert forall|i: int| 0 <= i < r1.len() implies (#[trigger] r1[i]).line == r2[i].line
            && r1[i].column == r2[i].column && r1[i].text@ == r2[i].text@ by {
            assert(p1[i] == p2[i]);
        }
    } else {
        lemma_grep_output_unique(t, gs, r1, r2);
    }
    lemma_alike_records_print_alike(path, r1, r2);
}

/// Each grep-style output line of a file is `PATH:LINE:TEXT` where `TEXT`
/// is line `LINE` of the file as it stands, without its line break.
pub proof fn lemma_grep_lines_are_source_lines(
    path: Seq<u8>,
    t: Seq<u8>,
    gs: Seq<(usize, usize)>,
    recs: Seq<LineRecord>,
    i: int,
)
    requires
        is_grep_output(t, gs, recs),
        0 <= i < recs.len(),
    ensures
        record_line(path, recs[i]) == path + seq![COLON] + decimal(recs[i].line as nat) + seq![
            COLON,
        ] + line_text(t, recs[i].line - 1) + seq![NEWLINE],
{
    assert(recs[i].column.is_none());
    assert(record_line(path, recs[i]) =~= path + seq![COLON] + decimal(recs[i].line as nat)
        + seq![COLON] + line_text(t, recs[i].line - 1) + seq![NEWLINE]);
}

/// Searching the same file twice with the same query gives the same
/// output: what `search_file` states of its output pins it down.
pub proof fn lemma_search_deterministic(
    path: Seq<u8>,
    text: Seq<u8>,
    forced: Option<SupportedLanguage>,
    src: Seq<char>,
    capture: Option<Seq<char>>,
    vimgrep: bool,
    out1: Seq<u8>,
    out2: Seq<u8>,
)
    requires
        first_success(candidates(path, forced), Some(src), capture, text) matches Some(best)
            && is_file_output(path, text, triple_ranges(best.1), vimgrep, out1)
            && is_file_output(path, text, triple_ranges(best.1), vimgrep, out2),
    ensures
        out1 == out2,
{
    let best = first_success(candidates(path, forced), Some(src), capture, text)->Some_0;
    lemma_file_output_unique(path, text, triple_ranges(best.1), vimgrep, out1, out2);
}

} // verus!
