//! Grammars, parsers and queries of tree-sitter, and the byte ranges of the
//! nodes a query captures.
use vstd::prelude::*;
use tree_sitter::{Language, Parser, Query, QueryCursor, QueryError, Tree};
use crate::config::{first_index_of, views, SearchError};
use crate::language::SupportedLanguage;

verus! {

#[verifier::external_type_specification]
#[verifier::external_body]
pub struct ExLanguage(Language);

#[verifier::external_type_specification]
#[verifier::external_body]
pub struct ExParser(Parser);

#[verifier::external_type_specification]
#[verifier::external_body]
pub struct ExTree(Tree);

#[verifier::external_type_specification]
#[verifier::external_body]
pub struct ExQuery(Query);

#[verifier::external_type_specification]
#[verifier::external_body]
pub struct ExQueryError(QueryError);

/// A syntax node that a search reports or hands to a filter: its kind and
/// its byte range `[start, end)`.
pub struct CapturedNode {
    pub kind: String,
    pub start: usize,
    pub end: usize,
}

/// A node as plain values: kind, start and end.
pub open spec fn triple(n: CapturedNode) -> (Seq<char>, int, int) {
    (n.kind@, n.start as int, n.end as int)
}

pub open spec fn triples(ns: Seq<CapturedNode>) -> Seq<(Seq<char>, int, int)> {
    ns.map_values(|n: CapturedNode| triple(n))
}

/// Whether query source `source` compiles for the grammar of `l`.
pub uninterp spec fn query_compiles(l: SupportedLanguage, source: Seq<char>) -> bool;

/// The capture names of query `source` compiled for `l`, by index.
pub uninterp spec fn capture_names_of(l: SupportedLanguage, source: Seq<char>) -> Seq<Seq<char>>;

/// The nodes, in match order, that query `source` captures at
/// `capture_index` in `text` parsed with the grammar of `l`.
pub uninterp spec fn captures_of(
    l: SupportedLanguage,
    source: Seq<char>,
    capture_index: u32,
    text: Seq<u8>,
) -> Seq<(Seq<char>, int, int)>;

/// The grammar of a supported language.
pub struct Grammar {
    language: SupportedLanguage,
    handle: Language,
}

impl Grammar {
    pub closed spec fn lang(&self) -> SupportedLanguage {
        self.language
    }
}

/// A parser with a grammar loaded.
pub struct LoadedParser {
    language: SupportedLanguage,
    parser: Parser,
}

impl LoadedParser {
    pub closed spec fn lang(&self) -> SupportedLanguage {
        self.language
    }
}

/// A syntax tree together with the text it was parsed from.
pub struct ParsedFile {
    language: SupportedLanguage,
    text: Vec<u8>,
    tree: Tree,
}

impl ParsedFile {
    pub closed spec fn lang(&self) -> SupportedLanguage {
        self.language
    }

    pub closed spec fn text(&self) -> Seq<u8> {
        self.text@
    }
}

/// A query compiled for a grammar, with the source it was compiled from.
pub struct CompiledQuery {
    language: SupportedLanguage,
    source: String,
    query: Query,
}

impl CompiledQuery {
    pub closed spec fn lang(&self) -> SupportedLanguage {
        self.language
    }

    pub closed spec fn src(&self) -> Seq<char> {
        self.source@
    }
}

/// Relies on tree_sitter_rust::language: the Rust grammar.
#[verifier::external_body]
fn rust_grammar() -> Language {
    tree_sitter_rust::language()
}

/// Relies on tree_sitter_typescript::language_tsx: the TypeScript grammar
/// with JSX, which also reads plain TypeScript.
#[verifier::external_body]
fn typescript_grammar() -> Language {
    tree_sitter_typescript::language_tsx()
}

/// Relies on tree_sitter_javascript::language: the JavaScript grammar.
#[verifier::external_body]
fn javascript_grammar() -> Language {
    tree_sitter_javascript::language()
}

/// Relies on tree_sitter::Parser::new: a parser with no grammar yet.
#[verifier::external_body]
fn new_parser() -> Parser {
    Parser::new()
}

/// Relies on tree_sitter::Parser::set_language: it fails only for a grammar
/// whose ABI version lies outside 13..=14; the three grammars have ABI 14.
#[verifier::external_body]
fn load_grammar(parser: &mut Parser, g: &Grammar) -> (r: bool)
    ensures
        r,
{
    parser.set_language(g.handle).is_ok()
}

/// Relies on tree_sitter::Parser::parse: it gives no tree only without a
/// grammar, after a timeout or on cancellation, none of which a loaded
/// parser here has.
#[verifier::external_body]
fn parse_bytes(p: &mut LoadedParser, text: &[u8]) -> (r: Option<Tree>)
    ensures
        r is Some,
{
    p.parser.parse(text, None)
}

/// Relies on std's formatting: the text followed by a line break.
#[verifier::external_body]
fn with_line_break(s: &str) -> (r: String)
    ensures
        r@ == s@.push('\n'),
{
    format!("{s}\n")
}

/// Relies on tree_sitter::Query::new: whether the source compiles. A source
/// that ends in a line break keeps the error report's name scan in bounds.
#[verifier::external_body]
fn compile_query(g: &Grammar, source: &String) -> (r: Result<Query, QueryError>)
    requires
        source@.len() > 0,
        source@.last() == '\n',
    ensures
        r is Ok == query_compiles(g.lang(), source@),
{
    Query::new(g.handle, source.as_str())
}

/// Relies on tree_sitter::Query::capture_names: the names of the query's
/// captures by index; their count is a u32 of the C library.
#[verifier::external_body]
fn query_capture_names(q: &CompiledQuery) -> (r: Vec<String>)
    ensures
        views(r@) == capture_names_of(q.lang(), q.src()),
        r@.len() <= u32::MAX,
{
    q.query.capture_names().to_vec()
}

/// Relies on tree_sitter::QueryCursor::matches: for each match of the query
/// on the tree, the nodes it captures at `capture_index`.
#[verifier::external_body]
fn captured_nodes(q: &CompiledQuery, capture_index: u32, f: &ParsedFile) -> (r: Vec<CapturedNode>)
    requires
        q.lang() == f.lang(),
    ensures
        triples(r@) == captures_of(q.lang(), q.src(), capture_index, f.text()),
{
    let mut cursor = QueryCursor::new();
    cursor.matches(&q.query, f.tree.root_node(), f.text.as_slice()).flat_map(
        |m| m.nodes_for_capture_index(capture_index).collect::<Vec<_>>(),
    ).map(
        |n| CapturedNode { kind: n.kind().to_string(), start: n.start_byte(), end: n.end_byte() },
    ).collect()
}

/// Relies on std::str::from_utf8: `Ok` exactly for valid UTF-8.
#[verifier::external_body]
pub(crate) fn is_utf8(bytes: &[u8]) -> (r: bool)
    ensures
        r == vstd::utf8::valid_utf8(bytes@),
{
    std::str::from_utf8(bytes).is_ok()
}

/// The query that captures every node of a tree.
pub const ALL_NODES_QUERY: &'static str = "_ @node";

/// The tree-sitter grammar of a supported language.
pub fn grammar_of(l: SupportedLanguage) -> (r: Grammar)
    ensures
        r.lang() == l,
{
    let handle = match l {
        SupportedLanguage::Rust => rust_grammar(),
        SupportedLanguage::Typescript => typescript_grammar(),
        SupportedLanguage::Javascript => javascript_grammar(),
    };
    Grammar { language: l, handle }
}

/// A parser with the grammar `g` loaded.
pub fn get_parser(g: &Grammar) -> (r: LoadedParser)
    ensures
        r.lang() == g.lang(),
{
    let mut parser = new_parser();
    let loaded = load_grammar(&mut parser, g);
    assert(loaded);
    LoadedParser { language: g.language, parser }
}

/// The source as it is compiled: followed by a line break.
pub open spec fn padded(source: Seq<char>) -> Seq<char> {
    source.push('\n')
}

/// The query `source` compiled for `g`; an invalid query where it does not
/// compile.
pub fn get_query(source: &str, g: &Grammar) -> (r: Result<CompiledQuery, SearchError>)
    ensures
        r is Ok <==> query_compiles(g.lang(), padded(source@)),
        r matches Ok(q) ==> q.lang() == g.lang() && q.src() == padded(source@),
        r is Err ==> r == Err::<CompiledQuery, SearchError>(SearchError::InvalidQuery),
{
    let padded_source = with_line_break(source);
    match compile_query(g, &padded_source) {
        Ok(query) => Ok(CompiledQuery { language: g.language, source: padded_source, query }),
        Err(_) => Err(SearchError::InvalidQuery),
    }
}

/// A compiled query and the index of the capture that is reported.
pub struct PreparedQuery {
    pub query: CompiledQuery,
    pub capture_index: u32,
}

/// The capture index that `capture` selects among `names`: 0 where no name
/// is asked for, -1 where the name is not there.
pub open spec fn selected_capture(names: Seq<Seq<char>>, capture: Option<Seq<char>>) -> int {
    match capture {
        None => 0,
        Some(w) => first_index_of(names, w),
    }
}

pub open spec fn opt_view(capture: Option<&String>) -> Option<Seq<char>> {
    match capture {
        Some(w) => Some(w@),
        None => None,
    }
}

/// Compiles `source` for `g` and resolves the reported capture.
pub fn prepare_query(source: &str, g: &Grammar, capture: Option<&String>) -> (r: Result<
    PreparedQuery,
    SearchError,
>)
    ensures
        ({
            let s = padded(source@);
            let i = selected_capture(capture_names_of(g.lang(), s), opt_view(capture));
            &&& !query_compiles(g.lang(), s) ==> r == Err::<PreparedQuery, SearchError>(
                SearchError::InvalidQuery,
            )
            &&& query_compiles(g.lang(), s) && i >= 0 ==> (r matches Ok(p) && p.capture_index == i
                && p.query.lang() == g.lang() && p.query.src() == s)
            &&& query_compiles(g.lang(), s) && i < 0 ==> (capture matches Some(w) && r matches Err(
                SearchError::InvalidCaptureName(n),
            ) && n@ == w@)
        }),
{
    let query = get_query(source, g)?;
    let names = query_capture_names(&query);
    let capture_index = crate::config::resolve_capture_index(&names, capture)?;
    Ok(PreparedQuery { query, capture_index })
}

/// The entries of `s` that lie within a text of `len` bytes, in order.
pub open spec fn in_bounds(s: Seq<(Seq<char>, int, int)>, len: int) -> Seq<(Seq<char>, int, int)>
    decreases s.len(),
{
    if s.len() == 0 {
        Seq::empty()
    } else {
        let prev = in_bounds(s.drop_last(), len);
        if 0 <= s.last().1 <= s.last().2 <= len {
            prev.push(s.last())
        } else {
            prev
        }
    }
}

/// Every node lies within a text of `len` bytes.
pub open spec fn nodes_within(nodes: Seq<CapturedNode>, len: nat) -> bool {
    forall|i: int| 0 <= i < nodes.len() ==> (#[trigger] nodes[i]).start <= nodes[i].end <= len
}

pub proof fn lemma_in_bounds_within(nodes: Seq<CapturedNode>, s: Seq<(Seq<char>, int, int)>, len: nat)
    requires
        triples(nodes) == in_bounds(s, len as int),
    ensures
        nodes_within(nodes, len),
    decreases s.len(),
{
    assert(triples(nodes).len() == nodes.len());
    if s.len() > 0 {
        let prev = in_bounds(s.drop_last(), len as int);
        if 0 <= s.last().1 <= s.last().2 <= len {
            assert(nodes.len() == prev.len() + 1);
            assert(triples(nodes.drop_last()) =~= triples(nodes).drop_last());
            assert(triples(nodes).drop_last() =~= prev);
            lemma_in_bounds_within(nodes.drop_last(), s.drop_last(), len);
            assert(triples(nodes)[nodes.len() - 1] == triple(nodes[nodes.len() - 1]));
            assert(triple(nodes[nodes.len() - 1]) == s.last());
            assert forall|i: int| 0 <= i < nodes.len() implies (#[trigger] nodes[i]).start
                <= nodes[i].end <= len by {
                if i < nodes.len() - 1 {
                    assert(nodes.drop_last()[i] == nodes[i]);
                }
            }
        } else {
            lemma_in_bounds_within(nodes, s.drop_last(), len);
        }
    } else {
        assert(nodes.len() == 0);
    }
}

/// Keeps the nodes whose range lies within a text of `len` bytes.
fn nodes_in_bounds(nodes: &Vec<CapturedNode>, len: usize) -> (r: Vec<CapturedNode>)
    ensures
        triples(r@) == in_bounds(triples(nodes@), len as int),
{
    let mut r: Vec<CapturedNode> = Vec::new();
    let mut i: usize = 0;
    assert(triples(nodes@).subrange(0, 0) =~= Seq::<(Seq<char>, int, int)>::empty());
    while i < nodes.len()
        invariant
            i <= nodes@.len(),
            triples(r@) == in_bounds(triples(nodes@).subrange(0, i as int), len as int),
        decreases nodes.len() - i,
    {
        assert(triples(nodes@).subrange(0, i + 1).drop_last() =~= triples(nodes@).subrange(0, i as int));
        assert(triples(nodes@).subrange(0, i + 1).last() == triple(nodes@[i as int]));
        let n = &nodes[i];
        if n.start <= n.end && n.end <= len {
            let ghost before = r@;
            r.push(CapturedNode { kind: n.kind.clone(), start: n.start, end: n.end });
            assert(triples(r@) =~= triples(before).push(triple(nodes@[i as int])));
        }
        i = i + 1;
    }
    assert(triples(nodes@).subrange(0, nodes@.len() as int) =~= triples(nodes@));
    r
}

/// Parses `text` with the grammar `g`.
pub fn parse_with(text: &[u8], g: &Grammar) -> (r: ParsedFile)
    ensures
        r.lang() == g.lang(),
        r.text() == text@,
{
    let mut parser = get_parser(g);
    let tree = parse_bytes(&mut parser, text).unwrap();
    let mut copy: Vec<u8> = Vec::new();
    let mut i: usize = 0;
    while i < text.len()
        invariant
            i <= text@.len(),
            copy@ =~= text@.subrange(0, i as int),
        decreases text.len() - i,
    {
        copy.push(text[i]);
        i = i + 1;
    }
    assert(text@.subrange(0, text@.len() as int) =~= text@);
    ParsedFile { language: g.language, text: copy, tree }
}

/// The nodes that `q` captures at `capture_index` in the file `text`, parsed
/// with the query's grammar.
pub fn get_matches(q: &CompiledQuery, capture_index: u32, text: &[u8]) -> (r: Result<
    Vec<CapturedNode>,
    SearchError,
>)
    ensures
        r is Err <==> !vstd::utf8::valid_utf8(text@),
        r is Err ==> r == Err::<Vec<CapturedNode>, SearchError>(SearchError::EncodingError),
        r matches Ok(ns) ==> triples(ns@) == in_bounds(
            captures_of(q.lang(), q.src(), capture_index, text@),
            text@.len() as int,
        ),
        r matches Ok(ns) ==> nodes_within(ns@, text@.len()),
{
    if !is_utf8(text) {
        return Err(SearchError::EncodingError);
    }
    let g = grammar_of(q.language);
    let f = parse_with(text, &g);
    let nodes = captured_nodes(q, capture_index, &f);
    let r = nodes_in_bounds(&nodes, text.len());
    proof {
        lemma_in_bounds_within(r@, triples(nodes@), text@.len());
    }
    Ok(r)
}

/// Every node of the file `text` parsed with `g`, ancestors first, as the
/// capture-all query reports them.
pub fn get_all_nodes(text: &[u8], g: &Grammar) -> (r: Result<Vec<CapturedNode>, SearchError>)
    ensures
        !vstd::utf8::valid_utf8(text@) ==> r == Err::<Vec<CapturedNode>, SearchError>(
            SearchError::EncodingError,
        ),
        vstd::utf8::valid_utf8(text@) && !query_compiles(g.lang(), padded(ALL_NODES_QUERY@))
            ==> r == Err::<Vec<CapturedNode>, SearchError>(SearchError::InvalidQuery),
        vstd::utf8::valid_utf8(text@) && query_compiles(g.lang(), padded(ALL_NODES_QUERY@)) ==> (
        r matches Ok(ns) && triples(ns@) == in_bounds(
            captures_of(g.lang(), padded(ALL_NODES_QUERY@), 0, text@),
            text@.len() as int,
        )),
        r matches Ok(ns) ==> nodes_within(ns@, text@.len()),
{
    if !is_utf8(text) {
        return Err(SearchError::EncodingError);
    }
    let q = get_query(ALL_NODES_QUERY, g)?;
    get_matches(&q, 0, text)
}

} // verus!
