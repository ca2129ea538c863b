use tree_sitter_grep::config::{
    check_inputs, check_parsed_argument, plan_plugin_argument, resolve_capture_index, SearchError,
};
use tree_sitter_grep::language::{
    all_languages, by_extension, candidate_languages, extension_of, walk_accepts, SupportedLanguage,
};
use tree_sitter_grep::records::{grep_records, strip_carriage_return, vimgrep_records, LineRecord};
use tree_sitter_grep::render::{render_record, render_records};
use tree_sitter_grep::search::{check_query, file_nodes, file_output, search_file, select_ranges};
use tree_sitter_grep::treesitter::{get_matches, grammar_of, prepare_query};
use tree_sitter_grep::lines::split_lines;

const LIB_RS: &str = "mod helpers;\n\npub fn add(left: usize, right: usize) -> usize {\n    left + right\n}\n\n#[cfg(test)]\nmod tests {\n    use super::*;\n\n    #[test]\n    fn it_works() {\n        let result = add(2, 2);\n        assert_eq!(result, 4);\n    }\n}\n";

const FUNCTION_ITEM: &str = "(function_item) @function_item";

fn search(path: &str, text: &str, forced: Option<SupportedLanguage>, query: &str, capture: Option<&str>, vimgrep: bool) -> String {
    let capture = capture.map(|c| c.to_string());
    let out = search_file(path.as_bytes(), text.as_bytes(), forced, query, capture.as_ref(), vimgrep).unwrap();
    String::from_utf8(out).unwrap()
}

#[test]
fn function_items_grep_style() {
    let out = search("src/lib.rs", LIB_RS, Some(SupportedLanguage::Rust), FUNCTION_ITEM, None, false);
    assert_eq!(
        out,
        "src/lib.rs:3:pub fn add(left: usize, right: usize) -> usize {\n\
         src/lib.rs:4:    left + right\n\
         src/lib.rs:5:}\n\
         src/lib.rs:12:    fn it_works() {\n\
         src/lib.rs:13:        let result = add(2, 2);\n\
         src/lib.rs:14:        assert_eq!(result, 4);\n\
         src/lib.rs:15:    }\n"
    );
}

#[test]
fn function_items_one_line_files() {
    let out = search("src/helpers.rs", "pub fn helper() {}\n", Some(SupportedLanguage::Rust), FUNCTION_ITEM, None, false);
    assert_eq!(out, "src/helpers.rs:1:pub fn helper() {}\n");
    let out = search("src/stop.rs", "fn stop_it() {}\n", None, FUNCTION_ITEM, None, false);
    assert_eq!(out, "src/stop.rs:1:fn stop_it() {}\n");
}

#[test]
fn function_items_vimgrep_style() {
    let out = search("src/lib.rs", LIB_RS, Some(SupportedLanguage::Rust), FUNCTION_ITEM, None, true);
    assert_eq!(
        out,
        "src/lib.rs:3:1:pub fn add(left: usize, right: usize) -> usize {\n\
         src/lib.rs:12:5:    fn it_works() {\n"
    );
}

#[test]
fn predicate_and_capture_name() {
    let q = "(function_item name: (identifier) @name (#eq? @name \"add\")) @function_item";
    let out = search("src/lib.rs", LIB_RS, Some(SupportedLanguage::Rust), q, Some("function_item"), false);
    assert_eq!(
        out,
        "src/lib.rs:3:pub fn add(left: usize, right: usize) -> usize {\n\
         src/lib.rs:4:    left + right\n\
         src/lib.rs:5:}\n"
    );
}

#[test]
fn default_capture_is_the_first() {
    let q = "(function_item name: (identifier) @name) @function_item";
    let out = search("src/lib.rs", LIB_RS, Some(SupportedLanguage::Rust), q, None, false);
    assert_eq!(out, "src/lib.rs:3:pub fn add(left: usize, right: usize) -> usize {\nsrc/lib.rs:12:    fn it_works() {\n");
}

#[test]
fn no_matches_no_output() {
    let q = "(function_item name: (identifier) @name (#eq? @name \"addz\")) @function_item";
    let out = search("src/lib.rs", LIB_RS, Some(SupportedLanguage::Rust), q, None, false);
    assert_eq!(out, "");
}

#[test]
fn invalid_query() {
    let r = prepare_query("(function_itemz) @function_item", &grammar_of(SupportedLanguage::Rust), None);
    assert!(matches!(r, Err(SearchError::InvalidQuery)));
    let r = search_file(b"src/lib.rs", LIB_RS.as_bytes(), Some(SupportedLanguage::Rust), "(function_itemz) @f", None, false);
    assert_eq!(r, Err(SearchError::InvalidQuery));
}

#[test]
fn invalid_capture_name() {
    let wanted = "function_itemz".to_string();
    let r = prepare_query(FUNCTION_ITEM, &grammar_of(SupportedLanguage::Rust), Some(&wanted));
    assert!(matches!(r, Err(SearchError::InvalidCaptureName(n)) if n == "function_itemz"));
}

#[test]
fn auto_language_skips_grammars_that_reject_the_query() {
    let js = "const js_foo = () => {}\n";
    let tsx = "const foo = () => {}\n";
    assert_eq!(search("javascript_src/index.js", js, None, FUNCTION_ITEM, None, false), "");
    assert_eq!(search("typescript_src/index.tsx", tsx, None, FUNCTION_ITEM, None, false), "");
    assert_eq!(search("backend/lib.rs", "fn foo() {}\n", None, FUNCTION_ITEM, None, false), "backend/lib.rs:1:fn foo() {}\n");
}

#[test]
fn auto_language_arrow_functions() {
    let q = "(arrow_function) @arrow_function";
    assert_eq!(search("javascript_src/index.js", "const js_foo = () => {}\n", None, q, None, false), "javascript_src/index.js:1:const js_foo = () => {}\n");
    assert_eq!(search("typescript_src/index.tsx", "const foo = () => {}\n", None, q, None, false), "typescript_src/index.tsx:1:const foo = () => {}\n");
}

#[test]
fn unknown_extension_skipped_unless_forced() {
    assert_eq!(search("notes.txt", "fn foo() {}\n", None, FUNCTION_ITEM, None, false), "");
    assert_eq!(search("notes.txt", "fn foo() {}\n", Some(SupportedLanguage::Rust), FUNCTION_ITEM, None, false), "notes.txt:1:fn foo() {}\n");
    assert_eq!(candidate_languages(b"notes.txt", Some(SupportedLanguage::Javascript)), vec![SupportedLanguage::Javascript]);
    assert_eq!(candidate_languages(b"notes.txt", None), vec![]);
    assert_eq!(candidate_languages(b"src/a.tsx", None), vec![SupportedLanguage::Typescript]);
}

#[test]
fn leading_dot_slash_kept() {
    let out = search("./src/lib.rs", LIB_RS, Some(SupportedLanguage::Rust), FUNCTION_ITEM, None, false);
    assert!(!out.is_empty());
    for line in out.lines() {
        assert!(line.starts_with("./src/lib.rs:"));
    }
}

#[test]
fn filter_before_line_ten() {
    let text = LIB_RS.as_bytes();
    let (lang, nodes) = file_nodes(b"src/lib.rs", text, Some(SupportedLanguage::Rust), Some(FUNCTION_ITEM), None).unwrap().unwrap();
    assert_eq!(lang, SupportedLanguage::Rust);
    let keep: Vec<bool> = nodes.iter().map(|n| text[..n.start].iter().filter(|b| **b == b'\n').count() + 1 < 10).collect();
    let gs = select_ranges(&nodes, Some(&keep));
    let out = String::from_utf8(file_output(b"src/lib.rs", text, &gs, false)).unwrap();
    assert_eq!(
        out,
        "src/lib.rs:3:pub fn add(left: usize, right: usize) -> usize {\n\
         src/lib.rs:4:    left + right\n\
         src/lib.rs:5:}\n"
    );
}

#[test]
fn filter_without_query_sees_every_node() {
    let text = "fn a() {}\n".as_bytes();
    let (_, nodes) = file_nodes(b"a.rs", text, None, None, None).unwrap().unwrap();
    assert_eq!(nodes[0].kind, "source_file");
    assert!(nodes.iter().any(|n| n.kind == "function_item" && n.start == 0 && n.end == 9));
    let keep: Vec<bool> = nodes.iter().map(|n| n.kind == "identifier").collect();
    let gs = select_ranges(&nodes, Some(&keep));
    assert_eq!(gs, vec![(3, 4)]);
}

#[test]
fn invalid_utf8_is_an_encoding_error() {
    let bytes = [b'f', b'n', 0xff, b'\n'];
    let r = file_nodes(b"a.rs", &bytes, None, Some(FUNCTION_ITEM), None);
    assert!(matches!(r, Err(SearchError::EncodingError)));
    let q = prepare_query(FUNCTION_ITEM, &grammar_of(SupportedLanguage::Rust), None).unwrap_or_else(|_| panic!("query"));
    assert!(matches!(get_matches(&q.query, 0, &bytes), Err(SearchError::EncodingError)));
}

#[test]
fn overlapping_ranges_print_each_line_once_in_order() {
    let text = b"aa\nbb\ncc\ndd\n";
    let recs = grep_records(text, &vec![(7, 11), (0, 4), (3, 8)]);
    let lines: Vec<usize> = recs.iter().map(|r| r.line).collect();
    assert_eq!(lines, vec![1, 2, 3, 4]);
    assert_eq!(recs[2].text, b"cc".to_vec());
    assert!(recs.iter().all(|r| r.column.is_none()));
}

#[test]
fn vimgrep_one_record_per_range_sorted() {
    let text = b"ab cd\nef\n";
    let recs = vimgrep_records(text, &vec![(6, 8), (3, 5), (0, 2), (3, 4)]);
    let pos: Vec<(usize, Option<usize>)> = recs.iter().map(|r| (r.line, r.column)).collect();
    assert_eq!(pos, vec![(1, Some(1)), (1, Some(4)), (1, Some(4)), (2, Some(1))]);
    assert_eq!(recs[3].text, b"ef".to_vec());
}

#[test]
fn empty_range_touches_its_line() {
    let recs = grep_records(b"x\ny\n", &vec![(2, 2)]);
    assert_eq!(recs.len(), 1);
    assert_eq!(recs[0].line, 2);
    assert!(grep_records(b"x\n", &vec![]).is_empty());
    assert!(vimgrep_records(b"x\n", &vec![]).is_empty());
}

#[test]
fn carriage_return_dropped() {
    let recs = grep_records(b"a\r\nb\r\n", &vec![(0, 1)]);
    assert_eq!(recs[0].text, b"a".to_vec());
    assert_eq!(strip_carriage_return(&b"x\r".to_vec()), b"x".to_vec());
    assert_eq!(strip_carriage_return(&b"x\r\r".to_vec()), b"x\r".to_vec());
    assert_eq!(strip_carriage_return(&vec![]), Vec::<u8>::new());
}

#[test]
fn lines_split_at_line_breaks() {
    assert_eq!(split_lines(b"a\n\nbc"), vec![b"a".to_vec(), vec![], b"bc".to_vec()]);
    assert_eq!(split_lines(b""), vec![Vec::<u8>::new()]);
}

#[test]
fn record_rendering() {
    let rec = LineRecord { line: 120, column: None, text: b"let x;".to_vec() };
    assert_eq!(render_record(b"p.rs", &rec), b"p.rs:120:let x;\n".to_vec());
    let rec = LineRecord { line: 7, column: Some(10), text: b"y".to_vec() };
    assert_eq!(render_record(b"./q.rs", &rec), b"./q.rs:7:10:y\n".to_vec());
    assert_eq!(render_records(b"p.rs", &vec![]), Vec::<u8>::new());
}

#[test]
fn reruns_give_the_same_output() {
    let a = search("src/lib.rs", LIB_RS, None, FUNCTION_ITEM, None, false);
    let b = search("src/lib.rs", LIB_RS, None, FUNCTION_ITEM, None, false);
    assert_eq!(a, b);
}

#[test]
fn extensions() {
    assert_eq!(extension_of(b"src/lib.rs"), Some(b"rs".to_vec()));
    assert_eq!(extension_of(b"./a.b/c.tsx"), Some(b"tsx".to_vec()));
    assert_eq!(extension_of(b"a.b/c"), None);
    assert_eq!(extension_of(b".bashrc"), None);
    assert_eq!(extension_of(b"dir/.hidden.js"), Some(b"js".to_vec()));
    assert_eq!(by_extension(b"js"), vec![SupportedLanguage::Javascript]);
    assert_eq!(by_extension(b"py"), vec![]);
    assert!(walk_accepts(b"x/y.rs", None));
    assert!(!walk_accepts(b"x/y.rs", Some(SupportedLanguage::Typescript)));
    assert!(!walk_accepts(b"Makefile", None));
    assert_eq!(SupportedLanguage::from_name(b"typescript"), Some(SupportedLanguage::Typescript));
    assert_eq!(SupportedLanguage::from_name(b"rustz"), None);
    assert_eq!(all_languages().len(), 3);
}

#[test]
fn input_combinations() {
    assert_eq!(check_inputs(true, true, false), Err(SearchError::MutuallyExclusiveOptions));
    assert_eq!(check_inputs(false, false, false), Err(SearchError::MissingRequiredInput));
    assert_eq!(check_inputs(false, false, true), Ok(()));
    assert_eq!(check_inputs(false, true, false), Ok(()));
}

#[test]
fn capture_resolution() {
    let names = vec!["f".to_string(), "n".to_string(), "n".to_string()];
    assert_eq!(resolve_capture_index(&names, None), Ok(0));
    assert_eq!(resolve_capture_index(&names, Some(&"n".to_string())), Ok(1));
    assert_eq!(resolve_capture_index(&names, Some(&"z".to_string())), Err(SearchError::InvalidCaptureName("z".to_string())));
}

#[test]
fn plugin_argument_negotiation() {
    assert_eq!(plan_plugin_argument(true, false), Err(SearchError::PluginExpectsArgument));
    assert_eq!(plan_plugin_argument(true, true), Ok(true));
    assert_eq!(plan_plugin_argument(false, true), Ok(false));
    let abc = "abc".to_string();
    assert_eq!(check_parsed_argument(false, &abc), Err(SearchError::PluginArgumentUnparseable("abc".to_string())));
    assert_eq!(check_parsed_argument(true, &abc), Ok(()));
}

#[test]
fn query_checked_before_search() {
    assert_eq!(check_query(FUNCTION_ITEM, None, Some(SupportedLanguage::Rust)), Ok(()));
    assert_eq!(check_query(FUNCTION_ITEM, None, None), Ok(()));
    assert_eq!(check_query("(function_itemz) @f", None, Some(SupportedLanguage::Rust)), Err(SearchError::InvalidQuery));
    assert_eq!(check_query("(function_itemz) @f", None, None), Err(SearchError::InvalidQuery));
    assert_eq!(check_query("(function_itemz", None, None), Err(SearchError::InvalidQuery));
    assert_eq!(check_query(FUNCTION_ITEM, None, Some(SupportedLanguage::Javascript)), Err(SearchError::InvalidQuery));
    let wanted = "nope".to_string();
    assert_eq!(check_query(FUNCTION_ITEM, Some(&wanted), None), Err(SearchError::InvalidCaptureName("nope".to_string())));
}

#[test]
fn matches_found_without_language_argument() {
    let q = prepare_query(FUNCTION_ITEM, &grammar_of(SupportedLanguage::Rust), None).unwrap_or_else(|_| panic!("query"));
    let nodes = get_matches(&q.query, q.capture_index, LIB_RS.as_bytes()).unwrap();
    let ranges: Vec<(usize, usize)> = nodes.iter().map(|n| (n.start, n.end)).collect();
    assert_eq!(ranges.len(), 2);
    assert_eq!(nodes[0].kind, "function_item");
    assert_eq!(&LIB_RS[ranges[0].0..ranges[0].0 + 10], "pub fn add");
}
