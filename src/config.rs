//! Run configuration: which inputs were given, which capture is reported,
//! and what a filter plugin's argument needs.
use vstd::prelude::*;

verus! {

/// A failure that stops a run, or the search of one file.
#[derive(PartialEq, Eq, Debug)]
pub enum SearchError {
    /// The query source does not compile for the grammar.
    InvalidQuery,
    /// The requested capture name is not among the query's captures.
    InvalidCaptureName(String),
    /// The query file could not be read.
    QueryFileUnreadable(String),
    /// Both an inline query and a query file were given.
    MutuallyExclusiveOptions,
    /// Neither a query nor a filter was given.
    MissingRequiredInput,
    /// The plugin takes an argument and none was given.
    PluginExpectsArgument,
    /// The plugin rejected the argument it was given.
    PluginArgumentUnparseable(String),
    /// A file's bytes are not UTF-8.
    EncodingError,
    /// The grammar could not be loaded into a parser, or parsing gave no tree.
    ParseFailure,
}

/// The error `check_inputs` gives for a choice of inputs, if any.
pub open spec fn inputs_error(query_source: bool, query_file: bool, filter: bool) -> Option<
    SearchError,
> {
    if query_source && query_file {
        Some(SearchError::MutuallyExclusiveOptions)
    } else if !query_source && !query_file && !filter {
        Some(SearchError::MissingRequiredInput)
    } else {
        None
    }
}

/// Checks that at most one query input and at least one query or filter
/// were given.
pub fn check_inputs(query_source: bool, query_file: bool, filter: bool) -> (r: Result<
    (),
    SearchError,
>)
    ensures
        match inputs_error(query_source, query_file, filter) {
            Some(e) => r == Err::<(), SearchError>(e),
            None => r is Ok,
        },
{
    if query_source && query_file {
        Err(SearchError::MutuallyExclusiveOptions)
    } else if !query_source && !query_file && !filter {
        Err(SearchError::MissingRequiredInput)
    } else {
        Ok(())
    }
}

/// The first position of `name` in `names`, or -1.
pub open spec fn first_index_of(names: Seq<Seq<char>>, name: Seq<char>) -> int
    decreases names.len(),
{
    if names.len() == 0 {
        -1
    } else {
        let i = first_index_of(names.drop_last(), name);
        if i >= 0 {
            i
        } else if names.last() == name {
            names.len() - 1
        } else {
            -1
        }
    }
}

pub open spec fn views(names: Seq<String>) -> Seq<Seq<char>> {
    names.map_values(|s: String| s@)
}

/// The capture reported: the first one named `wanted`, or the query's first
/// capture where no name is asked for.
pub fn resolve_capture_index(names: &Vec<String>, wanted: Option<&String>) -> (r: Result<
    u32,
    SearchError,
>)
    requires
        names@.len() <= u32::MAX,
    ensures
        match wanted {
            None => r == Ok::<u32, SearchError>(0),
            Some(w) => {
                let i = first_index_of(views(names@), w@);
                if i >= 0 {
                    r matches Ok(v) && v as int == i
                } else {
                    match r {
                        Err(SearchError::InvalidCaptureName(n)) => n@ == w@,
                        _ => false,
                    }
                }
            },
        },
{
    match wanted {
        None => Ok(0),
        Some(w) => {
            let mut i: usize = 0;
            while i < names.len()
                invariant
                    i <= names@.len() <= u32::MAX,
                    wanted == Some(w),
                    first_index_of(views(names@).subrange(0, i as int), w@) == -1,
                decreases names.len() - i,
            {
                let ghost prefix = views(names@).subrange(0, i + 1);
                assert(prefix.drop_last() =~= views(names@).subrange(0, i as int));
                assert(prefix.last() == names@[i as int]@);
                if names[i] == *w {
                    assert(views(names@)[i as int] == names@[i as int]@);
                    assert(first_index_of(prefix, w@) == i);
                    proof {
                        lemma_first_index_extends(views(names@), w@, i + 1);
                    }
                    return Ok(i as u32);
                }
                i = i + 1;
            }
            assert(views(names@).subrange(0, i as int) =~= views(names@));
            Err(SearchError::InvalidCaptureName(w.clone()))
        },
    }
}

/// A name found in a prefix is found at the same place in the whole.
proof fn lemma_first_index_extends(names: Seq<Seq<char>>, name: Seq<char>, m: int)
    requires
        0 <= m <= names.len(),
        first_index_of(names.subrange(0, m), name) >= 0,
    ensures
        first_index_of(names, name) == first_index_of(names.subrange(0, m), name),
    decreases names.len() - m,
{
    if m < names.len() {
        assert(names.subrange(0, m + 1).drop_last() =~= names.subrange(0, m));
        lemma_first_index_extends(names, name, m + 1);
    } else {
        assert(names.subrange(0, m) =~= names);
    }
}

/// What a filter plugin's argument calls for before the search starts.
pub open spec fn plugin_argument_needed(has_parser: bool, arg_given: bool) -> Result<bool, SearchError> {
    if has_parser && !arg_given {
        Err(SearchError::PluginExpectsArgument)
    } else {
        Ok(has_parser)
    }
}

/// Whether the plugin's argument parser is to be called: `Ok(true)` where the
/// plugin has one and an argument was given, an error where it has one and
/// none was given, `Ok(false)` where it has none.
pub fn plan_plugin_argument(has_parser: bool, arg_given: bool) -> (r: Result<bool, SearchError>)
    ensures
        r == plugin_argument_needed(has_parser, arg_given),
{
    if has_parser && !arg_given {
        Err(SearchError::PluginExpectsArgument)
    } else {
        Ok(has_parser)
    }
}

/// The outcome of the plugin's argument parser on `arg`: an error where it
/// rejected the argument.
pub fn check_parsed_argument(parsed: bool, arg: &String) -> (r: Result<(), SearchError>)
    ensures
        parsed ==> r is Ok,
        !parsed ==> match r {
            Err(SearchError::PluginArgumentUnparseable(a)) => a@ == arg@,
            _ => false,
        },
{
    if parsed {
        Ok(())
    } else {
        Err(SearchError::PluginArgumentUnparseable(arg.clone()))
    }
}

} // verus!
