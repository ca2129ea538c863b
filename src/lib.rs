//! Structural code search: byte ranges of syntax-tree captures turned into
//! grep-style line records, with the language and capture selection that
//! decide which ranges there are.
use vstd::prelude::*;

pub mod lines;
pub mod records;
pub mod render;
pub mod language;
pub mod config;
pub mod treesitter;
pub mod search;

verus! {

} // verus!
