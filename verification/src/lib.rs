//! A recursive file/content search engine.
//!
//! Given a snapshot of a directory tree, a depth bound and a literal text
//! pattern, the library finds entries whose name contains the pattern, or (in
//! content-search mode) occurrences of the pattern inside the textual content
//! of files. Matches flow into a result sink that counts visited files and
//! folders, enforces an overflow threshold on immediate rendering, and renders
//! each match with the matched part visually distinguished.

pub mod laws;
pub mod results;
pub mod tree;
pub mod snapshot;
pub mod text;

use vstd::prelude::*;

verus! {

/// The configuration a run of the search engine is driven by.
pub struct Arguments {
    /// The literal, non-empty pattern to search for.
    pub pattern: String,
    /// How many directory levels to descend into.
    pub depth: u8,
    /// Search file contents instead of entry names.
    pub infile: bool,
    /// Include hidden entries (names starting with `.`).
    pub all: bool,
    /// Honour `.ignore` / `.gitignore` files found in each directory.
    pub useignore: bool,
    /// Render a metadata block along with each path.
    pub verbose: bool,
    /// Render only the match lines, without metadata or summary.
    pub pathonly: bool,
    /// Restrict the output to the single result with this index.
    pub get: Option<usize>,
}

} // verus!
