//! Summarises a source-code workspace as a short outline of its directories,
//! files and top-level declarations: files are collected under limits, their
//! symbols extracted with syntax-tree queries, and the result rendered as a
//! tree or as a statistical summary.

use vstd::prelude::*;

/// Request-level choices: limits, the workspace path, one file's analysis.
pub mod analysis;
/// Which files of a walk are kept, in which order, under the caps.
pub mod collect;
/// Symbol statistics, the extension histogram and the summary text.
pub mod render;
/// Grammars, capture patterns and the normalisation of symbol records.
pub mod symbols;
/// Character-sequence helpers: equality, search, ordering, sorting, numbers.
pub mod text;
/// The path-segment tree of the files and its rendering.
pub mod tree;
/// Users, their profiles, roles and permissions, and a repository of them.
pub mod user;

verus! {

} // verus!
