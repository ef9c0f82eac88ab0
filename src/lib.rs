//! Converts an instance tree into files, folders and project manifest entries.
use vstd::prelude::*;

pub mod codec;
pub mod filesystem;
pub mod laws;
pub mod resolve;
pub mod sanitize;
pub mod structures;
pub mod tree;
pub mod walk;

pub use filesystem::FileSystem;
pub use walk::process_instructions;

verus! {

/// Whether non-script subtrees are materialized, or pruned to the paths that
/// lead to scripts.
#[derive(Clone, Copy, PartialEq, Eq, Structural)]
pub enum ExportMode {
    Full,
    ScriptsOnly,
}

} // verus!
