//! Layered instruction files: the agent's standing knowledge of a project.
//!
//! Loaded once at session start, most general first, so that a specific layer
//! refines a general one. The result is a snapshot: it stands in the cached prompt
//! prefix, and re-reading a file would invalidate that.

use vstd::prelude::*;

use crate::text::{decimal, decimal_of};

pub mod imports;
pub mod layer;
pub mod laws;
pub mod loader;

pub use imports::resolve_imports;
pub use layer::{Layer, MemoryFile, Origin};
pub use loader::MemorySnapshot;

verus! {

/// Filenames recognized at each level, in load order: the shared convention first,
/// so that the more specific file refines it.
pub open spec fn memory_filenames() -> Seq<Seq<char>> {
    seq!["AGENTS.md"@, "OCTANE.md"@]
}

/// The filenames recognized at each level, in load order.
pub fn filenames() -> (r: Vec<String>)
    ensures
        r.deep_view() == memory_filenames(),
{
    let mut r: Vec<String> = Vec::new();
    r.push("AGENTS.md".to_owned());
    r.push("OCTANE.md".to_owned());
    assert(r.deep_view() =~= memory_filenames());
    r
}

/// Personal notes, not committed.
pub const LOCAL_MEMORY_FILENAME: &'static str = "OCTANE.local.md";

/// Why memory could not be loaded.
#[derive(Debug, PartialEq, Eq)]
pub enum MemoryError {
    Io { path: String, source: String },
    ImportCycle(String),
    ImportTooDeep { path: String, limit: usize },
}

impl MemoryError {
    /// The message shown for the error.
    pub fn to_string(&self) -> (r: String)
        ensures
            r@ == match *self {
                MemoryError::Io { path, source } => "reading "@ + path@ + ": "@ + source@,
                MemoryError::ImportCycle(path) => "import cycle detected: "@ + path@,
                MemoryError::ImportTooDeep { path, limit } => "import depth limit ("@ + decimal_of(
                    limit as nat,
                ) + ") exceeded at "@ + path@,
            },
    {
        match self {
            MemoryError::Io { path, source } => {
                let mut r = "reading ".to_owned();
                r.push_str(path);
                r.push_str(": ");
                r.push_str(source);
                r
            },
            MemoryError::ImportCycle(path) => {
                let mut r = "import cycle detected: ".to_owned();
                r.push_str(path);
                r
            },
            MemoryError::ImportTooDeep { path, limit } => {
                let mut r = "import depth limit (".to_owned();
                r.push_str(&decimal(*limit as u64));
                r.push_str(") exceeded at ");
                r.push_str(path);
                r
            },
        }
    }
}

} // verus!
