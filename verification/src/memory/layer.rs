//! Where a memory file came from, and how that orders it.

use vstd::prelude::*;

use crate::context::prune::quarter;
use crate::text::{byte_len, bytes_of};

verus! {

/// Precedence tier. Lower loads first, so that later tiers refine earlier ones.
#[derive(Debug, Clone, Copy, PartialEq, Eq, Structural, PartialOrd, Ord)]
pub enum Layer {
    /// Managed for an organization.
    Managed,
    /// The user's preferences for every project.
    User,
    /// Repository root.
    Project,
    /// A directory between the repository root and the working directory.
    Directory { depth: usize },
    /// A developer's personal note. Last, so it wins.
    Local,
}

/// The tier of a layer.
pub open spec fn tier(layer: Layer) -> int {
    match layer {
        Layer::Managed => 0,
        Layer::User => 1,
        Layer::Project => 2,
        Layer::Directory { .. } => 3,
        Layer::Local => 4,
    }
}

/// The depth of a directory's layer.
pub open spec fn depth_of(layer: Layer) -> int {
    match layer {
        Layer::Directory { depth } => depth as int,
        _ => 0,
    }
}

/// Whether `a` loads before `b`, or at the same place.
pub open spec fn layer_le(a: Layer, b: Layer) -> bool {
    tier(a) < tier(b) || (tier(a) == tier(b) && depth_of(a) <= depth_of(b))
}

impl Layer {
    fn tier_and_depth(self) -> (r: (u8, usize))
        ensures
            r.0 == tier(self),
            r.1 == depth_of(self),
    {
        match self {
            Layer::Managed => (0, 0),
            Layer::User => (1, 0),
            Layer::Project => (2, 0),
            Layer::Directory { depth } => (3, depth),
            Layer::Local => (4, 0),
        }
    }

    /// Whether this layer loads before another, or at the same place.
    pub fn loads_before(self, other: Layer) -> (r: bool)
        ensures
            r == layer_le(self, other),
    {
        let (a, m) = self.tier_and_depth();
        let (b, n) = other.tier_and_depth();
        a < b || (a == b && m <= n)
    }
}

/// Where a memory file came from.
#[derive(Debug, PartialEq, Eq)]
pub struct Origin {
    pub layer: Layer,
    pub path: String,
}

/// A memory file, read.
#[derive(Debug, PartialEq, Eq)]
pub struct MemoryFile {
    pub origin: Origin,
    /// File contents with imports inlined.
    pub content: String,
    /// Files pulled in by reference.
    pub imported: Vec<String>,
}

impl MemoryFile {
    /// Rough token estimate, at four bytes a token.
    pub fn estimated_tokens(&self) -> (r: usize)
        ensures
            r == quarter(bytes_of(self.content@)),
    {
        let n: usize = byte_len(&self.content);
        n / 4 + (if n % 4 == 0 { 0usize } else { 1usize })
    }
}

} // verus!
