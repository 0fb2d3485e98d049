//! Context management: how full the window is, and how to make room.
//!
//! Old tool output is pruned first, which costs nothing; then the conversation is
//! summarized. A tool call always keeps its result, and the prefix is never edited.

use vstd::prelude::*;

use crate::text::{decimal, decimal_of};

pub mod budget;
pub mod compact;
pub mod laws;
pub mod prune;
pub mod window_laws;

pub use budget::{Budget, ModelInfo, Pressure};
pub use compact::{Plan, Summary};
pub use prune::{prune, PruneOutcome};

verus! {

/// Tokens of recent history never touched by pruning.
pub const PRUNE_PROTECT_TOKENS: usize = 40_000;

/// Minimum reclaimable tokens before pruning runs at all: below it, losing the
/// cache costs more than the tokens saved.
pub const PRUNE_MINIMUM_TOKENS: usize = 20_000;

/// Consecutive compaction failures after which compaction is abandoned.
pub const COMPACTION_FAILURE_LIMIT: u32 = 3;

/// Why the context could not be reduced.
#[derive(Debug, PartialEq, Eq)]
pub enum ContextError {
    /// Compaction failed too often in a row.
    CircuitOpen { attempts: u32 },
    /// No span can be summarized without orphaning a tool call.
    Irreducible,
    /// The summarizer failed.
    Summarization(String),
}

/// The message shown for an error.
pub open spec fn error_text(error: ContextError) -> Seq<char> {
    match error {
        ContextError::CircuitOpen { attempts } => "compaction failed "@ + decimal_of(
            attempts as nat,
        ) + " times; giving up"@,
        ContextError::Irreducible => {
            "history cannot be reduced further without orphaning a tool call"@
        },
        ContextError::Summarization(reason) => "summarization failed: "@ + reason@,
    }
}

impl ContextError {
    /// The message shown for the error.
    pub fn to_string(&self) -> (r: String)
        ensures
            r@ == error_text(*self),
    {
        match self {
            ContextError::CircuitOpen { attempts } => {
                let mut r = "compaction failed ".to_owned();
                r.push_str(&decimal(*attempts as u64));
                r.push_str(" times; giving up");
                r
            },
            ContextError::Irreducible => {
                "history cannot be reduced further without orphaning a tool call".to_owned()
            },
            ContextError::Summarization(reason) => {
                let mut r = "summarization failed: ".to_owned();
                r.push_str(reason);
                r
            },
        }
    }
}

} // verus!
