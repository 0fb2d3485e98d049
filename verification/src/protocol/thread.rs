//! Threads and turns.

use vstd::prelude::*;

use crate::protocol::id::{ItemId, ThreadId, TurnId};

verus! {

/// A conversation: persisted, resumable and forkable. Times are RFC 3339 text.
#[derive(Debug, PartialEq, Eq)]
pub struct Thread {
    pub id: ThreadId,
    /// Set when this thread was forked from another.
    pub parent_id: Option<ThreadId>,
    pub title: Option<String>,
    pub created_at: String,
    pub updated_at: String,
    pub archived: bool,
}

/// One unit of agent work: as many cycles of inference and tools as it takes.
#[derive(Debug, PartialEq, Eq)]
pub struct Turn {
    pub id: TurnId,
    pub thread_id: ThreadId,
    pub status: TurnStatus,
    pub items: Vec<ItemId>,
    /// Inference round trips consumed.
    pub steps: u32,
    pub started_at: String,
    pub ended_at: Option<String>,
}

/// How far a turn has come.
#[derive(Debug, Clone, Copy, PartialEq, Eq, Structural)]
pub enum TurnStatus {
    Running,
    /// Parked on an approval request.
    AwaitingApproval,
    Completed,
    Canceled,
    Failed,
}

} // verus!
