//! Items: the atomic units of input and output that a client shows.

use vstd::prelude::*;

use crate::protocol::id::{ItemId, ToolCallId};
use crate::text::text_of;

verus! {

/// One unit of input or output within a turn.
#[derive(Debug, PartialEq, Eq)]
pub struct Item {
    pub id: ItemId,
    pub kind: ItemKind,
    pub status: ItemStatus,
}

/// What an item is.
#[derive(Debug, PartialEq, Eq)]
pub enum ItemKind {
    UserMessage { text: String },
    AgentMessage { text: String },
    Reasoning { text: String },
    ToolExecution { call_id: ToolCallId, name: String, input: String },
    /// What a tool produced, as the tool describes it.
    ToolResult {
        call_id: ToolCallId,
        name: String,
        /// The tool's one-line description of what it did.
        title: String,
        /// Structured detail as JSON text: line counts, exit codes, match counts.
        metadata: Option<String>,
        /// The tool's own output, for clients that show some of it.
        body: String,
        is_error: bool,
    },
    /// A file write the agent wants to make, held for review.
    Diff { path: String, unified: String },
    /// The turn is parked until the client answers.
    Approval(ApprovalRequest),
    Error { message: String },
}

/// How far an item has come.
#[derive(Debug, Clone, Copy, PartialEq, Eq, Structural)]
pub enum ItemStatus {
    Started,
    Streaming,
    Completed,
    Failed,
    /// The user interrupted, or a cancellation dropped the queued item.
    Canceled,
}

/// A pause in the middle of a turn, until answered.
#[derive(Debug, PartialEq, Eq)]
pub struct ApprovalRequest {
    /// The resource asked for, as `action(target)`.
    pub resource: String,
    /// Short human-readable intent.
    pub summary: String,
    /// Present for edits: what the user is asked to accept.
    pub diff: Option<String>,
}

/// What an [`Item`] is.
pub struct ItemModel {
    pub id: Seq<char>,
    pub kind: KindModel,
    pub status: ItemStatus,
}

/// What an [`ItemKind`] is.
pub enum KindModel {
    UserMessage { text: Seq<char> },
    AgentMessage { text: Seq<char> },
    Reasoning { text: Seq<char> },
    ToolExecution { call_id: Seq<char>, name: Seq<char>, input: Seq<char> },
    ToolResult {
        call_id: Seq<char>,
        name: Seq<char>,
        title: Seq<char>,
        metadata: Option<Seq<char>>,
        body: Seq<char>,
        is_error: bool,
    },
    Diff { path: Seq<char>, unified: Seq<char> },
    Approval { resource: Seq<char>, summary: Seq<char>, diff: Option<Seq<char>> },
    Error { message: Seq<char> },
}

impl DeepView for ItemKind {
    type V = KindModel;

    open spec fn deep_view(&self) -> KindModel {
        match *self {
            ItemKind::UserMessage { text } => KindModel::UserMessage { text: text@ },
            ItemKind::AgentMessage { text } => KindModel::AgentMessage { text: text@ },
            ItemKind::Reasoning { text } => KindModel::Reasoning { text: text@ },
            ItemKind::ToolExecution { call_id, name, input } => KindModel::ToolExecution {
                call_id: call_id.deep_view(),
                name: name@,
                input: input@,
            },
            ItemKind::ToolResult { call_id, name, title, metadata, body, is_error } => {
                KindModel::ToolResult {
                    call_id: call_id.deep_view(),
                    name: name@,
                    title: title@,
                    metadata: text_of(metadata),
                    body: body@,
                    is_error,
                }
            },
            ItemKind::Diff { path, unified } => KindModel::Diff { path: path@, unified: unified@ },
            ItemKind::Approval(request) => KindModel::Approval {
                resource: request.resource@,
                summary: request.summary@,
                diff: text_of(request.diff),
            },
            ItemKind::Error { message } => KindModel::Error { message: message@ },
        }
    }
}

impl DeepView for Item {
    type V = ItemModel;

    open spec fn deep_view(&self) -> ItemModel {
        ItemModel { id: self.id.deep_view(), kind: self.kind.deep_view(), status: self.status }
    }
}

impl Clone for ApprovalRequest {
    fn clone(&self) -> (r: Self)
        ensures
            r == *self,
    {
        ApprovalRequest {
            resource: self.resource.clone(),
            summary: self.summary.clone(),
            diff: self.diff.clone(),
        }
    }
}

impl Clone for ItemKind {
    fn clone(&self) -> (r: Self)
        ensures
            r == *self,
    {
        match self {
            ItemKind::UserMessage { text } => ItemKind::UserMessage { text: text.clone() },
            ItemKind::AgentMessage { text } => ItemKind::AgentMessage { text: text.clone() },
            ItemKind::Reasoning { text } => ItemKind::Reasoning { text: text.clone() },
            ItemKind::ToolExecution { call_id, name, input } => ItemKind::ToolExecution {
                call_id: call_id.clone(),
                name: name.clone(),
                input: input.clone(),
            },
            ItemKind::ToolResult { call_id, name, title, metadata, body, is_error } => {
                ItemKind::ToolResult {
                    call_id: call_id.clone(),
                    name: name.clone(),
                    title: title.clone(),
                    metadata: metadata.clone(),
                    body: body.clone(),
                    is_error: *is_error,
                }
            },
            ItemKind::Diff { path, unified } => ItemKind::Diff {
                path: path.clone(),
                unified: unified.clone(),
            },
            ItemKind::Approval(request) => ItemKind::Approval(request.clone()),
            ItemKind::Error { message } => ItemKind::Error { message: message.clone() },
        }
    }
}

impl Clone for Item {
    fn clone(&self) -> (r: Self)
        ensures
            r == *self,
    {
        Item { id: self.id.clone(), kind: self.kind.clone(), status: self.status }
    }
}

} // verus!
