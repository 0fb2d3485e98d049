//! The vocabulary the core and its clients share.
//!
//! Everything the core does is published as an [`Event`]; a terminal is only one
//! subscriber.

pub mod event;
pub mod id;
pub mod item;
pub mod message;
pub mod thread;

pub use event::{Event, ItemEvent, ThreadEventKind, TurnEvent, Usage};
pub use id::{ItemId, SessionId, ThreadId, ToolCallId, TurnId};
pub use item::{ApprovalRequest, Item, ItemKind, ItemStatus};
pub use message::{Message, Part, Role, ToolCall, ToolResult};
pub use thread::{Thread, Turn, TurnStatus};
