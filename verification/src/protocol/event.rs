//! The core's only output channel.

use vstd::prelude::*;

use crate::protocol::id::{ItemId, ThreadId, TurnId};
use crate::protocol::item::{Item, ItemModel, ItemStatus};
use crate::protocol::thread::TurnStatus;

verus! {

/// Something observable that happened.
#[derive(Debug, PartialEq, Eq)]
pub enum Event {
    Thread { id: ThreadId, kind: ThreadEventKind },
    Turn(TurnEvent),
    Item(ItemEvent),
    /// Token accounting for one inference step.
    Usage(Usage),
    /// Context management fired.
    Compaction { before_tokens: u64, after_tokens: u64, strategy: String },
}

/// What happened to a thread.
#[derive(Debug, Clone, Copy, PartialEq, Eq, Structural)]
pub enum ThreadEventKind {
    Created,
    Resumed,
    Forked,
    Archived,
}

/// What happened to a turn.
#[derive(Debug, PartialEq, Eq)]
pub struct TurnEvent {
    pub thread_id: ThreadId,
    pub turn_id: TurnId,
    pub status: TurnStatus,
}

/// `Started` carries the whole item, `Delta` only the increment, and `Completed`
/// the terminal payload.
#[derive(Debug, PartialEq, Eq)]
pub enum ItemEvent {
    Started { turn_id: TurnId, item: Item },
    Delta { turn_id: TurnId, item_id: ItemId, text: String },
    Completed { turn_id: TurnId, item: Item },
    StatusChanged { turn_id: TurnId, item_id: ItemId, status: ItemStatus },
}

/// What an [`Event`] says.
pub enum EventModel {
    Thread { id: Seq<char>, kind: ThreadEventKind },
    Turn { thread_id: Seq<char>, turn_id: Seq<char>, stands: TurnStatus },
    Started { turn_id: Seq<char>, item: ItemModel },
    Delta { turn_id: Seq<char>, item_id: Seq<char>, text: Seq<char> },
    Completed { turn_id: Seq<char>, item: ItemModel },
    StatusChanged { turn_id: Seq<char>, item_id: Seq<char>, status: ItemStatus },
    Usage(Usage),
    Compaction { before_tokens: u64, after_tokens: u64, strategy: Seq<char> },
}

impl DeepView for Event {
    type V = EventModel;

    open spec fn deep_view(&self) -> EventModel {
        match *self {
            Event::Thread { id, kind } => EventModel::Thread { id: id.deep_view(), kind },
            Event::Turn(turn) => EventModel::Turn {
                thread_id: turn.thread_id.deep_view(),
                turn_id: turn.turn_id.deep_view(),
                stands: turn.status,
            },
            Event::Item(ItemEvent::Started { turn_id, item }) => EventModel::Started {
                turn_id: turn_id.deep_view(),
                item: item.deep_view(),
            },
            Event::Item(ItemEvent::Delta { turn_id, item_id, text }) => EventModel::Delta {
                turn_id: turn_id.deep_view(),
                item_id: item_id.deep_view(),
                text: text@,
            },
            Event::Item(ItemEvent::Completed { turn_id, item }) => EventModel::Completed {
                turn_id: turn_id.deep_view(),
                item: item.deep_view(),
            },
            Event::Item(ItemEvent::StatusChanged { turn_id, item_id, status }) => {
                EventModel::StatusChanged {
                    turn_id: turn_id.deep_view(),
                    item_id: item_id.deep_view(),
                    status,
                }
            },
            Event::Usage(usage) => EventModel::Usage(usage),
            Event::Compaction { before_tokens, after_tokens, strategy } => EventModel::Compaction {
                before_tokens,
                after_tokens,
                strategy: strategy@,
            },
        }
    }
}

/// Tokens spent by one inference step. What they cost is priced by whoever holds
/// the model's price table.
#[derive(Debug, Clone, Copy, PartialEq, Eq, Structural)]
pub struct Usage {
    pub input_tokens: u64,
    pub output_tokens: u64,
    /// The part of the input that was served from a cache.
    pub cached_input_tokens: u64,
    pub reasoning_tokens: u64,
}

impl Default for Usage {
    fn default() -> (r: Self)
        ensures
            r == (Usage {
                input_tokens: 0,
                output_tokens: 0,
                cached_input_tokens: 0,
                reasoning_tokens: 0,
            }),
    {
        Usage { input_tokens: 0, output_tokens: 0, cached_input_tokens: 0, reasoning_tokens: 0 }
    }
}

} // verus!
