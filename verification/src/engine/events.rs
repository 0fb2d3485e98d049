//! Where the loop publishes to.
//!
//! Events are published as they happen rather than returned at the end of a turn:
//! that is what makes streaming possible. Nothing bounds the queue, so a slow
//! reader never makes the loop wait.

use vstd::prelude::*;

use crate::protocol::event::{Event, EventModel, ItemEvent, TurnEvent, Usage};
use crate::protocol::id::{is_fresh_id, ItemId, ThreadId, TurnId};
use crate::protocol::item::{Item, ItemKind, ItemModel, ItemStatus};
use crate::protocol::thread::TurnStatus;

verus! {

/// The events of one turn that nobody has read yet.
#[derive(Debug)]
pub struct EventSink {
    turn: TurnId,
    listening: bool,
    queue: Vec<Event>,
}

/// What an [`EventSink`] holds.
pub struct SinkModel {
    pub turn: Seq<char>,
    /// Whether anybody listens; without, what is sent is dropped.
    pub listening: bool,
    pub queue: Seq<EventModel>,
}

impl DeepView for EventSink {
    type V = SinkModel;

    closed spec fn deep_view(&self) -> SinkModel {
        SinkModel {
            turn: self.turn.deep_view(),
            listening: self.listening,
            queue: self.queue.deep_view(),
        }
    }
}

/// A sink after an event was sent to it.
pub open spec fn sent(sink: SinkModel, event: EventModel) -> SinkModel {
    if sink.listening {
        SinkModel { queue: sink.queue.push(event), ..sink }
    } else {
        sink
    }
}

impl EventSink {
    /// A sink for a turn's events.
    pub fn new(turn: TurnId) -> (r: Self)
        ensures
            r.deep_view() == (SinkModel {
                turn: turn.deep_view(),
                listening: true,
                queue: Seq::empty(),
            }),
    {
        let r = EventSink { turn, listening: true, queue: Vec::new() };
        assert(r.queue.deep_view() =~= Seq::<EventModel>::empty());
        r
    }

    /// A sink that discards everything.
    pub fn discard() -> (r: Self)
        ensures
            !r.deep_view().listening,
            r.deep_view().queue == Seq::<EventModel>::empty(),
            is_fresh_id(r.deep_view().turn, "trn"@),
    {
        let r = EventSink { turn: TurnId::new(), listening: false, queue: Vec::new() };
        assert(r.queue.deep_view() =~= Seq::<EventModel>::empty());
        r
    }

    /// Nobody reads any more: what is sent from now on is dropped, and that is no
    /// error.
    pub fn close(&mut self)
        ensures
            final(self).deep_view() == (SinkModel { listening: false, ..old(self).deep_view() }),
    {
        self.listening = false;
    }

    /// Sends an event.
    pub fn send(&mut self, event: Event)
        ensures
            final(self).deep_view() == sent(old(self).deep_view(), event.deep_view()),
    {
        if self.listening {
            let ghost before = self.queue.deep_view();
            self.queue.push(event);
            assert(self.queue.deep_view() =~= before.push(event.deep_view()));
        }
    }

    /// Takes the events sent since the last call, in order.
    pub fn take(&mut self) -> (r: Vec<Event>)
        ensures
            r.deep_view() == old(self).deep_view().queue,
            final(self).deep_view() == (SinkModel {
                queue: Seq::empty(),
                ..old(self).deep_view()
            }),
    {
        let mut r: Vec<Event> = Vec::new();
        assert(r.deep_view() =~= Seq::<EventModel>::empty());
        std::mem::swap(&mut r, &mut self.queue);
        r
    }

    /// Announces an item and returns its id, by which deltas address it.
    pub fn item_started(&mut self, kind: ItemKind) -> (r: ItemId)
        ensures
            is_fresh_id(r.deep_view(), "itm"@),
            final(self).deep_view() == sent(
                old(self).deep_view(),
                EventModel::Started {
                    turn_id: old(self).deep_view().turn,
                    item: ItemModel {
                        id: r.deep_view(),
                        kind: kind.deep_view(),
                        status: ItemStatus::Streaming,
                    },
                },
            ),
    {
        let id = ItemId::new();
        let turn_id = self.turn.clone();
        self.send(
            Event::Item(
                ItemEvent::Started {
                    turn_id,
                    item: Item { id: id.clone(), kind, status: ItemStatus::Streaming },
                },
            ),
        );
        id
    }

    /// Extends an item.
    pub fn item_delta(&mut self, item: &ItemId, text: &str)
        ensures
            final(self).deep_view() == sent(
                old(self).deep_view(),
                EventModel::Delta {
                    turn_id: old(self).deep_view().turn,
                    item_id: item.deep_view(),
                    text: text@,
                },
            ),
    {
        let turn_id = self.turn.clone();
        self.send(
            Event::Item(ItemEvent::Delta { turn_id, item_id: item.clone(), text: text.to_owned() }),
        );
    }

    /// Finishes an item with its terminal payload.
    pub fn item_completed(&mut self, id: ItemId, kind: ItemKind, status: ItemStatus)
        ensures
            final(self).deep_view() == sent(
                old(self).deep_view(),
                EventModel::Completed {
                    turn_id: old(self).deep_view().turn,
                    item: ItemModel { id: id.deep_view(), kind: kind.deep_view(), status },
                },
            ),
    {
        let turn_id = self.turn.clone();
        self.send(Event::Item(ItemEvent::Completed { turn_id, item: Item { id, kind, status } }));
    }

    /// Publishes a whole item that never streamed.
    pub fn item(&mut self, kind: ItemKind)
        ensures
            exists|id: Seq<char>| #[trigger]
                is_fresh_id(id, "itm"@) && final(self).deep_view() == sent(
                    old(self).deep_view(),
                    EventModel::Completed {
                        turn_id: old(self).deep_view().turn,
                        item: ItemModel {
                            id,
                            kind: kind.deep_view(),
                            status: ItemStatus::Completed,
                        },
                    },
                ),
    {
        let id = ItemId::new();
        assert(is_fresh_id(id.deep_view(), "itm"@));
        self.item_completed(id, kind, ItemStatus::Completed);
    }

    /// Reports token accounting.
    pub fn usage(&mut self, usage: Usage)
        ensures
            final(self).deep_view() == sent(old(self).deep_view(), EventModel::Usage(usage)),
    {
        self.send(Event::Usage(usage));
    }

    /// Reports how the turn stands.
    pub fn turn_status(&mut self, status: TurnStatus)
        ensures
            exists|thread: Seq<char>| #[trigger]
                is_fresh_id(thread, "thr"@) && final(self).deep_view() == sent(
                    old(self).deep_view(),
                    EventModel::Turn {
                        thread_id: thread,
                        turn_id: old(self).deep_view().turn,
                        stands: status,
                    },
                ),
    {
        let thread_id = ThreadId::new();
        assert(is_fresh_id(thread_id.deep_view(), "thr"@));
        let turn_id = self.turn.clone();
        self.send(Event::Turn(TurnEvent { thread_id, turn_id, status }));
    }
}

/// What is sent while somebody listens is queued, behind everything that was sent before;
/// what is sent later is not.
pub proof fn law_events_are_queued_in_order(sink: SinkModel, first: EventModel, second: EventModel)
    ensures
        sink.listening ==> sent(sent(sink, first), second).queue == sink.queue + seq![first, second],
        !sink.listening ==> sent(sink, first).queue == sink.queue,
        sent(sink, first).turn == sink.turn,
        sent(sink, first).listening == sink.listening,
{
    if sink.listening {
        assert(sent(sent(sink, first), second).queue =~= sink.queue + seq![first, second]);
    }
}

} // verus!
