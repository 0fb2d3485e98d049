//! Making a step out of a model's stream.
//!
//! Content is published as it arrives, so that it can be shown token by token, and
//! gathered, so that the loop has a step to act on. Either half alone would not do.

use vstd::prelude::*;

use crate::engine::events::{sent, EventSink, SinkModel};
use crate::engine::turn::{empty_step, StepModel, StepOutput};
use crate::protocol::event::{EventModel, Usage};
use crate::protocol::id::{is_fresh_id, ItemId, ToolCallId};
use crate::protocol::item::{ItemKind, ItemModel, ItemStatus, KindModel};
use crate::protocol::message::{CallModel, ToolCall};

verus! {

/// Why a model stopped.
#[derive(Debug, Clone, Copy, PartialEq, Eq, Structural)]
pub enum FinishReason {
    Stop,
    /// It wants tools run.
    ToolCalls,
    /// It hit its output limit.
    Length,
    Other,
}

impl FinishReason {
    /// Whether the model means to go on.
    pub fn continues(self) -> (r: bool)
        ensures
            r == (self is ToolCalls),
    {
        match self {
            FinishReason::ToolCalls => true,
            _ => false,
        }
    }
}

/// One event of a model's stream.
#[derive(Debug)]
pub enum StreamEvent {
    StepStart,
    TextStart,
    TextDelta(String),
    TextEnd,
    ReasoningStart,
    ReasoningDelta(String),
    ReasoningEnd,
    ToolCallStart { id: ToolCallId, name: String },
    ToolCallInputDelta { id: ToolCallId, delta: String },
    ToolCallEnd { id: ToolCallId, input: String },
    StepFinish { reason: FinishReason, usage: Usage },
}

/// What a [`StreamEvent`] says.
pub enum StreamModel {
    StepStart,
    TextStart,
    TextDelta(Seq<char>),
    TextEnd,
    ReasoningStart,
    ReasoningDelta(Seq<char>),
    ReasoningEnd,
    ToolCallStart { id: Seq<char>, name: Seq<char> },
    ToolCallInputDelta { id: Seq<char>, delta: Seq<char> },
    ToolCallEnd { id: Seq<char>, input: Seq<char> },
    StepFinish { reason: FinishReason, usage: Usage },
}

impl DeepView for StreamEvent {
    type V = StreamModel;

    open spec fn deep_view(&self) -> StreamModel {
        match *self {
            StreamEvent::StepStart => StreamModel::StepStart,
            StreamEvent::TextStart => StreamModel::TextStart,
            StreamEvent::TextDelta(delta) => StreamModel::TextDelta(delta@),
            StreamEvent::TextEnd => StreamModel::TextEnd,
            StreamEvent::ReasoningStart => StreamModel::ReasoningStart,
            StreamEvent::ReasoningDelta(delta) => StreamModel::ReasoningDelta(delta@),
            StreamEvent::ReasoningEnd => StreamModel::ReasoningEnd,
            StreamEvent::ToolCallStart { id, name } => StreamModel::ToolCallStart {
                id: id.deep_view(),
                name: name@,
            },
            StreamEvent::ToolCallInputDelta { id, delta } => StreamModel::ToolCallInputDelta {
                id: id.deep_view(),
                delta: delta@,
            },
            StreamEvent::ToolCallEnd { id, input } => StreamModel::ToolCallEnd {
                id: id.deep_view(),
                input: input@,
            },
            StreamEvent::StepFinish { reason, usage } => StreamModel::StepFinish { reason, usage },
        }
    }
}

/// A tool call whose arguments are still arriving.
#[derive(Debug)]
pub struct PendingCall {
    pub id: ToolCallId,
    pub name: String,
    pub input: String,
}

impl DeepView for PendingCall {
    type V = CallModel;

    open spec fn deep_view(&self) -> CallModel {
        CallModel { id: self.id.deep_view(), name: self.name@, input: self.input@ }
    }
}

/// A step in the making.
#[derive(Debug)]
pub struct ModelStepSource {
    step: StepOutput,
    text_item: Option<ItemId>,
    reasoning_item: Option<ItemId>,
    pending: Vec<PendingCall>,
}

/// What a [`ModelStepSource`] has gathered.
pub struct SourceModel {
    pub step: StepModel,
    /// The item that text is added to, while one is open.
    pub text_item: Option<Seq<char>>,
    /// The item that reasoning is added to, while one is open.
    pub reasoning_item: Option<Seq<char>>,
    pub pending: Seq<CallModel>,
}

/// The id of an item, if there is one.
pub open spec fn id_of(item: Option<ItemId>) -> Option<Seq<char>> {
    match item {
        Some(id) => Some(id.deep_view()),
        None => None,
    }
}

impl DeepView for ModelStepSource {
    type V = SourceModel;

    closed spec fn deep_view(&self) -> SourceModel {
        SourceModel {
            step: self.step.deep_view(),
            text_item: id_of(self.text_item),
            reasoning_item: id_of(self.reasoning_item),
            pending: self.pending.deep_view(),
        }
    }
}

/// A kind that is announced before it has content.
pub open spec fn announced(kind: KindModel, id: Seq<char>, turn: Seq<char>) -> EventModel {
    EventModel::Started {
        turn_id: turn,
        item: ItemModel { id, kind, status: ItemStatus::Streaming },
    }
}

/// A whole item.
pub open spec fn completed(kind: KindModel, id: Seq<char>, turn: Seq<char>) -> EventModel {
    EventModel::Completed {
        turn_id: turn,
        item: ItemModel { id, kind, status: ItemStatus::Completed },
    }
}

/// An item with more text.
pub open spec fn extended(text: Seq<char>, id: Seq<char>, turn: Seq<char>) -> EventModel {
    EventModel::Delta { turn_id: turn, item_id: id, text }
}

/// Prose as an item.
pub open spec fn prose(text: Seq<char>) -> KindModel {
    KindModel::AgentMessage { text }
}

/// Reasoning as an item.
pub open spec fn thought(text: Seq<char>) -> KindModel {
    KindModel::Reasoning { text }
}

/// A sink after an item got more text: the item is opened first where none is, for
/// several endpoints never say that text begins.
pub open spec fn delta_sent(
    sink: SinkModel,
    item: Option<Seq<char>>,
    empty: KindModel,
    delta: Seq<char>,
    id: Seq<char>,
) -> SinkModel {
    match item {
        Some(open) => sent(sink, extended(delta, open, sink.turn)),
        None => sent(
            sent(sink, announced(empty, id, sink.turn)),
            extended(delta, id, sink.turn),
        ),
    }
}

/// The item that is open after it got more text.
pub open spec fn delta_item(item: Option<Seq<char>>, id: Seq<char>) -> Option<Seq<char>> {
    match item {
        Some(open) => Some(open),
        None => Some(id),
    }
}

/// A sink after an item was closed, if one was open.
pub open spec fn closed_item(sink: SinkModel, item: Option<Seq<char>>, kind: KindModel) -> SinkModel {
    match item {
        Some(open) => sent(sink, completed(kind, open, sink.turn)),
        None => sink,
    }
}

/// Where the first pending call with an id stands; the number of them if none has.
pub open spec fn pending_at(pending: Seq<CallModel>, id: Seq<char>) -> int
    decreases pending.len(),
{
    if pending.len() == 0 {
        0
    } else if pending[0].id == id {
        0
    } else {
        1 + pending_at(pending.drop_first(), id)
    }
}

/// The pending calls with another id.
pub open spec fn pending_but(pending: Seq<CallModel>, id: Seq<char>) -> Seq<CallModel>
    decreases pending.len(),
{
    if pending.len() == 0 {
        pending
    } else if pending.last().id == id {
        pending_but(pending.drop_last(), id)
    } else {
        pending_but(pending.drop_last(), id).push(pending.last())
    }
}

/// The name of the pending call with an id, or nothing.
pub open spec fn pending_name(pending: Seq<CallModel>, id: Seq<char>) -> Seq<char> {
    let at = pending_at(pending, id);
    if at < pending.len() {
        pending[at].name
    } else {
        Seq::empty()
    }
}

/// What an event makes of what was gathered and published so far; `id` is the id
/// of the item that it opens, where it opens one.
pub open spec fn streamed(
    source: SourceModel,
    sink: SinkModel,
    event: StreamModel,
    id: Seq<char>,
) -> (SourceModel, SinkModel) {
    match event {
        StreamModel::StepStart => (source, sink),
        StreamModel::TextStart => (
            SourceModel { text_item: Some(id), ..source },
            sent(sink, announced(prose(Seq::empty()), id, sink.turn)),
        ),
        StreamModel::TextDelta(delta) => (
            SourceModel {
                step: StepModel { text: source.step.text + delta, ..source.step },
                text_item: delta_item(source.text_item, id),
                ..source
            },
            delta_sent(sink, source.text_item, prose(Seq::empty()), delta, id),
        ),
        StreamModel::TextEnd => (
            SourceModel { text_item: None, ..source },
            closed_item(sink, source.text_item, prose(source.step.text)),
        ),
        StreamModel::ReasoningStart => (
            SourceModel { reasoning_item: Some(id), ..source },
            sent(sink, announced(thought(Seq::empty()), id, sink.turn)),
        ),
        StreamModel::ReasoningDelta(delta) => (
            SourceModel {
                step: StepModel { reasoning: source.step.reasoning + delta, ..source.step },
                reasoning_item: delta_item(source.reasoning_item, id),
                ..source
            },
            delta_sent(sink, source.reasoning_item, thought(Seq::empty()), delta, id),
        ),
        StreamModel::ReasoningEnd => (
            SourceModel { reasoning_item: None, ..source },
            closed_item(sink, source.reasoning_item, thought(source.step.reasoning)),
        ),
        StreamModel::ToolCallStart { id: call, name } => (
            SourceModel {
                pending: source.pending.push(CallModel { id: call, name, input: Seq::empty() }),
                ..source
            },
            sink,
        ),
        StreamModel::ToolCallInputDelta { id: call, delta } => {
            let at = pending_at(source.pending, call);
            if at < source.pending.len() {
                let entry = source.pending[at];
                (
                    SourceModel {
                        pending: source.pending.update(
                            at,
                            CallModel { input: entry.input + delta, ..entry },
                        ),
                        ..source
                    },
                    sink,
                )
            } else {
                (source, sink)
            }
        },
        StreamModel::ToolCallEnd { id: call, input } => {
            let name = pending_name(source.pending, call);
            (
                SourceModel {
                    step: StepModel {
                        tool_calls: source.step.tool_calls.push(CallModel { id: call, name, input }),
                        ..source.step
                    },
                    pending: pending_but(source.pending, call),
                    ..source
                },
                sent(
                    sink,
                    completed(KindModel::ToolExecution { call_id: call, name, input }, id, sink.turn),
                ),
            )
        },
        StreamModel::StepFinish { reason, usage } => (
            SourceModel {
                step: StepModel {
                    wants_tools: reason is ToolCalls || source.step.tool_calls.len() > 0,
                    truncated: reason is Length,
                    tokens_used: (usage.input_tokens + usage.output_tokens) as usize,
                    ..source.step
                },
                ..source
            },
            sent(sink, EventModel::Usage(usage)),
        ),
    }
}

/// Whether the tokens an event reports can be counted.
pub open spec fn countable(event: StreamModel) -> bool {
    match event {
        StreamModel::StepFinish { usage, .. } => usage.input_tokens + usage.output_tokens
            <= usize::MAX,
        _ => true,
    }
}

/// A sink after a stream ended: what it left open is closed.
pub open spec fn stream_ended(source: SourceModel, sink: SinkModel) -> SinkModel {
    closed_item(
        closed_item(sink, source.text_item, prose(source.step.text)),
        source.reasoning_item,
        thought(source.step.reasoning),
    )
}

proof fn lemma_pending_at(pending: Seq<CallModel>, id: Seq<char>)
    ensures
        0 <= pending_at(pending, id) <= pending.len(),
        pending_at(pending, id) < pending.len() ==> pending[pending_at(pending, id)].id == id,
        forall|k: int|
            0 <= k < pending_at(pending, id) ==> (#[trigger] pending[k]).id != id,
    decreases pending.len(),
{
    if pending.len() > 0 && pending[0].id != id {
        let rest = pending.drop_first();
        lemma_pending_at(rest, id);
        assert forall|k: int| 0 <= k < pending_at(pending, id) implies (#[trigger] pending[k]).id
            != id by {
            if k > 0 {
                assert(pending[k] == rest[k - 1]);
            }
        }
    }
}

proof fn lemma_pending_at_unique(pending: Seq<CallModel>, id: Seq<char>, n: int)
    requires
        0 <= n <= pending.len(),
        n < pending.len() ==> pending[n].id == id,
        forall|k: int| 0 <= k < n ==> (#[trigger] pending[k]).id != id,
    ensures
        pending_at(pending, id) == n,
{
    lemma_pending_at(pending, id);
    let at = pending_at(pending, id);
    if at < n {
        assert(pending[at].id != id);
    }
    if n < at {
        assert(pending[n].id != id);
    }
}

fn find_pending(pending: &Vec<PendingCall>, id: &ToolCallId) -> (r: usize)
    ensures
        r == pending_at(pending.deep_view(), id.deep_view()),
        r <= pending@.len(),
{
    let ghost all = pending.deep_view();
    let mut i: usize = 0;
    while i < pending.len() && !pending[i].id.is(id)
        invariant
            i <= pending@.len(),
            all == pending.deep_view(),
            forall|k: int| 0 <= k < i ==> (#[trigger] all[k]).id != id.deep_view(),
        decreases pending@.len() - i,
    {
        assert(all[i as int] == pending@[i as int].deep_view());
        i += 1;
    }
    proof {
        if i < pending@.len() {
            assert(all[i as int] == pending@[i as int].deep_view());
        }
        lemma_pending_at_unique(all, id.deep_view(), i as int);
    }
    i
}

fn drop_pending(pending: Vec<PendingCall>, id: &ToolCallId) -> (r: Vec<PendingCall>)
    ensures
        r.deep_view() == pending_but(pending.deep_view(), id.deep_view()),
{
    let ghost all = pending.deep_view();
    let mut rest = pending;
    let mut out: Vec<PendingCall> = Vec::new();
    let ghost mut done: int = 0;
    assert(all.skip(0) =~= all);
    assert(all.take(0) =~= Seq::<CallModel>::empty());
    assert(out.deep_view() =~= Seq::<CallModel>::empty());
    while rest.len() > 0
        invariant
            0 <= done <= all.len(),
            rest.deep_view() == all.skip(done),
            out.deep_view() == pending_but(all.take(done), id.deep_view()),
        decreases rest@.len(),
    {
        let ghost before = out.deep_view();
        let ghost left = rest.deep_view();
        let call = rest.remove(0);
        assert(left[0] == call.deep_view());
        assert(left.drop_first() =~= rest.deep_view());
        assert(all.skip(done).drop_first() =~= all.skip(done + 1));
        assert(all.take(done + 1).drop_last() =~= all.take(done));
        assert(all.take(done + 1).last() == call.deep_view());
        if !call.id.is(id) {
            out.push(call);
            assert(out.deep_view() =~= before.push(call.deep_view()));
        }
        proof {
            done = done + 1;
        }
    }
    assert(all.take(done) =~= all);
    out
}

fn add_input(entry: &mut PendingCall, delta: &str)
    ensures
        final(entry).deep_view() == (CallModel {
            input: old(entry).deep_view().input + delta@,
            ..old(entry).deep_view()
        }),
{
    entry.input.push_str(delta);
}

impl ModelStepSource {
    /// A step of which nothing has arrived.
    pub fn new() -> (r: Self)
        ensures
            r.deep_view() == (SourceModel {
                step: empty_step(),
                text_item: None,
                reasoning_item: None,
                pending: Seq::empty(),
            }),
    {
        let r = ModelStepSource {
            step: StepOutput::default(),
            text_item: None,
            reasoning_item: None,
            pending: Vec::new(),
        };
        assert(r.pending.deep_view() =~= Seq::<CallModel>::empty());
        r
    }

    /// Takes in one event, and publishes what it means.
    pub fn receive(&mut self, sink: &mut EventSink, event: StreamEvent)
        requires
            countable(event.deep_view()),
        ensures
            exists|id: Seq<char>| #[trigger]
                is_fresh_id(id, "itm"@) && (final(self).deep_view(), final(sink).deep_view())
                    == streamed(
                    old(self).deep_view(),
                    old(sink).deep_view(),
                    event.deep_view(),
                    id,
                ),
    {
        let ghost before = self.deep_view();
        let ghost sink_before = sink.deep_view();
        let ghost mut used: Seq<char> = fresh_witness();
        proof {
            lemma_fresh_witness();
        }
        match event {
            StreamEvent::StepStart => {},
            StreamEvent::TextStart => {
                let id = sink.item_started(ItemKind::AgentMessage { text: String::new() });
                proof {
                    used = id.deep_view();
                }
                self.text_item = Some(id);
            },
            StreamEvent::TextDelta(delta) => {
                self.step.text.push_str(&delta);
                match &self.text_item {
                    Some(id) => {
                        sink.item_delta(id, &delta);
                    },
                    None => {
                        let id = sink.item_started(ItemKind::AgentMessage { text: String::new() });
                        proof {
                            used = id.deep_view();
                        }
                        sink.item_delta(&id, &delta);
                        self.text_item = Some(id);
                    },
                }
            },
            StreamEvent::TextEnd => {
                let mut item: Option<ItemId> = None;
                std::mem::swap(&mut item, &mut self.text_item);
                if let Some(id) = item {
                    sink.item_completed(
                        id,
                        ItemKind::AgentMessage { text: self.step.text.clone() },
                        ItemStatus::Completed,
                    );
                }
            },
            StreamEvent::ReasoningStart => {
                let id = sink.item_started(ItemKind::Reasoning { text: String::new() });
                proof {
                    used = id.deep_view();
                }
                self.reasoning_item = Some(id);
            },
            StreamEvent::ReasoningDelta(delta) => {
                self.step.reasoning.push_str(&delta);
                match &self.reasoning_item {
                    Some(id) => {
                        sink.item_delta(id, &delta);
                    },
                    None => {
                        let id = sink.item_started(ItemKind::Reasoning { text: String::new() });
                        proof {
                            used = id.deep_view();
                        }
                        sink.item_delta(&id, &delta);
                        self.reasoning_item = Some(id);
                    },
                }
            },
            StreamEvent::ReasoningEnd => {
                let mut item: Option<ItemId> = None;
                std::mem::swap(&mut item, &mut self.reasoning_item);
                if let Some(id) = item {
                    sink.item_completed(
                        id,
                        ItemKind::Reasoning { text: self.step.reasoning.clone() },
                        ItemStatus::Completed,
                    );
                }
            },
            StreamEvent::ToolCallStart { id, name } => {
                let call = PendingCall { id, name, input: String::new() };
                self.pending.push(call);
                assert(call.deep_view().input =~= Seq::<char>::empty());
                assert(self.pending.deep_view() =~= before.pending.push(call.deep_view()));
            },
            StreamEvent::ToolCallInputDelta { id, delta } => {
                let at: usize = find_pending(&self.pending, &id);
                if at < self.pending.len() {
                    assert(before.pending[at as int] == self.pending@[at as int].deep_view());
                    add_input(&mut self.pending[at], &delta);
                    assert(self.pending.deep_view() =~= before.pending.update(
                        at as int,
                        self.pending@[at as int].deep_view(),
                    ));
                }
            },
            StreamEvent::ToolCallEnd { id, input } => {
                // The end carries the whole arguments, so it stands over what was
                // gathered from deltas.
                let at: usize = find_pending(&self.pending, &id);
                let name = if at < self.pending.len() {
                    assert(before.pending[at as int] == self.pending@[at as int].deep_view());
                    self.pending[at].name.clone()
                } else {
                    String::new()
                };
                assert(name@ =~= pending_name(before.pending, id.deep_view()));
                let mut pending: Vec<PendingCall> = Vec::new();
                std::mem::swap(&mut pending, &mut self.pending);
                self.pending = drop_pending(pending, &id);
                let item = ItemId::new();
                proof {
                    used = item.deep_view();
                }
                sink.item_completed(
                    item,
                    ItemKind::ToolExecution {
                        call_id: id.clone(),
                        name: name.clone(),
                        input: input.clone(),
                    },
                    ItemStatus::Completed,
                );
                let call = ToolCall { id, name, input };
                self.step.tool_calls.push(call);
                assert(self.step.tool_calls.deep_view() =~= before.step.tool_calls.push(
                    call.deep_view(),
                ));
            },
            StreamEvent::StepFinish { reason, usage } => {
                self.step.wants_tools = reason.continues() || self.step.tool_calls.len() > 0;
                self.step.truncated = match reason {
                    FinishReason::Length => true,
                    _ => false,
                };
                self.step.tokens_used = usage.input_tokens as usize + usage.output_tokens as usize;
                sink.usage(usage);
            },
        }
        assert(is_fresh_id(used, "itm"@));
    }

    /// The stream ended: closes what it left open, and gives the step.
    pub fn finish(self, sink: &mut EventSink) -> (r: StepOutput)
        ensures
            r.deep_view() == self.deep_view().step,
            final(sink).deep_view() == stream_ended(self.deep_view(), old(sink).deep_view()),
    {
        let ModelStepSource { step, text_item, reasoning_item, pending: _ } = self;
        if let Some(id) = text_item {
            sink.item_completed(
                id,
                ItemKind::AgentMessage { text: step.text.clone() },
                ItemStatus::Completed,
            );
        }
        if let Some(id) = reasoning_item {
            sink.item_completed(
                id,
                ItemKind::Reasoning { text: step.reasoning.clone() },
                ItemStatus::Completed,
            );
        }
        step
    }
}

/// What a run of events makes of what was gathered and published so far; `ids` are
/// the ids of the items they open.
pub open spec fn run_of(
    source: SourceModel,
    sink: SinkModel,
    events: Seq<StreamModel>,
    ids: Seq<Seq<char>>,
) -> (SourceModel, SinkModel)
    decreases events.len(),
{
    if events.len() == 0 {
        (source, sink)
    } else {
        let (before, published) = run_of(source, sink, events.drop_last(), ids);
        streamed(before, published, events.last(), ids[events.len() - 1])
    }
}

/// The prose among events, one after another.
pub open spec fn prose_of(events: Seq<StreamModel>) -> Seq<char>
    decreases events.len(),
{
    if events.len() == 0 {
        Seq::empty()
    } else {
        match events.last() {
            StreamModel::TextDelta(delta) => prose_of(events.drop_last()) + delta,
            _ => prose_of(events.drop_last()),
        }
    }
}

/// The reasoning among events, one after another.
pub open spec fn thought_of(events: Seq<StreamModel>) -> Seq<char>
    decreases events.len(),
{
    if events.len() == 0 {
        Seq::empty()
    } else {
        match events.last() {
            StreamModel::ReasoningDelta(delta) => thought_of(events.drop_last()) + delta,
            _ => thought_of(events.drop_last()),
        }
    }
}

/// The increments among a model's events, in order.
pub open spec fn increments(events: Seq<StreamModel>) -> Seq<Seq<char>>
    decreases events.len(),
{
    if events.len() == 0 {
        Seq::empty()
    } else {
        match events.last() {
            StreamModel::TextDelta(delta) => increments(events.drop_last()).push(delta),
            StreamModel::ReasoningDelta(delta) => increments(events.drop_last()).push(delta),
            _ => increments(events.drop_last()),
        }
    }
}

/// The increments among published events, in order.
pub open spec fn published_increments(queue: Seq<EventModel>) -> Seq<Seq<char>>
    decreases queue.len(),
{
    if queue.len() == 0 {
        Seq::empty()
    } else {
        match queue.last() {
            EventModel::Delta { text, .. } => published_increments(queue.drop_last()).push(text),
            _ => published_increments(queue.drop_last()),
        }
    }
}

proof fn lemma_published(queue: Seq<EventModel>, event: EventModel)
    ensures
        published_increments(queue.push(event)) == match event {
            EventModel::Delta { text, .. } => published_increments(queue).push(text),
            _ => published_increments(queue),
        },
{
    assert(queue.push(event).drop_last() =~= queue);
}

/// Whatever a model streams is both published and kept: the step's text is all its
/// prose and the step's reasoning all its reasoning, and as long as anybody listens
/// the published increments are the model's, one for one and in order.
pub proof fn law_what_streams_is_published_and_kept(
    source: SourceModel,
    sink: SinkModel,
    events: Seq<StreamModel>,
    ids: Seq<Seq<char>>,
)
    ensures
        ({
            let (after, published) = run_of(source, sink, events, ids);
            &&& after.step.text == source.step.text + prose_of(events)
            &&& after.step.reasoning == source.step.reasoning + thought_of(events)
            &&& published.listening == sink.listening
            &&& sink.listening ==> published_increments(published.queue) == published_increments(
                sink.queue,
            ) + increments(events)
        }),
    decreases events.len(),
{
    if events.len() == 0 {
        assert(source.step.text + Seq::<char>::empty() =~= source.step.text);
        assert(source.step.reasoning + Seq::<char>::empty() =~= source.step.reasoning);
        assert(published_increments(sink.queue) + Seq::<Seq<char>>::empty()
            =~= published_increments(sink.queue));
    } else {
        let rest = events.drop_last();
        law_what_streams_is_published_and_kept(source, sink, rest, ids);
        let (before, mid) = run_of(source, sink, rest, ids);
        let id = ids[events.len() - 1];
        let (after, published) = streamed(before, mid, events.last(), id);
        let old_increments = published_increments(sink.queue);
        match events.last() {
            StreamModel::TextDelta(delta) => {
                assert(source.step.text + (prose_of(rest) + delta) =~= source.step.text + prose_of(
                    rest,
                ) + delta);
                if sink.listening {
                    lemma_delta_sent(mid, before.text_item, prose(Seq::empty()), delta, id);
                }
                assert(old_increments + increments(rest).push(delta) =~= (old_increments
                    + increments(rest)).push(delta));
            },
            StreamModel::ReasoningDelta(delta) => {
                assert(source.step.reasoning + (thought_of(rest) + delta) =~= source.step.reasoning
                    + thought_of(rest) + delta);
                if sink.listening {
                    lemma_delta_sent(mid, before.reasoning_item, thought(Seq::empty()), delta, id);
                }
                assert(old_increments + increments(rest).push(delta) =~= (old_increments
                    + increments(rest)).push(delta));
            },
            _ => {
                if published.queue != mid.queue {
                    lemma_published(mid.queue, published.queue.last());
                }
            },
        }
    }
}

proof fn lemma_delta_sent(
    sink: SinkModel,
    item: Option<Seq<char>>,
    empty: KindModel,
    delta: Seq<char>,
    id: Seq<char>,
)
    requires
        sink.listening,
    ensures
        published_increments(delta_sent(sink, item, empty, delta, id).queue)
            == published_increments(sink.queue).push(delta),
{
    match item {
        Some(open) => {
            lemma_published(sink.queue, extended(delta, open, sink.turn));
        },
        None => {
            let opened = announced(empty, id, sink.turn);
            lemma_published(sink.queue, opened);
            lemma_published(sink.queue.push(opened), extended(delta, id, sink.turn));
        },
    }
}

/// The name under which a call was announced and not yet ended: that of its first
/// announcement since a call with its id last ended.
pub open spec fn announced_name(events: Seq<StreamModel>, call: Seq<char>) -> Option<Seq<char>>
    decreases events.len(),
{
    if events.len() == 0 {
        None
    } else {
        let before = announced_name(events.drop_last(), call);
        match events.last() {
            StreamModel::ToolCallEnd { id, .. } if id == call => None,
            StreamModel::ToolCallStart { id, name } if id == call && before is None => Some(name),
            _ => before,
        }
    }
}

/// The calls that events end, in order: each with the arguments its end carries, under
/// the name that it was announced by, or none.
pub open spec fn calls_in(events: Seq<StreamModel>) -> Seq<CallModel>
    decreases events.len(),
{
    if events.len() == 0 {
        Seq::empty()
    } else {
        let rest = events.drop_last();
        match events.last() {
            StreamModel::ToolCallEnd { id, input } => calls_in(rest).push(
                CallModel {
                    id,
                    name: match announced_name(rest, id) {
                        Some(name) => name,
                        None => Seq::empty(),
                    },
                    input,
                },
            ),
            _ => calls_in(rest),
        }
    }
}

/// The calls among published events, in order.
pub open spec fn published_calls(queue: Seq<EventModel>) -> Seq<CallModel>
    decreases queue.len(),
{
    if queue.len() == 0 {
        Seq::empty()
    } else {
        match queue.last() {
            EventModel::Completed { item, .. } => match item.kind {
                KindModel::ToolExecution { call_id, name, input } => published_calls(
                    queue.drop_last(),
                ).push(CallModel { id: call_id, name, input }),
                _ => published_calls(queue.drop_last()),
            },
            _ => published_calls(queue.drop_last()),
        }
    }
}

/// What was used, by the reports among events, in order.
pub open spec fn reports_in(events: Seq<StreamModel>) -> Seq<Usage>
    decreases events.len(),
{
    if events.len() == 0 {
        Seq::empty()
    } else {
        match events.last() {
            StreamModel::StepFinish { usage, .. } => reports_in(events.drop_last()).push(usage),
            _ => reports_in(events.drop_last()),
        }
    }
}

/// What was used, by the reports among published events, in order.
pub open spec fn published_reports(queue: Seq<EventModel>) -> Seq<Usage>
    decreases queue.len(),
{
    if queue.len() == 0 {
        Seq::empty()
    } else {
        match queue.last() {
            EventModel::Usage(usage) => published_reports(queue.drop_last()).push(usage),
            _ => published_reports(queue.drop_last()),
        }
    }
}

proof fn lemma_published_whole(queue: Seq<EventModel>, event: EventModel)
    ensures
        published_calls(queue.push(event)) == match event {
            EventModel::Completed { item, .. } => match item.kind {
                KindModel::ToolExecution { call_id, name, input } => published_calls(queue).push(
                    CallModel { id: call_id, name, input },
                ),
                _ => published_calls(queue),
            },
            _ => published_calls(queue),
        },
        published_reports(queue.push(event)) == match event {
            EventModel::Usage(usage) => published_reports(queue).push(usage),
            _ => published_reports(queue),
        },
{
    assert(queue.push(event).drop_last() =~= queue);
}

/// Whether the calls that wait for their end are those that were announced.
spec fn awaited(pending: Seq<CallModel>, events: Seq<StreamModel>) -> bool {
    forall|id: Seq<char>|
        #![trigger announced_name(events, id)]
        announced_name(events, id) == (if pending_at(pending, id) < pending.len() {
            Some(pending[pending_at(pending, id)].name)
        } else {
            None
        })
}

proof fn lemma_pending_pushed(pending: Seq<CallModel>, call: CallModel, id: Seq<char>)
    ensures
        pending_at(pending.push(call), id) == (if pending_at(pending, id) < pending.len() {
            pending_at(pending, id)
        } else if call.id == id {
            pending.len() as int
        } else {
            pending.len() as int + 1
        }),
{
    lemma_pending_at(pending, id);
    let all = pending.push(call);
    let at = pending_at(pending, id);
    let n = if at < pending.len() {
        at
    } else if call.id == id {
        pending.len() as int
    } else {
        pending.len() as int + 1
    };
    assert forall|k: int| 0 <= k < n implies (#[trigger] all[k]).id != id by {
        if k < pending.len() {
            assert(all[k] == pending[k]);
        }
    }
    lemma_pending_at_unique(all, id, n);
}

proof fn lemma_pending_dropped(pending: Seq<CallModel>, call: Seq<char>, id: Seq<char>)
    ensures
        ({
            let left = pending_but(pending, call);
            let at = pending_at(pending, id);
            let now = pending_at(left, id);
            &&& id == call ==> now == left.len()
            &&& id != call ==> (now < left.len()) == (at < pending.len())
            &&& id != call && at < pending.len() ==> left[now] == pending[at]
        }),
    decreases pending.len(),
{
    if pending.len() > 0 {
        let rest = pending.drop_last();
        let left = pending_but(rest, call);
        lemma_pending_dropped(rest, call, id);
        lemma_pending_at(rest, id);
        lemma_pending_at(left, id);
        assert(pending =~= rest.push(pending.last()));
        lemma_pending_pushed(rest, pending.last(), id);
        if pending.last().id != call {
            lemma_pending_pushed(left, pending.last(), id);
        }
    }
}

proof fn lemma_awaited(
    source: SourceModel,
    sink: SinkModel,
    events: Seq<StreamModel>,
    event: StreamModel,
    item: Seq<char>,
)
    requires
        awaited(source.pending, events),
    ensures
        awaited(streamed(source, sink, event, item).0.pending, events.push(event)),
{
    let all = events.push(event);
    assert(all.drop_last() =~= events);
    let pending = source.pending;
    let after = streamed(source, sink, event, item).0.pending;
    assert forall|id: Seq<char>| #![trigger announced_name(all, id)] announced_name(all, id) == (
    if pending_at(after, id) < after.len() {
        Some(after[pending_at(after, id)].name)
    } else {
        None
    }) by {
        let before = announced_name(events, id);
        lemma_pending_at(pending, id);
        lemma_pending_at(after, id);
        match event {
            StreamModel::ToolCallStart { id: call, name } => {
                let entry = CallModel { id: call, name, input: Seq::<char>::empty() };
                lemma_pending_pushed(pending, entry, id);
            },
            StreamModel::ToolCallInputDelta { id: call, delta } => {
                lemma_pending_at(pending, call);
                let at = pending_at(pending, call);
                if at < pending.len() {
                    let n = pending_at(pending, id);
                    assert forall|k: int| 0 <= k < n implies (#[trigger] after[k]).id != id by {
                        assert(pending[k].id != id);
                    }
                    lemma_pending_at_unique(after, id, n);
                }
            },
            StreamModel::ToolCallEnd { id: call, .. } => {
                lemma_pending_dropped(pending, call, id);
            },
            _ => {},
        }
    }
}

/// Every call of a stream is kept: the step's calls are one for each that ended, in
/// order, with the id and the arguments of the end and the name of the announcement.
/// As long as anybody listens, each is published as it ends, and each report of what
/// was used is passed on.
pub proof fn law_every_call_of_a_stream_is_kept(
    source: SourceModel,
    sink: SinkModel,
    events: Seq<StreamModel>,
    ids: Seq<Seq<char>>,
)
    requires
        source.pending.len() == 0,
    ensures
        ({
            let (after, published) = run_of(source, sink, events, ids);
            &&& after.step.tool_calls == source.step.tool_calls + calls_in(events)
            &&& sink.listening ==> published_calls(published.queue) == published_calls(sink.queue)
                + calls_in(events)
            &&& sink.listening ==> published_reports(published.queue) == published_reports(
                sink.queue,
            ) + reports_in(events)
        }),
{
    lemma_calls_kept(source, sink, events, ids);
}

proof fn lemma_calls_kept(
    source: SourceModel,
    sink: SinkModel,
    events: Seq<StreamModel>,
    ids: Seq<Seq<char>>,
)
    requires
        source.pending.len() == 0,
    ensures
        ({
            let (after, published) = run_of(source, sink, events, ids);
            &&& after.step.tool_calls == source.step.tool_calls + calls_in(events)
            &&& awaited(after.pending, events)
            &&& published.listening == sink.listening
            &&& sink.listening ==> published_calls(published.queue) == published_calls(sink.queue)
                + calls_in(events)
            &&& sink.listening ==> published_reports(published.queue) == published_reports(
                sink.queue,
            ) + reports_in(events)
        }),
    decreases events.len(),
{
    let calls = source.step.tool_calls;
    let queued = published_calls(sink.queue);
    let reported = published_reports(sink.queue);
    if events.len() == 0 {
        assert(calls + Seq::<CallModel>::empty() =~= calls);
        assert(queued + Seq::<CallModel>::empty() =~= queued);
        assert(reported + Seq::<Usage>::empty() =~= reported);
    } else {
        let rest = events.drop_last();
        let event = events.last();
        let id = ids[events.len() - 1];
        lemma_calls_kept(source, sink, rest, ids);
        let (before, mid) = run_of(source, sink, rest, ids);
        assert(rest.push(event) =~= events);
        lemma_awaited(before, mid, rest, event, id);
        match event {
            StreamModel::ToolCallEnd { id: call, input } => {
                assert(announced_name(rest, call) == (if pending_at(before.pending, call)
                    < before.pending.len() {
                    Some(before.pending[pending_at(before.pending, call)].name)
                } else {
                    None
                }));
                let ended = calls_in(events).last();
                assert(calls + calls_in(rest).push(ended) =~= (calls + calls_in(rest)).push(ended));
                assert(queued + calls_in(rest).push(ended) =~= (queued + calls_in(rest)).push(
                    ended,
                ));
                lemma_published_whole(
                    mid.queue,
                    completed(
                        KindModel::ToolExecution { call_id: call, name: ended.name, input },
                        id,
                        mid.turn,
                    ),
                );
            },
            StreamModel::StepFinish { usage, .. } => {
                assert(reported + reports_in(rest).push(usage) =~= (reported + reports_in(
                    rest,
                )).push(usage));
                lemma_published_whole(mid.queue, EventModel::Usage(usage));
            },
            StreamModel::TextDelta(delta) => {
                lemma_delta_whole(mid, before.text_item, prose(Seq::empty()), delta, id);
            },
            StreamModel::ReasoningDelta(delta) => {
                lemma_delta_whole(mid, before.reasoning_item, thought(Seq::empty()), delta, id);
            },
            StreamModel::TextStart => {
                lemma_published_whole(
                    mid.queue,
                    announced(prose(Seq::empty()), id, mid.turn),
                );
            },
            StreamModel::ReasoningStart => {
                lemma_published_whole(
                    mid.queue,
                    announced(thought(Seq::empty()), id, mid.turn),
                );
            },
            StreamModel::TextEnd => {
                if let Some(open) = before.text_item {
                    lemma_published_whole(
                        mid.queue,
                        completed(prose(before.step.text), open, mid.turn),
                    );
                }
            },
            StreamModel::ReasoningEnd => {
                if let Some(open) = before.reasoning_item {
                    lemma_published_whole(
                        mid.queue,
                        completed(thought(before.step.reasoning), open, mid.turn),
                    );
                }
            },
            _ => {},
        }
    }
}

proof fn lemma_delta_whole(
    sink: SinkModel,
    item: Option<Seq<char>>,
    empty: KindModel,
    delta: Seq<char>,
    id: Seq<char>,
)
    ensures
        published_calls(delta_sent(sink, item, empty, delta, id).queue) == published_calls(
            sink.queue,
        ),
        published_reports(delta_sent(sink, item, empty, delta, id).queue) == published_reports(
            sink.queue,
        ),
{
    match item {
        Some(open) => {
            lemma_published_whole(sink.queue, extended(delta, open, sink.turn));
        },
        None => {
            let opened = announced(empty, id, sink.turn);
            lemma_published_whole(sink.queue, opened);
            lemma_published_whole(sink.queue.push(opened), extended(delta, id, sink.turn));
        },
    }
}

/// How a stream's last report ends a step: it wants tools where the model says so or has
/// called one by then, was cut off where the model hit its limit, and used what is
/// reported, input and output together. Nothing that follows the report changes that.
pub proof fn law_the_last_report_decides(
    source: SourceModel,
    sink: SinkModel,
    events: Seq<StreamModel>,
    ids: Seq<Seq<char>>,
    k: int,
)
    requires
        0 <= k < events.len(),
        events[k] is StepFinish,
        countable(events[k]),
        forall|i: int| k < i < events.len() ==> !((#[trigger] events[i]) is StepFinish),
        source.pending.len() == 0,
    ensures
        ({
            let step = run_of(source, sink, events, ids).0.step;
            let used = events[k]->StepFinish_usage;
            &&& step.wants_tools == (events[k]->StepFinish_reason == FinishReason::ToolCalls
                || source.step.tool_calls.len() > 0 || exists|i: int|
                0 <= i < k && (#[trigger] events[i]) is ToolCallEnd)
            &&& step.truncated == (events[k]->StepFinish_reason == FinishReason::Length)
            &&& step.tokens_used == used.input_tokens + used.output_tokens
        }),
    decreases events.len(),
{
    let rest = events.drop_last();
    if k == events.len() - 1 {
        lemma_calls_kept(source, sink, rest, ids);
        lemma_some_call(rest);
        if exists|i: int| 0 <= i < k && (#[trigger] events[i]) is ToolCallEnd {
            let i = choose|i: int| 0 <= i < k && (#[trigger] events[i]) is ToolCallEnd;
            assert(rest[i] is ToolCallEnd);
        }
        if exists|i: int| 0 <= i < rest.len() && (#[trigger] rest[i]) is ToolCallEnd {
            let i = choose|i: int| 0 <= i < rest.len() && (#[trigger] rest[i]) is ToolCallEnd;
            assert(events[i] is ToolCallEnd);
        }
    } else {
        assert forall|i: int| k < i < rest.len() implies !((#[trigger] rest[i]) is StepFinish) by {
            assert(rest[i] == events[i]);
        }
        law_the_last_report_decides(source, sink, rest, ids, k);
        if exists|i: int| 0 <= i < k && (#[trigger] events[i]) is ToolCallEnd {
            let i = choose|i: int| 0 <= i < k && (#[trigger] events[i]) is ToolCallEnd;
            assert(rest[i] is ToolCallEnd);
        }
        if exists|i: int| 0 <= i < k && (#[trigger] rest[i]) is ToolCallEnd {
            let i = choose|i: int| 0 <= i < k && (#[trigger] rest[i]) is ToolCallEnd;
            assert(events[i] is ToolCallEnd);
        }
        assert(!(events[events.len() - 1] is StepFinish));
    }
}

proof fn lemma_some_call(events: Seq<StreamModel>)
    ensures
        calls_in(events).len() > 0 <==> exists|i: int|
            0 <= i < events.len() && (#[trigger] events[i]) is ToolCallEnd,
    decreases events.len(),
{
    if events.len() > 0 {
        let rest = events.drop_last();
        lemma_some_call(rest);
        if events.last() is ToolCallEnd {
            assert(events[events.len() - 1] is ToolCallEnd);
        }
        if exists|i: int| 0 <= i < events.len() && (#[trigger] events[i]) is ToolCallEnd {
            let i = choose|i: int| 0 <= i < events.len() && (#[trigger] events[i]) is ToolCallEnd;
            if i < rest.len() {
                assert(rest[i] is ToolCallEnd);
            }
        }
        if exists|i: int| 0 <= i < rest.len() && (#[trigger] rest[i]) is ToolCallEnd {
            let i = choose|i: int| 0 <= i < rest.len() && (#[trigger] rest[i]) is ToolCallEnd;
            assert(events[i] is ToolCallEnd);
        }
    }
}

/// What is announced is shown to its end: when text or reasoning ends, or the stream
/// does, the item that was open is completed with all that was said, under its own id;
/// and an increment goes to the item that is open, which is announced first where none
/// is.
pub proof fn law_an_open_item_is_closed(
    source: SourceModel,
    sink: SinkModel,
    delta: Seq<char>,
    id: Seq<char>,
)
    requires
        sink.listening,
    ensures
        ({
            let closed = streamed(source, sink, StreamModel::TextEnd, id);
            let thought_through = streamed(source, sink, StreamModel::ReasoningEnd, id);
            let more = streamed(source, sink, StreamModel::TextDelta(delta), id);
            let further = streamed(source, sink, StreamModel::ReasoningDelta(delta), id);
            let over = stream_ended(source, sink);
            &&& closed.0.text_item is None && thought_through.0.reasoning_item is None
            &&& source.text_item is None ==> closed.1 == sink
            &&& source.reasoning_item is None ==> thought_through.1 == sink
            &&& source.text_item is None && source.reasoning_item is None ==> over == sink
            &&& source.text_item matches Some(open) ==> {
                let shown = EventModel::Completed {
                    turn_id: sink.turn,
                    item: ItemModel {
                        id: open,
                        kind: KindModel::AgentMessage { text: source.step.text },
                        status: ItemStatus::Completed,
                    },
                };
                &&& closed.1.queue == sink.queue.push(shown)
                &&& over.queue[sink.queue.len() as int] == shown
                &&& more.0.text_item == Some(open)
                &&& more.1.queue == sink.queue.push(
                    EventModel::Delta { turn_id: sink.turn, item_id: open, text: delta },
                )
            }
            &&& source.reasoning_item matches Some(open) ==> {
                let shown = EventModel::Completed {
                    turn_id: sink.turn,
                    item: ItemModel {
                        id: open,
                        kind: KindModel::Reasoning { text: source.step.reasoning },
                        status: ItemStatus::Completed,
                    },
                };
                &&& thought_through.1.queue == sink.queue.push(shown)
                &&& over.queue.last() == shown
                &&& further.0.reasoning_item == Some(open)
                &&& further.1.queue == sink.queue.push(
                    EventModel::Delta { turn_id: sink.turn, item_id: open, text: delta },
                )
            }
            &&& source.text_item is None ==> {
                &&& more.0.text_item == Some(id)
                &&& more.1.queue.len() == sink.queue.len() + 2
                &&& more.1.queue[sink.queue.len() as int] == EventModel::Started {
                    turn_id: sink.turn,
                    item: ItemModel {
                        id,
                        kind: KindModel::AgentMessage { text: Seq::empty() },
                        status: ItemStatus::Streaming,
                    },
                }
                &&& more.1.queue.last() == EventModel::Delta {
                    turn_id: sink.turn,
                    item_id: id,
                    text: delta,
                }
            }
            &&& source.reasoning_item is None ==> {
                &&& further.0.reasoning_item == Some(id)
                &&& further.1.queue.len() == sink.queue.len() + 2
                &&& further.1.queue[sink.queue.len() as int] == EventModel::Started {
                    turn_id: sink.turn,
                    item: ItemModel {
                        id,
                        kind: KindModel::Reasoning { text: Seq::empty() },
                        status: ItemStatus::Streaming,
                    },
                }
                &&& further.1.queue.last() == EventModel::Delta {
                    turn_id: sink.turn,
                    item_id: id,
                    text: delta,
                }
            }
        }),
{
}

/// What starts is announced under an id of its own, empty, and is what further increments go
/// to; a call that starts is announced to nobody before it ends.
pub proof fn law_what_starts_is_announced(
    source: SourceModel,
    sink: SinkModel,
    call: Seq<char>,
    name: Seq<char>,
    id: Seq<char>,
)
    requires
        sink.listening,
    ensures
        ({
            let text = streamed(source, sink, StreamModel::TextStart, id);
            let reasoning = streamed(source, sink, StreamModel::ReasoningStart, id);
            &&& text.0 == SourceModel { text_item: Some(id), ..source }
            &&& text.1.queue == sink.queue.push(
                EventModel::Started {
                    turn_id: sink.turn,
                    item: ItemModel {
                        id,
                        kind: KindModel::AgentMessage { text: Seq::empty() },
                        status: ItemStatus::Streaming,
                    },
                },
            )
            &&& reasoning.0 == SourceModel { reasoning_item: Some(id), ..source }
            &&& reasoning.1.queue == sink.queue.push(
                EventModel::Started {
                    turn_id: sink.turn,
                    item: ItemModel {
                        id,
                        kind: KindModel::Reasoning { text: Seq::empty() },
                        status: ItemStatus::Streaming,
                    },
                },
            )
            &&& streamed(source, sink, StreamModel::ToolCallStart { id: call, name }, id).1 == sink
        }),
{
}

/// Some id that could be an item's.
spec fn fresh_witness() -> Seq<char> {
    "itm"@ + "_"@ + witness_digits()
}

spec fn witness_digits() -> Seq<char> {
    Seq::new(32, |i: int| if i == 12 { '7' } else { '8' })
}

proof fn lemma_fresh_witness()
    ensures
        is_fresh_id(fresh_witness(), "itm"@),
{
    assert(crate::protocol::id::is_simple_uuid(witness_digits()));
}

} // verus!
