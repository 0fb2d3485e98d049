//! Turns of a session, and of the agents it delegates to.

use vstd::prelude::*;

use crate::cli::listing::hidden_in;
use crate::config::agent::{AgentDefinition, AgentModel};
use crate::context::budget::{Budget, Pressure};
use crate::context::compact::{apply, compacted, plan, prefix_end, span_end, Plan, Summary};
use crate::context::laws::{law_the_newest_message_survives, law_the_span_is_closed};
use crate::context::prune::{estimate_tokens, fits, reclaimable_tokens, tokens_of, weight};
use crate::context::PRUNE_PROTECT_TOKENS;
use crate::engine::agent::{permits, Agent};
use crate::engine::prompt::{
    bare, preamble, sorted_tools, PromptAssembler, PromptModel, ToolSchema,
};
use crate::engine::step::{summary_of, StopModel};
use crate::engine::turn::{pressure_on, TurnOutcome};
use crate::order::{key_fn, sorted_by_key};
use crate::permission::PermissionMode;
use crate::protocol::event::{Event, EventModel, ItemEvent, Usage};
use crate::protocol::id::{is_fresh_id, ItemId, ToolCallId, TurnId};
use crate::protocol::item::{Item, ItemKind, ItemStatus, KindModel};
use crate::protocol::message::{
    copy_of, text_content_of, text_message, Message, MessageModel, Role,
};
use crate::text::{copy_texts, text_of, trim, trim_of};

verus! {

/// A model to ask the providers for.
#[derive(Debug, PartialEq, Eq)]
pub enum ModelChoice {
    /// The one that a reference names.
    Named(String),
    /// The faster one of a provider, or of the first that can be used.
    Faster(Option<String>),
    /// The session's own.
    Own,
}

/// What a [`ModelChoice`] is.
pub enum ChoiceModel {
    Named(Seq<char>),
    Faster(Option<Seq<char>>),
    Own,
}

impl DeepView for ModelChoice {
    type V = ChoiceModel;

    open spec fn deep_view(&self) -> ChoiceModel {
        match *self {
            ModelChoice::Named(reference) => ChoiceModel::Named(reference@),
            ModelChoice::Faster(provider) => ChoiceModel::Faster(text_of(provider)),
            ModelChoice::Own => ChoiceModel::Own,
        }
    }
}

/// The models that may summarize, best first: the one that is configured, the faster one
/// of the session's provider, and the session's own, which is better than none.
pub open spec fn summarizers_of(
    faster_model: Option<Seq<char>>,
    provider: Option<Seq<char>>,
) -> Seq<ChoiceModel> {
    let named = match faster_model {
        Some(reference) => seq![ChoiceModel::Named(reference)],
        None => Seq::empty(),
    };
    let own = if provider is Some {
        seq![ChoiceModel::Own]
    } else {
        Seq::empty()
    };
    named + seq![ChoiceModel::Faster(provider)] + own
}

/// The models that may summarize, best first; the first that can be had does. `provider`
/// is that of the session's model, where there is one.
pub fn summarizers(faster_model: Option<String>, provider: Option<String>) -> (r: Vec<ModelChoice>)
    ensures
        r.deep_view() == summarizers_of(text_of(faster_model), text_of(provider)),
{
    let mut r: Vec<ModelChoice> = Vec::new();
    let own = provider.is_some();
    if let Some(reference) = faster_model {
        r.push(ModelChoice::Named(reference));
    }
    r.push(ModelChoice::Faster(provider));
    if own {
        r.push(ModelChoice::Own);
    }
    assert(r.deep_view() =~= summarizers_of(text_of(faster_model), text_of(provider)));
    r
}

/// Whether a history has to give up an old part before it is sent.
pub open spec fn must_compact(budget: Budget, prompt: Seq<MessageModel>) -> bool {
    &&& weight(prompt) <= usize::MAX
    &&& pressure_on(budget, prompt) == Pressure::ShouldCompact || pressure_on(budget, prompt)
        == Pressure::Exceeded
}

/// The span of an assembled prompt to summarize before it is sent: none where there is
/// room, or pruning makes it, or nothing lies between the preamble and what is recent.
pub fn compaction(prompt: &[Message], preamble: usize, budget: &Budget) -> (r: Option<Plan>)
    ensures
        ({
            let all = prompt.deep_view();
            let start = prefix_end(all, preamble as int);
            let end = span_end(all, preamble as int, budget.effective_window as int);
            match r {
                Some(plan) => {
                    &&& must_compact(*budget, all)
                    &&& plan.start == start
                    &&& plan.end == end
                    &&& start < end <= all.len()
                },
                None => !must_compact(*budget, all) || end <= start,
            }
        }),
{
    if !fits(prompt) {
        return None;
    }
    let reclaimable: usize = reclaimable_tokens(prompt, PRUNE_PROTECT_TOKENS);
    let used: usize = estimate_tokens(prompt);
    match budget.pressure(used, reclaimable) {
        Pressure::ShouldCompact | Pressure::Exceeded => match plan(
            prompt,
            preamble,
            budget.effective_window,
        ) {
            Ok(plan) => Some(plan),
            Err(_) => None,
        },
        _ => None,
    }
}

/// Whether putting a summary in place of a span makes a history smaller.
pub open spec fn shrinks(prompt: Seq<MessageModel>, plan: Plan, text: Seq<char>) -> bool {
    &&& weight(prompt) <= usize::MAX
    &&& weight(compacted(prompt, plan, text)) <= usize::MAX
    &&& tokens_of(compacted(prompt, plan, text)) < tokens_of(prompt)
}

/// The prompt with a summary in place of the span, where that makes it smaller. A
/// summary that is no smaller than what it stands for is discarded: in the history it
/// would be what the next compaction summarizes.
pub fn shortened(prompt: &[Message], plan: &Plan, summary: &Summary) -> (r: Option<Vec<Message>>)
    requires
        plan.start <= plan.end <= prompt@.len(),
    ensures
        match r {
            Some(messages) => shrinks(prompt.deep_view(), *plan, summary.text@)
                && messages.deep_view() == compacted(prompt.deep_view(), *plan, summary.text@),
            None => !shrinks(prompt.deep_view(), *plan, summary.text@),
        },
{
    let messages = apply(prompt, plan, summary);
    let slice = messages.as_slice();
    assert(slice.deep_view() =~= messages.deep_view());
    if fits(prompt) && fits(slice) && estimate_tokens(slice) < estimate_tokens(prompt) {
        Some(messages)
    } else {
        None
    }
}

/// Compaction before a turn keeps the preamble and the newest message, and leaves the
/// history with fewer tokens than it had.
pub proof fn law_compaction_keeps_both_ends(
    budget: Budget,
    prompt: Seq<MessageModel>,
    preamble: int,
    plan: Plan,
    text: Seq<char>,
)
    requires
        0 <= preamble,
        plan.start == prefix_end(prompt, preamble),
        plan.end == span_end(prompt, preamble, budget.effective_window as int),
        plan.start < plan.end,
        shrinks(prompt, plan, text),
    ensures
        ({
            let after = compacted(prompt, plan, text);
            &&& after.take(plan.start as int) == prompt.take(plan.start as int)
            &&& after.last() == prompt.last()
            &&& tokens_of(after) < tokens_of(prompt)
        }),
{
    law_the_span_is_closed(prompt, preamble, budget.effective_window as int);
    law_the_newest_message_survives(
        prompt,
        preamble,
        budget.effective_window as int,
        plan,
        text,
    );
    assert(compacted(prompt, plan, text).take(plan.start as int) =~= prompt.take(
        plan.start as int,
    ));
}

/// What a session's own model calls have used. Delegated work is not in it: a
/// subagent reports on its own stream.
#[derive(Debug, Clone, Copy, PartialEq, Eq, Structural)]
pub struct SessionUsage {
    pub input: u64,
    pub output: u64,
    pub cached_input: u64,
    pub reasoning: u64,
    /// Model calls, not user turns.
    pub calls: u32,
}

/// Whether a session's counters hold one more report.
pub open spec fn usage_fits(usage: SessionUsage, reported: Usage) -> bool {
    &&& usage.input + reported.input_tokens <= u64::MAX
    &&& usage.output + reported.output_tokens <= u64::MAX
    &&& usage.cached_input + reported.cached_input_tokens <= u64::MAX
    &&& usage.reasoning + reported.reasoning_tokens <= u64::MAX
    &&& usage.calls < u32::MAX
}

/// A session's usage after one more report.
pub open spec fn used(usage: SessionUsage, reported: Usage) -> SessionUsage {
    SessionUsage {
        input: (usage.input + reported.input_tokens) as u64,
        output: (usage.output + reported.output_tokens) as u64,
        cached_input: (usage.cached_input + reported.cached_input_tokens) as u64,
        reasoning: (usage.reasoning + reported.reasoning_tokens) as u64,
        calls: (usage.calls + 1) as u32,
    }
}

impl Default for SessionUsage {
    fn default() -> (r: Self)
        ensures
            r == (SessionUsage { input: 0, output: 0, cached_input: 0, reasoning: 0, calls: 0 }),
    {
        SessionUsage { input: 0, output: 0, cached_input: 0, reasoning: 0, calls: 0 }
    }
}

impl SessionUsage {
    /// Whether the counters hold one more report.
    pub fn holds(&self, reported: &Usage) -> (r: bool)
        ensures
            r == usage_fits(*self, *reported),
    {
        self.input <= u64::MAX - reported.input_tokens && self.output <= u64::MAX
            - reported.output_tokens && self.cached_input <= u64::MAX
            - reported.cached_input_tokens && self.reasoning <= u64::MAX
            - reported.reasoning_tokens && self.calls < u32::MAX
    }

    /// Counts one model call.
    pub fn add(&mut self, reported: &Usage)
        requires
            usage_fits(*old(self), *reported),
        ensures
            *final(self) == used(*old(self), *reported),
    {
        self.input = self.input + reported.input_tokens;
        self.output = self.output + reported.output_tokens;
        self.cached_input = self.cached_input + reported.cached_input_tokens;
        self.reasoning = self.reasoning + reported.reasoning_tokens;
        self.calls = self.calls + 1;
    }
}

/// What a session has used after some reports.
pub open spec fn total_of(reports: Seq<Usage>) -> SessionUsage
    decreases reports.len(),
{
    if reports.len() == 0 {
        SessionUsage { input: 0, output: 0, cached_input: 0, reasoning: 0, calls: 0 }
    } else {
        used(total_of(reports.drop_last()), reports.last())
    }
}

/// The share of a session's input that came from a cache cannot exceed one: cached
/// tokens are counted inside the input of every report, so they stay inside the total.
pub proof fn law_the_cached_share_cannot_exceed_one(reports: Seq<Usage>)
    requires
        forall|n: int|
            0 <= n < reports.len() ==> usage_fits(#[trigger] total_of(reports.take(n)), reports[n]),
        forall|i: int|
            0 <= i < reports.len() ==> (#[trigger] reports[i]).cached_input_tokens
                <= reports[i].input_tokens,
    ensures
        total_of(reports).cached_input <= total_of(reports).input,
    decreases reports.len(),
{
    if reports.len() > 0 {
        let before = reports.drop_last();
        assert forall|n: int| 0 <= n < before.len() implies usage_fits(
            #[trigger] total_of(before.take(n)),
            before[n],
        ) by {
            assert(before.take(n) =~= reports.take(n));
        }
        assert(reports.take(before.len() as int) =~= before);
        assert(usage_fits(total_of(reports.take(before.len() as int)), reports.last()));
        law_the_cached_share_cannot_exceed_one(before);
    }
}

/// What the activity line shows once an item was announced or completed, if that
/// changes it.
pub open spec fn label_after(kind: KindModel, summary: Seq<char>) -> Option<Seq<char>> {
    match kind {
        KindModel::ToolExecution { name, .. } => Some(name + " "@ + summary),
        KindModel::ToolResult { .. } => Some("Thinking"@),
        _ => None,
    }
}

/// What the activity line shows after an event, if that changes it.
pub open spec fn activity_of(event: EventModel, summary: Seq<char>) -> Option<Seq<char>> {
    match event {
        EventModel::Started { item, .. } => label_after(item.kind, summary),
        EventModel::Completed { item, .. } => label_after(item.kind, summary),
        _ => None,
    }
}

fn label(kind: &ItemKind, summary: &str) -> (r: Option<String>)
    ensures
        text_of(r) == label_after(kind.deep_view(), summary@),
{
    match kind {
        ItemKind::ToolExecution { name, .. } => {
            let mut r = name.clone();
            r.push_str(" ");
            r.push_str(summary);
            Some(r)
        },
        ItemKind::ToolResult { .. } => Some("Thinking".to_owned()),
        _ => None,
    }
}

/// What the activity line shows after an event: the tool that runs, with its input
/// summarized, and thinking again once it has answered.
pub fn activity(event: &Event, summary: &str) -> (r: Option<String>)
    ensures
        text_of(r) == activity_of(event.deep_view(), summary@),
{
    match event {
        Event::Item(ItemEvent::Started { item, .. }) => label(&item.kind, summary),
        Event::Item(ItemEvent::Completed { item, .. }) => label(&item.kind, summary),
        _ => None,
    }
}

/// A registered tool: how the model is told of it, and whether it may change anything.
#[derive(Debug)]
pub struct ToolEntry {
    pub schema: ToolSchema,
    pub mutating: bool,
}

/// Whether a tool is offered to an agent.
pub open spec fn is_offered(tool: ToolEntry, mode: PermissionMode, allowed: Seq<Seq<char>>) -> bool {
    permits(allowed, tool.schema.name@) && !hidden_in(mode, tool.mutating)
}

/// The tools that are offered, as they stand in the registry.
pub open spec fn offered_of(
    tools: Seq<ToolEntry>,
    mode: PermissionMode,
    allowed: Seq<Seq<char>>,
) -> Seq<ToolSchema>
    decreases tools.len(),
{
    if tools.len() == 0 {
        Seq::empty()
    } else {
        let before = offered_of(tools.drop_last(), mode, allowed);
        if is_offered(tools.last(), mode, allowed) {
            before.push(tools.last().schema)
        } else {
            before
        }
    }
}

/// The tools that an agent is shown, by name. What it may not use is left out rather
/// than refused: a tool the model can see is one it will try.
pub fn offered(tools: Vec<ToolEntry>, mode: PermissionMode, allowed: &Vec<String>) -> (r: Vec<
    ToolSchema,
>)
    ensures
        r@ == sorted_by_key(
            offered_of(tools@, mode, allowed.deep_view()),
            key_fn::<ToolSchema>(),
        ),
{
    let ghost all = tools@;
    let ghost names = allowed.deep_view();
    let mut tools = tools;
    let mut kept: Vec<ToolSchema> = Vec::new();
    let ghost mut done: int = 0;
    assert(all.skip(0) =~= all);
    assert(all.take(0) =~= Seq::<ToolEntry>::empty());
    while tools.len() > 0
        invariant
            0 <= done <= all.len(),
            names == allowed.deep_view(),
            tools@ == all.skip(done),
            kept@ == offered_of(all.take(done), mode, names),
        decreases tools@.len(),
    {
        assert(all.take(done + 1).drop_last() =~= all.take(done));
        assert(all.take(done + 1).last() == all[done]);
        assert(all.skip(done)[0] == all[done]);
        let tool = tools.remove(0);
        assert(tools@ =~= all.skip(done + 1));
        let named: bool = allowed.len() == 0 || crate::text::among(allowed, &tool.schema.name);
        let hidden: bool = mode == PermissionMode::Plan && tool.mutating;
        if named && !hidden {
            kept.push(tool.schema);
        }
        proof {
            done = done + 1;
        }
    }
    assert(all.take(done) =~= all);
    sorted_tools(kept)
}

/// What a turn leaves behind.
pub struct Ended {
    /// The conversation.
    pub history: Seq<MessageModel>,
    /// What is reported.
    pub error: Option<Seq<char>>,
    /// What the user said to do instead, which opens the next turn.
    pub instructions: Option<Seq<char>>,
}

/// The conversation that a turn hands back: the reduced one without its preamble where
/// it was compacted, the old one otherwise, and what the turn added.
pub open spec fn conversation(
    history: Seq<MessageModel>,
    replacement: Option<Seq<MessageModel>>,
    preamble: int,
    added: Seq<MessageModel>,
) -> Seq<MessageModel> {
    (match replacement {
        Some(reduced) => if preamble <= reduced.len() {
            reduced.skip(preamble)
        } else {
            Seq::empty()
        },
        None => history,
    }) + added
}

/// A conversation after a turn that ended. A redirection opens the next turn as a fresh
/// instruction; blank text is none.
pub open spec fn ended_of(
    talked: Seq<MessageModel>,
    reason: StopModel,
    redirect: Option<Seq<char>>,
) -> Ended {
    let instructions = match redirect {
        Some(text) => if trim_of(text).len() == 0 {
            None
        } else {
            Some(text)
        },
        None => None,
    };
    Ended {
        history: match instructions {
            Some(text) => talked.push(text_message(Role::User, text)),
            None => talked,
        },
        error: if reason is Completed {
            None
        } else {
            Some(summary_of(reason))
        },
        instructions,
    }
}

/// What a turn came to, for the screen.
#[derive(Debug, PartialEq, Eq)]
pub struct AfterTurn {
    pub error: Option<String>,
    pub instructions: Option<String>,
}

/// What a reduced conversation holds, if there is one.
pub open spec fn reduced_of(replacement: Option<Vec<Message>>) -> Option<Seq<MessageModel>> {
    match replacement {
        Some(messages) => Some(messages.deep_view()),
        None => None,
    }
}

/// Takes a finished turn into the conversation.
pub fn after_turn(
    history: &mut Vec<Message>,
    outcome: TurnOutcome,
    replacement: Option<Vec<Message>>,
    preamble: usize,
    redirect: Option<String>,
) -> (r: AfterTurn)
    ensures
        ({
            let talked = conversation(
                old(history).deep_view(),
                reduced_of(replacement),
                preamble as int,
                outcome.messages.deep_view(),
            );
            let ended = ended_of(talked, outcome.stop_reason.deep_view(), text_of(redirect));
            &&& final(history).deep_view() == ended.history
            &&& text_of(r.error) == ended.error
            &&& text_of(r.instructions) == ended.instructions
        }),
{
    let ghost before = history.deep_view();
    match replacement {
        Some(reduced) => {
            let from: usize = if preamble < reduced.len() {
                preamble
            } else {
                reduced.len()
            };
            *history = copy_of(&reduced, from, reduced.len());
            assert(reduced.deep_view().len() == reduced@.len());
            assert(history.deep_view() =~= (if preamble <= reduced@.len() {
                reduced.deep_view().skip(preamble as int)
            } else {
                Seq::empty()
            }));
        },
        None => {},
    }
    let ghost front = history.deep_view();
    let mut added = outcome.messages;
    let ghost more = added.deep_view();
    history.append(&mut added);
    assert(history.deep_view() =~= front + more);
    let ghost talked = history.deep_view();
    let error = if outcome.stop_reason.is_success() {
        None
    } else {
        Some(outcome.stop_reason.summary())
    };
    match redirect {
        Some(text) => {
            if !trim(&text).as_str().is_empty() {
                let message = Message::text(Role::User, &text);
                history.push(message);
                assert(history.deep_view() =~= talked.push(message.deep_view()));
                return AfterTurn { error, instructions: Some(text) };
            }
        },
        None => {},
    }
    AfterTurn { error, instructions: None }
}

/// An agent of a definition, as the loop runs it.
pub open spec fn runs_as(
    agent: Agent,
    definition: AgentModel,
    inherited: PermissionMode,
) -> bool {
    &&& agent.name@ == definition.name
    &&& agent.description@ == "Implements changes. Full tool access."@
    &&& agent.kind == crate::engine::agent::AgentKind::Primary
    &&& agent.prompt is None
    &&& agent.model is None
    &&& agent.allowed_tools.deep_view() == definition.frontmatter.tools
    &&& agent.mode == match definition.frontmatter.mode_override {
        Some(mode) => mode,
        None => inherited,
    }
}

/// The agent that a delegated task runs as. It inherits the session's mode unless its
/// definition overrides that: an agent in the background that does not would queue its
/// writes for an approval nobody sees.
pub fn subagent(definition: &AgentDefinition, inherited: PermissionMode) -> (r: Agent)
    ensures
        runs_as(r, definition.deep_view(), inherited),
{
    let mut agent = Agent::build();
    agent.name = definition.name.clone();
    agent.allowed_tools = copy_texts(&definition.frontmatter.tools);
    agent.mode = match definition.frontmatter.mode_override {
        Some(mode) => mode,
        None => inherited,
    };
    agent
}

/// What a delegated agent is told it is.
pub open spec fn system_of(definition: AgentModel) -> Seq<char> {
    if definition.prompt.len() == 0 {
        "You are the "@ + definition.name + " subagent."@
    } else {
        definition.prompt
    }
}

/// The conversation that a delegated task starts with: its own instructions, where it
/// works, and the task. Nothing of the session's.
pub open spec fn task_messages(
    definition: AgentModel,
    workspace: Seq<char>,
    task: Seq<char>,
) -> Seq<MessageModel> {
    preamble(
        PromptModel {
            environment: Some("Working directory: "@ + workspace),
            ..bare(system_of(definition))
        },
    ) + seq![text_message(Role::User, task)]
}

/// The conversation that a delegated task starts with.
pub fn task_prompt(definition: &AgentDefinition, workspace: &str, task: &str) -> (r: Vec<Message>)
    ensures
        r.deep_view() == task_messages(definition.deep_view(), workspace@, task@),
{
    let system = if definition.prompt.as_str().is_empty() {
        let mut s = "You are the ".to_owned();
        s.push_str(&definition.name);
        s.push_str(" subagent.");
        s
    } else {
        definition.prompt.clone()
    };
    let mut place = "Working directory: ".to_owned();
    place.push_str(workspace);
    let none: Vec<Message> = Vec::new();
    let ghost empty = none.deep_view();
    let assembler = PromptAssembler::new(&system).environment(&place);
    let r = assembler.assemble(&none, Some(Message::text(Role::User, task)));
    proof {
        assert(empty =~= Seq::<MessageModel>::empty());
        let front = preamble(assembler.deep_view());
        assert(front + Seq::<MessageModel>::empty() =~= front);
    }
    r
}

/// The name and input of the tool call that an event completes, if it does.
pub open spec fn call_completed(event: EventModel) -> Option<(Seq<char>, Seq<char>)> {
    match event {
        EventModel::Completed { item, .. } => match item.kind {
            KindModel::ToolExecution { name, input, .. } => Some((name, input)),
            _ => None,
        },
        _ => None,
    }
}

/// Whether an event shows a delegated agent's tool call, under the agent's name and
/// under ids of its own.
pub open spec fn shows_call(
    event: EventModel,
    agent: Seq<char>,
    name: Seq<char>,
    input: Seq<char>,
) -> bool {
    match event {
        EventModel::Completed { turn_id, item } => {
            &&& is_fresh_id(turn_id, "trn"@)
            &&& is_fresh_id(item.id, "itm"@)
            &&& item.status == ItemStatus::Completed
            &&& match item.kind {
                KindModel::ToolExecution { call_id, name: shown, input: given } => {
                    &&& is_fresh_id(call_id, "tc"@)
                    &&& shown == agent + ":"@ + name
                    &&& given == input
                },
                _ => false,
            }
        },
        _ => false,
    }
}

/// What a session shows of a delegated agent's event: its tool calls, and nothing of
/// its prose, which is what delegating is for.
pub fn progress(event: &Event, agent: &str) -> (r: Option<Event>)
    ensures
        match call_completed(event.deep_view()) {
            Some((name, input)) => r is Some && shows_call(
                r->Some_0.deep_view(),
                agent@,
                name,
                input,
            ),
            None => r is None,
        },
{
    match event {
        Event::Item(ItemEvent::Completed { item, .. }) => match &item.kind {
            ItemKind::ToolExecution { name, input, .. } => {
                let mut shown = agent.to_owned();
                shown.push_str(":");
                shown.push_str(name);
                let kind = ItemKind::ToolExecution {
                    call_id: ToolCallId::new(),
                    name: shown,
                    input: input.clone(),
                };
                let item = Item { id: ItemId::new(), kind, status: ItemStatus::Completed };
                Some(Event::Item(ItemEvent::Completed { turn_id: TurnId::new(), item }))
            },
            _ => None,
        },
        _ => None,
    }
}

/// The text of the last message that the assistant said, or nothing.
pub open spec fn last_said(messages: Seq<MessageModel>) -> Seq<char>
    decreases messages.len(),
{
    if messages.len() == 0 {
        Seq::empty()
    } else if messages.last().role == Role::Assistant {
        text_content_of(messages.last().parts)
    } else {
        last_said(messages.drop_last())
    }
}

/// What a delegated agent reports: its last word, or why it has none.
pub open spec fn reported(reason: StopModel, messages: Seq<MessageModel>) -> Result<
    Seq<char>,
    Seq<char>,
> {
    if reason is Completed {
        Ok(last_said(messages))
    } else {
        Err(summary_of(reason))
    }
}

/// What a delegated agent reports. Everything before its last word was the process,
/// which delegation exists to discard.
pub fn subagent_report(outcome: &TurnOutcome) -> (r: Result<String, String>)
    ensures
        match r {
            Ok(text) => reported(outcome.stop_reason.deep_view(), outcome.messages.deep_view())
                == Ok::<Seq<char>, Seq<char>>(text@),
            Err(text) => reported(outcome.stop_reason.deep_view(), outcome.messages.deep_view())
                == Err::<Seq<char>, Seq<char>>(text@),
        },
{
    if !outcome.stop_reason.is_success() {
        return Err(outcome.stop_reason.summary());
    }
    let ghost all = outcome.messages.deep_view();
    let ghost whole = last_said(all);
    let mut i: usize = outcome.messages.len();
    assert(all.take(i as int) =~= all);
    while i > 0
        invariant
            i <= outcome.messages@.len(),
            all == outcome.messages.deep_view(),
            whole == last_said(all),
            whole == last_said(all.take(i as int)),
            outcome.stop_reason.deep_view() is Completed,
        decreases i,
    {
        assert(all.take(i as int).drop_last() =~= all.take(i - 1));
        assert(all.take(i as int).last() == outcome.messages@[i - 1].deep_view());
        if outcome.messages[i - 1].role == Role::Assistant {
            return Ok(outcome.messages[i - 1].text_content());
        }
        i -= 1;
    }
    let r = String::new();
    assert(r@ =~= Seq::<char>::empty());
    Ok(r)
}

/// A turn that was not compacted takes nothing away: what was said before stands in
/// front of what it added.
pub proof fn law_the_conversation_grows(
    history: Seq<MessageModel>,
    preamble: int,
    added: Seq<MessageModel>,
    reason: StopModel,
    redirect: Option<Seq<char>>,
)
    ensures
        ({
            let ended = ended_of(
                conversation(history, None, preamble, added),
                reason,
                redirect,
            );
            (history + added).is_prefix_of(ended.history)
        }),
{
    let ended = ended_of(conversation(history, None, preamble, added), reason, redirect);
    let n = (history + added).len() as int;
    assert(history + added =~= ended.history.subrange(0, n));
}

/// A compacted turn does not pile preambles up: what was assembled in front of a
/// conversation is taken off again.
pub proof fn law_the_preamble_is_stripped(
    prompt: PromptModel,
    history: Seq<MessageModel>,
    reduced: Seq<MessageModel>,
    added: Seq<MessageModel>,
)
    ensures
        conversation(
            history,
            Some(preamble(prompt) + reduced),
            preamble(prompt).len() as int,
            added,
        ) == reduced + added,
{
    let n = preamble(prompt).len() as int;
    assert((preamble(prompt) + reduced).skip(n) =~= reduced);
}

/// Every tool that an agent is shown is one its definition permits and, in plan mode,
/// one that changes nothing.
pub proof fn law_only_usable_tools_are_shown(
    tools: Seq<ToolEntry>,
    mode: PermissionMode,
    allowed: Seq<Seq<char>>,
    i: int,
)
    requires
        0 <= i < offered_of(tools, mode, allowed).len(),
    ensures
        exists|k: int|
            0 <= k < tools.len() && (#[trigger] tools[k]).schema == offered_of(
                tools,
                mode,
                allowed,
            )[i] && permits(allowed, tools[k].schema.name@) && !(mode == PermissionMode::Plan
                && tools[k].mutating),
    decreases tools.len(),
{
    let before = offered_of(tools.drop_last(), mode, allowed);
    if i < before.len() {
        law_only_usable_tools_are_shown(tools.drop_last(), mode, allowed, i);
        let k = choose|k: int|
            0 <= k < tools.drop_last().len() && (#[trigger] tools.drop_last()[k]).schema
                == before[i] && permits(allowed, tools.drop_last()[k].schema.name@) && !(mode
                == PermissionMode::Plan && tools.drop_last()[k].mutating);
        assert(tools[k] == tools.drop_last()[k]);
    } else {
        assert(tools[tools.len() - 1] == tools.last());
    }
}

/// Every tool that an agent can use is shown to it.
pub proof fn law_every_usable_tool_is_shown(
    tools: Seq<ToolEntry>,
    mode: PermissionMode,
    allowed: Seq<Seq<char>>,
    k: int,
)
    requires
        0 <= k < tools.len(),
        permits(allowed, tools[k].schema.name@),
        !(mode == PermissionMode::Plan && tools[k].mutating),
    ensures
        offered_of(tools, mode, allowed).contains(tools[k].schema),
    decreases tools.len(),
{
    let all = offered_of(tools, mode, allowed);
    let before = offered_of(tools.drop_last(), mode, allowed);
    if k < tools.len() - 1 {
        law_every_usable_tool_is_shown(tools.drop_last(), mode, allowed, k);
        let i = choose|i: int| 0 <= i < before.len() && before[i] == tools[k].schema;
        assert(all[i] == tools[k].schema);
    } else {
        assert(all.last() == tools[k].schema);
    }
}

} // verus!
