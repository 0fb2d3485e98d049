//! One user input driven to completion.
//!
//! A [`TurnRunner`] decides and does nothing itself: given what happened, it says
//! what has to happen next. Whoever drives it calls the model, looks tools up, asks
//! the user and runs tools, and hands back what came of it.

use vstd::prelude::*;

use crate::context::budget::{pressure_of, Budget, Pressure};
use crate::context::laws::law_pruning_is_idempotent;
use crate::context::prune::{
    cutoff_of, estimate_tokens, fits, prune, pruned, quarter, reclaimable, reclaimable_tokens,
    tokens_of, weight,
};
use crate::context::{PRUNE_MINIMUM_TOKENS, PRUNE_PROTECT_TOKENS};
use crate::engine::agent::{permits, Agent};
use crate::engine::loop_guard::{detected, last_of, signature_text, GuardModel, LoopGuard};
use crate::engine::step::{StepDecision, StopModel, StopReason, DEFAULT_STEP_LIMIT};
use crate::engine::tool::{ToolError, ToolErrorModel, ToolOutcome, ToolOutcomeModel};
use crate::permission::policy::{
    evaluated, grants_of, with_implied, Decision, Policy, PolicyModel,
};
use crate::permission::resource::{resource_read, resource_text, Resource, ResourceModel};
use crate::permission::PermissionMode;
use crate::protocol::item::{ItemKind, KindModel};
use crate::protocol::message::{
    CallModel, Message, MessageModel, Part, PartModel, ResultModel, Role, ToolCall, ToolResult,
};
use crate::text::{copy_texts, quoted, quoted_of, text_of};

verus! {

/// What one inference step said.
#[derive(Debug, PartialEq, Eq)]
pub struct StepOutput {
    pub text: String,
    pub reasoning: String,
    pub tool_calls: Vec<ToolCall>,
    /// The model asked for tools.
    pub wants_tools: bool,
    /// The model was cut off by its own output limit.
    pub truncated: bool,
    pub tokens_used: usize,
}

/// What a [`StepOutput`] is.
pub struct StepModel {
    pub text: Seq<char>,
    pub reasoning: Seq<char>,
    pub tool_calls: Seq<CallModel>,
    pub wants_tools: bool,
    pub truncated: bool,
    pub tokens_used: usize,
}

impl DeepView for StepOutput {
    type V = StepModel;

    open spec fn deep_view(&self) -> StepModel {
        StepModel {
            text: self.text@,
            reasoning: self.reasoning@,
            tool_calls: self.tool_calls.deep_view(),
            wants_tools: self.wants_tools,
            truncated: self.truncated,
            tokens_used: self.tokens_used,
        }
    }
}

/// A step that said nothing.
pub open spec fn empty_step() -> StepModel {
    StepModel {
        text: Seq::empty(),
        reasoning: Seq::empty(),
        tool_calls: Seq::empty(),
        wants_tools: false,
        truncated: false,
        tokens_used: 0,
    }
}

impl Default for StepOutput {
    fn default() -> (r: Self)
        ensures
            r.deep_view() == empty_step(),
    {
        let r = StepOutput {
            text: String::new(),
            reasoning: String::new(),
            tool_calls: Vec::new(),
            wants_tools: false,
            truncated: false,
            tokens_used: 0,
        };
        assert(r.text@ =~= Seq::<char>::empty());
        assert(r.reasoning@ =~= Seq::<char>::empty());
        assert(r.tool_calls.deep_view() =~= Seq::<CallModel>::empty());
        r
    }
}

/// What a turn is decided by.
#[derive(Debug)]
pub struct TurnRunner {
    pub agent: Agent,
    pub mode: PermissionMode,
    pub policy: Policy,
    pub budget: Budget,
    pub step_limit: u32,
    /// Whether the user has interrupted.
    pub cancelled: bool,
    pub guard: LoopGuard,
}

/// What a [`TurnRunner`] is.
pub struct RunnerModel {
    pub agent_name: Seq<char>,
    pub allowed_tools: Seq<Seq<char>>,
    pub mode: PermissionMode,
    pub policy: PolicyModel,
    pub budget: Budget,
    pub step_limit: u32,
    pub cancelled: bool,
    pub guard: GuardModel,
}

impl DeepView for TurnRunner {
    type V = RunnerModel;

    open spec fn deep_view(&self) -> RunnerModel {
        RunnerModel {
            agent_name: self.agent.name@,
            allowed_tools: self.agent.allowed_tools.deep_view(),
            mode: self.mode,
            policy: self.policy.deep_view(),
            budget: self.budget,
            step_limit: self.step_limit,
            cancelled: self.cancelled,
            guard: self.guard.deep_view(),
        }
    }
}

/// What a turn waits for.
#[derive(Debug)]
pub enum Phase {
    /// To be started.
    Start,
    /// For the model's next step.
    Model,
    /// For the tool that the current call names.
    Lookup,
    /// For the user's answer about one of the permissions the current call needs.
    Asking { permissions: Vec<String>, at: usize, resource: Resource },
    /// For the current call's result.
    Executing,
    /// For nothing: it has ended.
    Over,
}

/// What a [`Phase`] is.
pub enum PhaseModel {
    Start,
    Model,
    Lookup,
    Asking { permissions: Seq<Seq<char>>, at: int, resource: ResourceModel },
    Executing,
    Over,
}

impl DeepView for Phase {
    type V = PhaseModel;

    open spec fn deep_view(&self) -> PhaseModel {
        match *self {
            Phase::Start => PhaseModel::Start,
            Phase::Model => PhaseModel::Model,
            Phase::Lookup => PhaseModel::Lookup,
            Phase::Asking { permissions, at, resource } => PhaseModel::Asking {
                permissions: permissions.deep_view(),
                at: at as int,
                resource: resource.deep_view(),
            },
            Phase::Executing => PhaseModel::Executing,
            Phase::Over => PhaseModel::Over,
        }
    }
}

/// One turn, as far as it has come.
#[derive(Debug)]
pub struct Turn {
    /// The conversation so far.
    pub history: Vec<Message>,
    /// What this turn adds to it.
    pub appended: Vec<Message>,
    /// Inference round trips consumed.
    pub steps: u32,
    /// The calls of the current step.
    pub calls: Vec<ToolCall>,
    /// The call that is being run.
    pub at: usize,
    /// The results of the calls before it.
    pub results: Vec<Part>,
    /// Those calls as tool, input and output.
    pub interactions: Vec<(String, String, String)>,
    pub phase: Phase,
}

/// What a [`Turn`] is.
pub struct TurnModel {
    pub history: Seq<MessageModel>,
    pub appended: Seq<MessageModel>,
    pub steps: u32,
    pub calls: Seq<CallModel>,
    pub at: int,
    pub results: Seq<PartModel>,
    pub interactions: Seq<(Seq<char>, Seq<char>, Seq<char>)>,
    pub phase: PhaseModel,
}

impl DeepView for Turn {
    type V = TurnModel;

    open spec fn deep_view(&self) -> TurnModel {
        TurnModel {
            history: self.history.deep_view(),
            appended: self.appended.deep_view(),
            steps: self.steps,
            calls: self.calls.deep_view(),
            at: self.at as int,
            results: self.results.deep_view(),
            interactions: self.interactions.deep_view(),
            phase: self.phase.deep_view(),
        }
    }
}

/// What a turn relies on between two inputs.
pub open spec fn turn_wf(turn: TurnModel) -> bool {
    &&& 0 <= turn.at <= turn.calls.len()
    &&& turn.phase is Model ==> turn.steps < u32::MAX
    &&& turn.phase is Lookup ==> turn.at < turn.calls.len()
    &&& turn.phase is Executing ==> turn.at < turn.calls.len()
    &&& match turn.phase {
        PhaseModel::Asking { permissions, at, .. } => {
            turn.at < turn.calls.len() && 0 <= at < permissions.len()
        },
        _ => true,
    }
}

/// Something that happened.
#[derive(Debug)]
pub enum Input {
    /// The turn is to start.
    Begin,
    /// The model answered, or failed with a message.
    Stepped(Result<StepOutput, String>),
    /// The current call's tool was looked up: the permissions it needs for this
    /// call, or nothing where there is no such tool.
    Found(Option<Vec<String>>),
    /// The user answered.
    Answered(bool),
    /// The current call was run.
    Executed(Result<ToolOutcome, ToolError>),
}

/// What an [`Input`] says.
pub enum InputModel {
    Begin,
    Stepped(Result<StepModel, Seq<char>>),
    Found(Option<Seq<Seq<char>>>),
    Answered(bool),
    Executed(Result<ToolOutcomeModel, ToolErrorModel>),
}

impl DeepView for Input {
    type V = InputModel;

    open spec fn deep_view(&self) -> InputModel {
        match *self {
            Input::Begin => InputModel::Begin,
            Input::Stepped(Ok(step)) => InputModel::Stepped(Ok(step.deep_view())),
            Input::Stepped(Err(message)) => InputModel::Stepped(Err(message@)),
            Input::Found(Some(permissions)) => InputModel::Found(Some(permissions.deep_view())),
            Input::Found(None) => InputModel::Found(None),
            Input::Answered(yes) => InputModel::Answered(yes),
            Input::Executed(Ok(outcome)) => InputModel::Executed(Ok(outcome.deep_view())),
            Input::Executed(Err(error)) => InputModel::Executed(Err(error.deep_view())),
        }
    }
}

/// What has to happen next.
#[derive(Debug)]
pub enum Action {
    /// Send the history to the model.
    CallModel,
    /// Look the current call's tool up.
    LookUp,
    /// Ask the user about a resource.
    Ask(Resource),
    /// Run the current call.
    Execute,
    /// The turn has ended.
    Finish(StopReason),
}

/// What an [`Action`] says.
pub enum ActionModel {
    CallModel,
    LookUp,
    Ask(ResourceModel),
    Execute,
    Finish(StopModel),
}

impl DeepView for Action {
    type V = ActionModel;

    open spec fn deep_view(&self) -> ActionModel {
        match *self {
            Action::CallModel => ActionModel::CallModel,
            Action::LookUp => ActionModel::LookUp,
            Action::Ask(resource) => ActionModel::Ask(resource.deep_view()),
            Action::Execute => ActionModel::Execute,
            Action::Finish(reason) => ActionModel::Finish(reason.deep_view()),
        }
    }
}

/// Whether a phase waits for an input.
pub open spec fn expected(phase: PhaseModel, input: InputModel) -> bool {
    match input {
        InputModel::Begin => phase is Start,
        InputModel::Stepped(_) => phase is Model,
        InputModel::Found(_) => phase is Lookup,
        InputModel::Answered(_) => phase is Asking,
        InputModel::Executed(_) => phase is Executing,
    }
}

/// A runner, its turn, and what it has published.
pub struct Machine {
    pub runner: RunnerModel,
    pub turn: TurnModel,
    pub published: Seq<KindModel>,
}

/// The turn ends.
pub open spec fn stopped(m: Machine, reason: StopModel) -> (Machine, ActionModel) {
    (
        Machine { turn: TurnModel { phase: PhaseModel::Over, ..m.turn }, ..m },
        ActionModel::Finish(reason),
    )
}

/// The tokens that pruning a history would give back.
pub open spec fn prunable(history: Seq<MessageModel>) -> nat {
    quarter(reclaimable(history, history.take(cutoff_of(history, PRUNE_PROTECT_TOKENS as int))))
}

/// How much room a history leaves: none, where its weight is more than can be
/// counted.
pub open spec fn pressure_on(budget: Budget, history: Seq<MessageModel>) -> Pressure {
    if weight(history) > usize::MAX {
        Pressure::Exceeded
    } else {
        pressure_of(budget, tokens_of(history) as int, prunable(history) as int)
    }
}

/// A history as it is sent: pruned where that is called for.
pub open spec fn settled(budget: Budget, history: Seq<MessageModel>) -> Seq<MessageModel> {
    if pressure_on(budget, history) == Pressure::ShouldPrune {
        pruned(history, cutoff_of(history, PRUNE_PROTECT_TOKENS as int))
    } else {
        history
    }
}

/// A step begins. Context is checked before the call rather than after a failure.
pub open spec fn started(m: Machine) -> (Machine, ActionModel) {
    if m.runner.cancelled {
        stopped(m, StopModel::Interrupted)
    } else if m.turn.steps >= m.runner.step_limit {
        stopped(m, StopModel::StepLimit { limit: m.runner.step_limit })
    } else {
        let history = settled(m.runner.budget, m.turn.history);
        let m2 = Machine { turn: TurnModel { history, ..m.turn }, ..m };
        match pressure_on(m.runner.budget, history) {
            Pressure::ShouldCompact | Pressure::Exceeded => stopped(
                m2,
                StopModel::Failed { message: "context requires compaction"@ },
            ),
            _ => (
                Machine { turn: TurnModel { phase: PhaseModel::Model, ..m2.turn }, ..m2 },
                ActionModel::CallModel,
            ),
        }
    }
}

/// What the model said, as the parts of a message.
pub open spec fn assistant_parts(step: StepModel) -> Seq<PartModel> {
    let reasoning = if step.reasoning.len() > 0 {
        seq![PartModel::Reasoning { text: step.reasoning }]
    } else {
        Seq::empty()
    };
    let text = if step.text.len() > 0 {
        seq![PartModel::Text { text: step.text }]
    } else {
        Seq::empty()
    };
    reasoning + text + Seq::new(step.tool_calls.len(), |i: int| PartModel::ToolCall(step.tool_calls[i]))
}

/// A turn with a message more, unless it would be empty.
pub open spec fn with_message(turn: TurnModel, role: Role, parts: Seq<PartModel>) -> TurnModel {
    if parts.len() == 0 {
        turn
    } else {
        let message = MessageModel { role, parts };
        TurnModel {
            history: turn.history.push(message),
            appended: turn.appended.push(message),
            ..turn
        }
    }
}

/// The model answered. What it said is kept before anything is run, so that an
/// interrupt leaves a coherent transcript.
pub open spec fn stepped(m: Machine, step: Result<StepModel, Seq<char>>) -> (Machine, ActionModel) {
    match step {
        Err(message) => stopped(m, StopModel::Failed { message }),
        Ok(step) => {
            let said = with_message(
                TurnModel { steps: (m.turn.steps + 1) as u32, ..m.turn },
                Role::Assistant,
                assistant_parts(step),
            );
            let m2 = Machine { turn: said, ..m };
            if step.truncated {
                stopped(m2, StopModel::OutputTruncated)
            } else if !step.wants_tools || step.tool_calls.len() == 0 {
                stopped(m2, StopModel::Completed)
            } else {
                calling(
                    Machine {
                        turn: TurnModel {
                            calls: step.tool_calls,
                            at: 0,
                            results: Seq::empty(),
                            interactions: Seq::empty(),
                            ..said
                        },
                        ..m2
                    },
                )
            }
        },
    }
}

/// The current call has a result, and the next is up.
pub open spec fn answered_turn(
    turn: TurnModel,
    output: Seq<char>,
    metadata: Option<Seq<char>>,
    is_error: bool,
) -> TurnModel {
    let call = turn.calls[turn.at];
    TurnModel {
        at: turn.at + 1,
        results: turn.results.push(
            PartModel::ToolResult(ResultModel { call_id: call.id, output, metadata, is_error }),
        ),
        interactions: turn.interactions.push((call.name, call.input, output)),
        ..turn
    }
}

/// What is published of a call's result.
pub open spec fn answer_item(output: Seq<char>, is_error: bool) -> KindModel {
    if is_error {
        KindModel::Error { message: output }
    } else {
        KindModel::AgentMessage { text: output }
    }
}

/// The current call has a result, which is published, and the next is up.
pub open spec fn answered_call(
    m: Machine,
    output: Seq<char>,
    metadata: Option<Seq<char>>,
    is_error: bool,
) -> Machine {
    Machine {
        turn: answered_turn(m.turn, output, metadata, is_error),
        published: m.published.push(answer_item(output, is_error)),
        ..m
    }
}

/// What the model is told of a tool that its agent may not use.
pub open spec fn unavailable(tool: Seq<char>, agent: Seq<char>) -> Seq<char> {
    "tool "@ + quoted_of(tool) + " is not available to the "@ + agent + " agent"@
}

/// The calls are run one after another. One whose tool the agent may not use is
/// answered with an error: a model can make names up.
pub open spec fn calling(m: Machine) -> (Machine, ActionModel)
    decreases m.turn.calls.len() - m.turn.at,
{
    if m.turn.at >= m.turn.calls.len() {
        ended(m)
    } else if m.runner.cancelled {
        stopped(m, StopModel::Interrupted)
    } else if !permits(m.runner.allowed_tools, m.turn.calls[m.turn.at].name) {
        let text = unavailable(m.turn.calls[m.turn.at].name, m.runner.agent_name);
        calling(answered_call(m, text, None, true))
    } else {
        (
            Machine { turn: TurnModel { phase: PhaseModel::Lookup, ..m.turn }, ..m },
            ActionModel::LookUp,
        )
    }
}

/// A guard that has seen a step more.
pub open spec fn recorded(
    guard: GuardModel,
    interactions: Seq<(Seq<char>, Seq<char>, Seq<char>)>,
) -> GuardModel {
    if interactions.len() == 0 {
        guard
    } else {
        GuardModel {
            signatures: last_of(guard.signatures.push(signature_text(interactions)), guard.window),
            ..guard
        }
    }
}

/// All calls of the step have results, which go to the model in a user's message;
/// the next step begins, unless the guard sees a loop.
pub open spec fn ended(m: Machine) -> (Machine, ActionModel) {
    let guard = recorded(m.runner.guard, m.turn.interactions);
    let m2 = Machine {
        runner: RunnerModel { guard, ..m.runner },
        turn: with_message(m.turn, Role::User, m.turn.results),
        ..m
    };
    match detected(guard) {
        Some((signature, repeats)) => stopped(
            m2,
            StopModel::LoopDetected { signature, repeats: repeats as usize },
        ),
        None => started(m2),
    }
}

/// The current call's tool was looked up.
pub open spec fn found(m: Machine, permissions: Option<Seq<Seq<char>>>) -> (Machine, ActionModel) {
    match permissions {
        None => calling(
            answered_call(
                m,
                "no tool named "@ + quoted_of(m.turn.calls[m.turn.at].name),
                None,
                true,
            ),
        ),
        Some(permissions) => gated(m, permissions, 0),
    }
}

/// The permissions from `at` on are decided one after another. A refusal ends the
/// turn: told to the model, a clear no becomes a negotiation. A permission that
/// cannot be read is passed over.
pub open spec fn gated(m: Machine, permissions: Seq<Seq<char>>, at: int) -> (Machine, ActionModel)
    decreases permissions.len() - at,
{
    if at >= permissions.len() {
        (
            Machine { turn: TurnModel { phase: PhaseModel::Executing, ..m.turn }, ..m },
            ActionModel::Execute,
        )
    } else {
        match resource_read(permissions[at]) {
            Err(_) => gated(m, permissions, at + 1),
            Ok(resource) => match evaluated(m.runner.policy, resource, m.runner.mode).decision {
                Decision::Allow => gated(m, permissions, at + 1),
                Decision::Deny => stopped(m, StopModel::Denied { resource: resource_text(resource) }),
                Decision::Ask => (
                    Machine {
                        turn: TurnModel {
                            phase: PhaseModel::Asking { permissions, at, resource },
                            ..m.turn
                        },
                        ..m
                    },
                    ActionModel::Ask(resource),
                ),
            },
        }
    }
}

/// A policy that remembers what the user granted.
pub open spec fn granted(policy: PolicyModel, resource: ResourceModel) -> PolicyModel {
    PolicyModel {
        rules: policy.rules + grants_of(with_implied(resource)),
        workspace_roots: policy.workspace_roots,
    }
}

/// The user answered.
pub open spec fn answered(m: Machine, yes: bool) -> (Machine, ActionModel) {
    match m.turn.phase {
        PhaseModel::Asking { permissions, at, resource } => if yes {
            gated(
                Machine {
                    runner: RunnerModel {
                        policy: granted(m.runner.policy, resource),
                        ..m.runner
                    },
                    ..m
                },
                permissions,
                at + 1,
            )
        } else {
            stopped(m, StopModel::Denied { resource: resource_text(resource) })
        },
        _ => stopped(m, StopModel::Interrupted),
    }
}

/// The current call was run. What the model can correct is told to it; a broken
/// harness ends the turn.
pub open spec fn executed(
    m: Machine,
    outcome: Result<ToolOutcomeModel, ToolErrorModel>,
) -> (Machine, ActionModel) {
    match outcome {
        Ok(outcome) => calling(answered_call(m, outcome.output, outcome.metadata, false)),
        Err(ToolErrorModel::Denied(resource)) => stopped(m, StopModel::Denied { resource }),
        Err(ToolErrorModel::Cancelled) => stopped(m, StopModel::Interrupted),
        Err(ToolErrorModel::Broken(message)) => stopped(m, StopModel::Failed { message }),
        Err(ToolErrorModel::Recoverable(message)) => calling(
            answered_call(m, message, None, true),
        ),
    }
}

/// What follows an input.
pub open spec fn advanced(m: Machine, input: InputModel) -> (Machine, ActionModel) {
    match input {
        InputModel::Begin => started(m),
        InputModel::Stepped(step) => stepped(m, step),
        InputModel::Found(permissions) => found(m, permissions),
        InputModel::Answered(yes) => answered(m, yes),
        InputModel::Executed(outcome) => executed(m, outcome),
    }
}

/// What one turn produced.
#[derive(Debug)]
pub struct TurnOutcome {
    pub stop_reason: StopReason,
    /// Messages to append to the thread.
    pub messages: Vec<Message>,
    pub steps_taken: u32,
}

impl Turn {
    /// A turn that has not begun, after a conversation.
    pub fn new(history: Vec<Message>) -> (r: Self)
        ensures
            r.deep_view() == (TurnModel {
                history: history.deep_view(),
                appended: Seq::empty(),
                steps: 0,
                calls: Seq::empty(),
                at: 0,
                results: Seq::empty(),
                interactions: Seq::empty(),
                phase: PhaseModel::Start,
            }),
            turn_wf(r.deep_view()),
    {
        let r = Turn {
            history,
            appended: Vec::new(),
            steps: 0,
            calls: Vec::new(),
            at: 0,
            results: Vec::new(),
            interactions: Vec::new(),
            phase: Phase::Start,
        };
        assert(r.appended.deep_view() =~= Seq::<MessageModel>::empty());
        assert(r.calls.deep_view() =~= Seq::<CallModel>::empty());
        assert(r.results.deep_view() =~= Seq::<PartModel>::empty());
        assert(r.interactions.deep_view() =~= Seq::<(Seq<char>, Seq<char>, Seq<char>)>::empty());
        r
    }

    /// The call that is being run.
    pub fn current(&self) -> (r: Option<&ToolCall>)
        ensures
            match r {
                Some(call) => self.at < self.calls@.len() && *call == self.calls@[self.at as int],
                None => self.at >= self.calls@.len(),
            },
    {
        if self.at < self.calls.len() {
            Some(&self.calls[self.at])
        } else {
            None
        }
    }

    /// Whether the turn waits for an input.
    pub fn expects(&self, input: &Input) -> (r: bool)
        ensures
            r == expected(self.deep_view().phase, input.deep_view()),
    {
        match (input, &self.phase) {
            (Input::Begin, Phase::Start) => true,
            (Input::Stepped(_), Phase::Model) => true,
            (Input::Found(_), Phase::Lookup) => true,
            (Input::Answered(_), Phase::Asking { permissions: _, at: _, resource: _ }) => true,
            (Input::Executed(_), Phase::Executing) => true,
            _ => false,
        }
    }

    /// What the turn produced.
    pub fn finish(self, reason: StopReason) -> (r: TurnOutcome)
        ensures
            r.stop_reason == reason,
            r.messages == self.appended,
            r.steps_taken == self.steps,
    {
        TurnOutcome { stop_reason: reason, messages: self.appended, steps_taken: self.steps }
    }

    /// Adds a message, unless it would be empty.
    fn append(&mut self, role: Role, parts: Vec<Part>)
        ensures
            final(self).deep_view() == with_message(
                old(self).deep_view(),
                role,
                parts.deep_view(),
            ),
            final(self).calls == old(self).calls,
            final(self).at == old(self).at,
    {
        if parts.len() > 0 {
            let message = Message::new(role, parts);
            let copy = message.clone();
            let ghost history = self.history.deep_view();
            let ghost appended = self.appended.deep_view();
            self.history.push(copy);
            self.appended.push(message);
            assert(self.history.deep_view() =~= history.push(message.deep_view()));
            assert(self.appended.deep_view() =~= appended.push(message.deep_view()));
        }
    }

    /// Gives the current call its result, and goes on to the next.
    fn answer(
        &mut self,
        published: &mut Vec<ItemKind>,
        output: String,
        metadata: Option<String>,
        is_error: bool,
    )
        requires
            old(self).at < old(self).calls@.len(),
        ensures
            final(self).deep_view() == answered_turn(
                old(self).deep_view(),
                output@,
                text_of(metadata),
                is_error,
            ),
            final(published).deep_view() == old(published).deep_view().push(
                answer_item(output@, is_error),
            ),
            final(self).calls == old(self).calls,
            final(self).at == old(self).at + 1,
            final(self).steps == old(self).steps,
            final(self).phase == old(self).phase,
    {
        let ghost results = self.results.deep_view();
        let ghost interactions = self.interactions.deep_view();
        let ghost before = published.deep_view();
        assert(self.calls.deep_view()[self.at as int] == self.calls@[self.at as int].deep_view());
        let id = self.calls[self.at].id.clone();
        let interaction = (
            self.calls[self.at].name.clone(),
            self.calls[self.at].input.clone(),
            output.clone(),
        );
        let kind = if is_error {
            ItemKind::Error { message: output.clone() }
        } else {
            ItemKind::AgentMessage { text: output.clone() }
        };
        published.push(kind);
        assert(published.deep_view() =~= before.push(kind.deep_view()));
        self.interactions.push(interaction);
        assert(self.interactions.deep_view() =~= interactions.push(interaction.deep_view()));
        let result = Part::ToolResult(ToolResult { call_id: id, output, metadata, is_error });
        self.results.push(result);
        assert(self.results.deep_view() =~= results.push(result.deep_view()));
        let n: usize = self.calls.len();
        assert(self.at < n);
        self.at = self.at + 1;
    }
}

/// Whether a machine is made of these.
pub open spec fn machine_of(
    runner: TurnRunner,
    turn: Turn,
    published: Vec<ItemKind>,
) -> Machine {
    Machine {
        runner: runner.deep_view(),
        turn: turn.deep_view(),
        published: published.deep_view(),
    }
}

/// How much room a history leaves, whatever its size.
fn pressure(budget: &Budget, history: &Vec<Message>) -> (r: Pressure)
    ensures
        r == pressure_on(*budget, history.deep_view()),
        r != Pressure::Exceeded ==> weight(history.deep_view()) <= usize::MAX,
{
    let slice = history.as_slice();
    assert(slice.deep_view() =~= history.deep_view());
    if !fits(slice) {
        return Pressure::Exceeded;
    }
    let used: usize = estimate_tokens(slice);
    let reclaimable: usize = reclaimable_tokens(slice, PRUNE_PROTECT_TOKENS);
    budget.pressure(used, reclaimable)
}

impl TurnRunner {
    /// A runner with the agent's mode and the default limits.
    pub fn new(agent: Agent, policy: Policy, budget: Budget) -> (r: Self)
        ensures
            r.agent == agent,
            r.mode == agent.mode,
            r.policy == policy,
            r.budget == budget,
            r.step_limit == DEFAULT_STEP_LIMIT,
            !r.cancelled,
            r.guard.deep_view() == (GuardModel {
                window: crate::engine::loop_guard::DEFAULT_WINDOW as nat,
                max_repeats: crate::engine::loop_guard::DEFAULT_MAX_REPEATS as nat,
                signatures: Seq::empty(),
            }),
    {
        let mode = agent.mode;
        TurnRunner {
            agent,
            mode,
            policy,
            budget,
            step_limit: DEFAULT_STEP_LIMIT,
            cancelled: false,
            guard: LoopGuard::default(),
        }
    }

    /// Decides what follows an input. `published` gets the items to publish.
    pub fn next(&mut self, turn: &mut Turn, published: &mut Vec<ItemKind>, input: Input) -> (r:
        Action)
        requires
            turn_wf(old(turn).deep_view()),
            expected(old(turn).deep_view().phase, input.deep_view()),
        ensures
            (machine_of(*final(self), *final(turn), *final(published)), r.deep_view()) == advanced(
                machine_of(*old(self), *old(turn), *old(published)),
                input.deep_view(),
            ),
            turn_wf(final(turn).deep_view()),
            final(self).budget == old(self).budget,
            final(self).agent == old(self).agent,
    {
        match input {
            Input::Begin => self.start(turn, published),
            Input::Stepped(step) => self.step(turn, published, step),
            Input::Found(permissions) => self.look(turn, published, permissions),
            Input::Answered(yes) => self.answer(turn, published, yes),
            Input::Executed(outcome) => self.execute(turn, published, outcome),
        }
    }

    fn stop(&self, turn: &mut Turn, reason: StopReason) -> (r: Action)
        requires
            old(turn).at <= old(turn).calls@.len(),
        ensures
            final(turn).deep_view() == (TurnModel {
                phase: PhaseModel::Over,
                ..old(turn).deep_view()
            }),
            r.deep_view() == ActionModel::Finish(reason.deep_view()),
            turn_wf(final(turn).deep_view()),
    {
        turn.phase = Phase::Over;
        Action::Finish(reason)
    }

    fn start(&mut self, turn: &mut Turn, published: &mut Vec<ItemKind>) -> (r: Action)
        requires
            old(turn).at <= old(turn).calls@.len(),
        ensures
            (machine_of(*final(self), *final(turn), *final(published)), r.deep_view()) == started(
                machine_of(*old(self), *old(turn), *old(published)),
            ),
            turn_wf(final(turn).deep_view()),
            final(self).budget == old(self).budget,
            final(self).agent == old(self).agent,
    {
        if self.cancelled {
            return self.stop(turn, StopReason::Interrupted);
        }
        if turn.steps >= self.step_limit {
            return self.stop(turn, StopReason::StepLimit { limit: self.step_limit });
        }
        let ghost before = turn.history.deep_view();
        let mut found: Pressure = pressure(&self.budget, &turn.history);
        if found == Pressure::ShouldPrune {
            let mut history: Vec<Message> = Vec::new();
            std::mem::swap(&mut history, &mut turn.history);
            let outcome = prune(history, PRUNE_PROTECT_TOKENS, PRUNE_MINIMUM_TOKENS);
            turn.history = outcome.messages;
            proof {
                law_pruning_is_idempotent(before, PRUNE_PROTECT_TOKENS as int);
            }
            found = pressure(&self.budget, &turn.history);
        }
        assert(turn.history.deep_view() == settled(self.budget, before));
        match found {
            Pressure::ShouldCompact | Pressure::Exceeded => self.stop(
                turn,
                StopReason::Failed { message: "context requires compaction".to_owned() },
            ),
            _ => {
                turn.phase = Phase::Model;
                Action::CallModel
            },
        }
    }

    fn step(
        &mut self,
        turn: &mut Turn,
        published: &mut Vec<ItemKind>,
        step: Result<StepOutput, String>,
    ) -> (r: Action)
        requires
            old(turn).at <= old(turn).calls@.len(),
            old(turn).steps < u32::MAX,
        ensures
            (machine_of(*final(self), *final(turn), *final(published)), r.deep_view()) == stepped(
                machine_of(*old(self), *old(turn), *old(published)),
                match step {
                    Ok(step) => Ok(step.deep_view()),
                    Err(message) => Err(message@),
                },
            ),
            turn_wf(final(turn).deep_view()),
            final(self).budget == old(self).budget,
            final(self).agent == old(self).agent,
    {
        let step = match step {
            Ok(step) => step,
            Err(message) => {
                return self.stop(turn, StopReason::Failed { message });
            },
        };
        turn.steps = turn.steps + 1;
        let parts = parts_of(&step);
        turn.append(Role::Assistant, parts);
        if step.truncated {
            return self.stop(turn, StopReason::OutputTruncated);
        }
        if !step.wants_tools || step.tool_calls.len() == 0 {
            return self.stop(turn, StopReason::Completed);
        }
        turn.calls = step.tool_calls;
        turn.at = 0;
        turn.results = Vec::new();
        turn.interactions = Vec::new();
        assert(turn.results.deep_view() =~= Seq::<PartModel>::empty());
        assert(turn.interactions.deep_view() =~= Seq::<(Seq<char>, Seq<char>, Seq<char>)>::empty());
        self.call(turn, published)
    }

    fn call(&mut self, turn: &mut Turn, published: &mut Vec<ItemKind>) -> (r: Action)
        requires
            old(turn).at <= old(turn).calls@.len(),
        ensures
            (machine_of(*final(self), *final(turn), *final(published)), r.deep_view()) == calling(
                machine_of(*old(self), *old(turn), *old(published)),
            ),
            turn_wf(final(turn).deep_view()),
            final(self).budget == old(self).budget,
            final(self).agent == old(self).agent,
    {
        let ghost whole = calling(machine_of(*self, *turn, *published));
        while turn.at < turn.calls.len()
            invariant
                turn.at <= turn.calls@.len(),
                self == old(self),
                calling(machine_of(*self, *turn, *published)) == whole,
                whole == calling(machine_of(*old(self), *old(turn), *old(published))),
            decreases turn.calls@.len() - turn.at,
        {
            if self.cancelled {
                return self.stop(turn, StopReason::Interrupted);
            }
            assert(turn.calls.deep_view()[turn.at as int] == turn.calls@[turn.at as int].deep_view());
            if self.agent.permits_tool(&turn.calls[turn.at].name) {
                turn.phase = Phase::Lookup;
                return Action::LookUp;
            }
            let mut text = "tool ".to_owned();
            text.push_str(&quoted(&turn.calls[turn.at].name));
            text.push_str(" is not available to the ");
            text.push_str(&self.agent.name);
            text.push_str(" agent");
            turn.answer(published, text, None, true);
        }
        self.end(turn, published)
    }

    fn end(&mut self, turn: &mut Turn, published: &mut Vec<ItemKind>) -> (r: Action)
        requires
            old(turn).at <= old(turn).calls@.len(),
        ensures
            (machine_of(*final(self), *final(turn), *final(published)), r.deep_view()) == ended(
                machine_of(*old(self), *old(turn), *old(published)),
            ),
            turn_wf(final(turn).deep_view()),
            final(self).budget == old(self).budget,
            final(self).agent == old(self).agent,
    {
        let results = turn.results.clone();
        assert(results.deep_view() =~= turn.results.deep_view());
        turn.append(Role::User, results);
        let slice = turn.interactions.as_slice();
        assert(slice.deep_view() =~= turn.interactions.deep_view());
        self.guard.record(slice);
        match self.guard.detect() {
            Some((signature, repeats)) => self.stop(
                turn,
                StopReason::LoopDetected { signature, repeats },
            ),
            None => self.start(turn, published),
        }
    }

    fn look(
        &mut self,
        turn: &mut Turn,
        published: &mut Vec<ItemKind>,
        permissions: Option<Vec<String>>,
    ) -> (r: Action)
        requires
            old(turn).at < old(turn).calls@.len(),
        ensures
            (machine_of(*final(self), *final(turn), *final(published)), r.deep_view()) == found(
                machine_of(*old(self), *old(turn), *old(published)),
                match permissions {
                    Some(permissions) => Some(permissions.deep_view()),
                    None => None,
                },
            ),
            turn_wf(final(turn).deep_view()),
            final(self).budget == old(self).budget,
            final(self).agent == old(self).agent,
    {
        match permissions {
            Some(permissions) => self.gate(turn, published, permissions, 0),
            None => {
                assert(turn.calls.deep_view()[turn.at as int]
                    == turn.calls@[turn.at as int].deep_view());
                let mut text = "no tool named ".to_owned();
                text.push_str(&quoted(&turn.calls[turn.at].name));
                turn.answer(published, text, None, true);
                self.call(turn, published)
            },
        }
    }

    fn gate(
        &mut self,
        turn: &mut Turn,
        published: &mut Vec<ItemKind>,
        permissions: Vec<String>,
        from: usize,
    ) -> (r: Action)
        requires
            old(turn).at < old(turn).calls@.len(),
            from <= permissions@.len(),
        ensures
            (machine_of(*final(self), *final(turn), *final(published)), r.deep_view()) == gated(
                machine_of(*old(self), *old(turn), *old(published)),
                permissions.deep_view(),
                from as int,
            ),
            turn_wf(final(turn).deep_view()),
            final(self).budget == old(self).budget,
            final(self).agent == old(self).agent,
    {
        let ghost all = permissions.deep_view();
        let ghost m = machine_of(*self, *turn, *published);
        let mut at: usize = from;
        while at < permissions.len()
            invariant
                from <= at <= permissions@.len(),
                all == permissions.deep_view(),
                self == old(self),
                *turn == *old(turn),
                *published == *old(published),
                turn.at < turn.calls@.len(),
                m == machine_of(*self, *turn, *published),
                gated(m, all, at as int) == gated(m, all, from as int),
            decreases permissions@.len() - at,
        {
            assert(all[at as int] == permissions@[at as int]@);
            match Resource::parse(&permissions[at]) {
                Err(_) => {},
                Ok(resource) => match self.policy.evaluate(&resource, self.mode).decision {
                    Decision::Allow => {},
                    Decision::Deny => {
                        return self.stop(turn, StopReason::Denied { resource: resource.to_string() });
                    },
                    Decision::Ask => {
                        let asked = resource.clone();
                        turn.phase = Phase::Asking { permissions, at, resource };
                        return Action::Ask(asked);
                    },
                },
            }
            at += 1;
        }
        turn.phase = Phase::Executing;
        Action::Execute
    }

    fn answer(&mut self, turn: &mut Turn, published: &mut Vec<ItemKind>, yes: bool) -> (r: Action)
        requires
            turn_wf(old(turn).deep_view()),
            old(turn).deep_view().phase is Asking,
        ensures
            (machine_of(*final(self), *final(turn), *final(published)), r.deep_view()) == answered(
                machine_of(*old(self), *old(turn), *old(published)),
                yes,
            ),
            turn_wf(final(turn).deep_view()),
            final(self).budget == old(self).budget,
            final(self).agent == old(self).agent,
    {
        let (permissions, at, resource): (Vec<String>, usize, Resource) = match &turn.phase {
            Phase::Asking { permissions, at, resource } => (
                copy_texts(permissions),
                *at,
                resource.clone(),
            ),
            _ => {
                return self.stop(turn, StopReason::Interrupted);
            },
        };
        if yes {
            let _ = self.policy.grant_for_session(&resource);
            let n: usize = permissions.len();
            assert(at < n);
            self.gate(turn, published, permissions, at + 1)
        } else {
            self.stop(turn, StopReason::Denied { resource: resource.to_string() })
        }
    }

    fn execute(
        &mut self,
        turn: &mut Turn,
        published: &mut Vec<ItemKind>,
        outcome: Result<ToolOutcome, ToolError>,
    ) -> (r: Action)
        requires
            old(turn).at < old(turn).calls@.len(),
        ensures
            (machine_of(*final(self), *final(turn), *final(published)), r.deep_view()) == executed(
                machine_of(*old(self), *old(turn), *old(published)),
                match outcome {
                    Ok(outcome) => Ok(outcome.deep_view()),
                    Err(error) => Err(error.deep_view()),
                },
            ),
            turn_wf(final(turn).deep_view()),
            final(self).budget == old(self).budget,
            final(self).agent == old(self).agent,
    {
        match outcome {
            Ok(outcome) => {
                turn.answer(published, outcome.output, outcome.metadata, false);
                self.call(turn, published)
            },
            Err(ToolError::Denied(resource)) => self.stop(turn, StopReason::Denied { resource }),
            Err(ToolError::Cancelled) => self.stop(turn, StopReason::Interrupted),
            Err(ToolError::Broken(message)) => self.stop(turn, StopReason::Failed { message }),
            Err(ToolError::Recoverable(message)) => {
                turn.answer(published, message, None, true);
                self.call(turn, published)
            },
        }
    }

    /// What to do after a step, by the rails alone.
    pub fn evaluate(&self, steps: u32, wants_tools: bool) -> (r: StepDecision)
        ensures
            match r {
                StepDecision::Continue => !self.cancelled && steps < self.step_limit && detected(
                    self.guard.deep_view(),
                ) is None && wants_tools,
                StepDecision::Stop(reason) => reason.deep_view() == (if self.cancelled {
                    StopModel::Interrupted
                } else if steps >= self.step_limit {
                    StopModel::StepLimit { limit: self.step_limit }
                } else {
                    match detected(self.guard.deep_view()) {
                        Some((signature, repeats)) => StopModel::LoopDetected {
                            signature,
                            repeats: repeats as usize,
                        },
                        None => StopModel::Completed,
                    }
                }) && (self.cancelled || steps >= self.step_limit || detected(
                    self.guard.deep_view(),
                ) is Some || !wants_tools),
            },
    {
        if self.cancelled {
            return StepDecision::Stop(StopReason::Interrupted);
        }
        if steps >= self.step_limit {
            return StepDecision::Stop(StopReason::StepLimit { limit: self.step_limit });
        }
        if let Some((signature, repeats)) = self.guard.detect() {
            return StepDecision::Stop(StopReason::LoopDetected { signature, repeats });
        }
        if !wants_tools {
            return StepDecision::Stop(StopReason::Completed);
        }
        StepDecision::Continue
    }
}

/// What the model said, as the parts of a message.
fn parts_of(step: &StepOutput) -> (r: Vec<Part>)
    ensures
        r.deep_view() == assistant_parts(step.deep_view()),
{
    let ghost model = step.deep_view();
    let mut parts: Vec<Part> = Vec::new();
    if !step.reasoning.as_str().is_empty() {
        parts.push(Part::Reasoning { text: step.reasoning.clone() });
    }
    if !step.text.as_str().is_empty() {
        parts.push(Part::Text { text: step.text.clone() });
    }
    let ghost front = parts.deep_view();
    let ghost calls = Seq::new(
        model.tool_calls.len(),
        |i: int| PartModel::ToolCall(model.tool_calls[i]),
    );
    let mut i: usize = 0;
    assert(front + calls.take(0) =~= front);
    while i < step.tool_calls.len()
        invariant
            i <= step.tool_calls@.len(),
            model == step.deep_view(),
            calls == Seq::new(
                model.tool_calls.len(),
                |i: int| PartModel::ToolCall(model.tool_calls[i]),
            ),
            parts.deep_view() == front + calls.take(i as int),
        decreases step.tool_calls@.len() - i,
    {
        let ghost before = parts.deep_view();
        let part = Part::ToolCall(step.tool_calls[i].clone());
        parts.push(part);
        assert(part.deep_view() == calls[i as int]);
        assert(parts.deep_view() =~= before.push(part.deep_view()));
        assert(parts.deep_view() =~= front + calls.take(i + 1));
        i += 1;
    }
    assert(calls.take(i as int) =~= calls);
    assert(parts.deep_view() =~= assistant_parts(model));
    parts
}

} // verus!
