//! What holds of every turn.

use vstd::prelude::*;

use crate::context::budget::{Budget, Pressure};
use crate::context::laws::law_pruning_is_idempotent;
use crate::context::PRUNE_PROTECT_TOKENS;
use crate::engine::agent::permits;
use crate::engine::step::StopModel;
use crate::engine::tool::ToolErrorModel;
use crate::engine::turn::{
    advanced, answered_call, assistant_parts, calling, ended, expected, gated, granted,
    pressure_on, recorded, settled, started, turn_wf, unavailable, with_message, ActionModel,
    InputModel, Machine, PhaseModel, RunnerModel, StepModel, TurnModel,
};
use crate::permission::laws::{law_a_grant_is_remembered, law_deny_wins};
use crate::permission::policy::{evaluated, with_implied, Decision};
use crate::permission::resource::{resource_read, ResourceModel};
use crate::protocol::message::{CallModel, MessageModel, PartModel, Role};
use crate::text::quoted_of;

verus! {

/// Once interrupted, a turn never calls the model again.
pub proof fn law_an_interrupt_is_heard(m: Machine, input: InputModel)
    requires
        m.runner.cancelled,
        turn_wf(m.turn),
        expected(m.turn.phase, input),
    ensures
        !(advanced(m, input).1 is CallModel),
        input is Begin ==> advanced(m, input).1 == ActionModel::Finish(StopModel::Interrupted),
{
    match input {
        InputModel::Stepped(Ok(step)) => {
            lemma_calling_unless_cancelled(stepped_calls(m, step));
        },
        InputModel::Found(None) => {
            lemma_calling_unless_cancelled(answered_call(m, no_tool(m), None, true));
        },
        InputModel::Found(Some(permissions)) => {
            lemma_gating(m, permissions, 0);
        },
        InputModel::Answered(true) => {
            lemma_gating(after_grant(m), asked_permissions(m), asked_at(m) + 1);
        },
        InputModel::Executed(Ok(outcome)) => {
            lemma_calling_unless_cancelled(
                answered_call(m, outcome.output, outcome.metadata, false),
            );
        },
        InputModel::Executed(
            Err(ToolErrorModel::Recoverable(message)),
        ) => {
            lemma_calling_unless_cancelled(answered_call(m, message, None, true));
        },
        _ => {},
    }
}

/// The machine with which the calls of a step begin.
spec fn stepped_calls(m: Machine, step: StepModel) -> Machine {
    let said = with_message(
        TurnModel { steps: (m.turn.steps + 1) as u32, ..m.turn },
        Role::Assistant,
        assistant_parts(step),
    );
    Machine {
        turn: TurnModel {
            calls: step.tool_calls,
            at: 0,
            results: Seq::empty(),
            interactions: Seq::empty(),
            ..said
        },
        ..m
    }
}

spec fn no_tool(m: Machine) -> Seq<char> {
    "no tool named "@ + quoted_of(m.turn.calls[m.turn.at].name)
}

spec fn after_grant(m: Machine) -> Machine {
    match m.turn.phase {
        PhaseModel::Asking { resource, .. } => Machine {
            runner: RunnerModel {
                policy: granted(m.runner.policy, resource),
                ..m.runner
            },
            ..m
        },
        _ => m,
    }
}

spec fn asked_permissions(m: Machine) -> Seq<Seq<char>> {
    match m.turn.phase {
        PhaseModel::Asking { permissions, .. } => permissions,
        _ => Seq::empty(),
    }
}

spec fn asked_at(m: Machine) -> int {
    match m.turn.phase {
        PhaseModel::Asking { at, .. } => at,
        _ => 0,
    }
}

proof fn lemma_calling_unless_cancelled(m: Machine)
    requires
        m.runner.cancelled,
    ensures
        !(calling(m).1 is CallModel),
        !(calling(m).1 is Execute),
    decreases m.turn.calls.len() - m.turn.at,
{
    if m.turn.at < m.turn.calls.len() {
    } else {
        assert(!(ended(m).1 is CallModel));
    }
}

/// What deciding permissions can come to: the calls and what was said stay as they
/// are; asking is for what a rule leaves open, refusing for what one denies, and a
/// tool runs only where nothing it needs is left open or denied.
proof fn lemma_gating(m: Machine, permissions: Seq<Seq<char>>, at: int)
    requires
        0 <= at,
    ensures
        ({
            let (after, action) = gated(m, permissions, at);
            &&& after.runner == m.runner
            &&& after.published == m.published
            &&& after.turn == (TurnModel { phase: after.turn.phase, ..m.turn })
            &&& match action {
                ActionModel::Execute => {
                    &&& after.turn.phase is Executing
                    &&& forall|k: int|
                        at <= k < permissions.len() ==> match resource_read(
                            #[trigger] permissions[k],
                        ) {
                            Ok(resource) => evaluated(
                                m.runner.policy,
                                resource,
                                m.runner.mode,
                            ).decision == Decision::Allow,
                            Err(_) => true,
                        }
                },
                ActionModel::Ask(resource) => {
                    &&& after.turn.phase is Asking
                    &&& evaluated(m.runner.policy, resource, m.runner.mode).decision
                        == Decision::Ask
                },
                ActionModel::Finish(reason) => {
                    &&& after.turn.phase is Over
                    &&& reason is Denied
                },
                _ => false,
            }
        }),
    decreases permissions.len() - at,
{
    if at < permissions.len() {
        match resource_read(permissions[at]) {
            Err(_) => {
                lemma_gating(m, permissions, at + 1);
            },
            Ok(resource) => {
                if evaluated(m.runner.policy, resource, m.runner.mode).decision
                    == Decision::Allow {
                    lemma_gating(m, permissions, at + 1);
                }
            },
        }
    }
}

/// No tool runs unauthorized. A tool is run only when it was just looked up or the
/// user just said yes, and then every permission it needs that was not asked about
/// before is allowed by the policy as it stands.
pub proof fn law_nothing_runs_unauthorized(m: Machine, input: InputModel)
    requires
        turn_wf(m.turn),
        expected(m.turn.phase, input),
        advanced(m, input).1 is Execute,
    ensures
        ({
            let after = advanced(m, input).0;
            let (permissions, from) = match (input, m.turn.phase) {
                (InputModel::Found(Some(permissions)), _) => (permissions, 0),
                (_, PhaseModel::Asking { permissions, at, .. }) => (permissions, at + 1),
                _ => (Seq::empty(), 0),
            };
            &&& (input is Found && input->Found_0 is Some) || input == InputModel::Answered(true)
            &&& forall|k: int|
                from <= k < permissions.len() ==> match resource_read(#[trigger] permissions[k]) {
                    Ok(resource) => evaluated(
                        after.runner.policy,
                        resource,
                        after.runner.mode,
                    ).decision == Decision::Allow,
                    Err(_) => true,
                }
        }),
{
    match input {
        InputModel::Stepped(Ok(step)) => {
            lemma_calling_runs_nothing(stepped_calls(m, step));
        },
        InputModel::Found(None) => {
            lemma_calling_runs_nothing(answered_call(m, no_tool(m), None, true));
        },
        InputModel::Found(Some(permissions)) => {
            lemma_gating(m, permissions, 0);
        },
        InputModel::Answered(true) => {
            lemma_gating(after_grant(m), asked_permissions(m), asked_at(m) + 1);
        },
        InputModel::Executed(Ok(outcome)) => {
            lemma_calling_runs_nothing(answered_call(m, outcome.output, outcome.metadata, false));
        },
        InputModel::Executed(
            Err(ToolErrorModel::Recoverable(message)),
        ) => {
            lemma_calling_runs_nothing(answered_call(m, message, None, true));
        },
        _ => {},
    }
}

proof fn lemma_calling_runs_nothing(m: Machine)
    ensures
        !(calling(m).1 is Execute),
        !(calling(m).1 is Ask),
    decreases m.turn.calls.len() - m.turn.at,
{
    if m.turn.at < m.turn.calls.len() && !m.runner.cancelled && !permits(
        m.runner.allowed_tools,
        m.turn.calls[m.turn.at].name,
    ) {
        let text = unavailable(m.turn.calls[m.turn.at].name, m.runner.agent_name);
        lemma_calling_runs_nothing(answered_call(m, text, None, true));
    }
}

/// Whether an action ends the turn because something was refused.
pub open spec fn is_refusal(action: ActionModel) -> bool {
    match action {
        ActionModel::Finish(reason) => reason is Denied,
        _ => false,
    }
}

/// A refusal ends the turn: no further call of the model follows it. And what a
/// rule denies is never put to the user.
pub proof fn law_a_refusal_ends_the_turn(m: Machine, input: InputModel)
    requires
        turn_wf(m.turn),
        expected(m.turn.phase, input),
    ensures
        input == InputModel::Answered(false) ==> is_refusal(advanced(m, input).1),
        match advanced(m, input).1 {
            ActionModel::Ask(resource) => evaluated(
                advanced(m, input).0.runner.policy,
                resource,
                m.runner.mode,
            ).decision == Decision::Ask,
            _ => true,
        },
{
    match input {
        InputModel::Stepped(Ok(step)) => {
            lemma_calling_runs_nothing(stepped_calls(m, step));
        },
        InputModel::Found(None) => {
            lemma_calling_runs_nothing(answered_call(m, no_tool(m), None, true));
        },
        InputModel::Found(Some(permissions)) => {
            lemma_gating(m, permissions, 0);
        },
        InputModel::Answered(true) => {
            lemma_gating(after_grant(m), asked_permissions(m), asked_at(m) + 1);
        },
        InputModel::Executed(Ok(outcome)) => {
            lemma_calling_runs_nothing(answered_call(m, outcome.output, outcome.metadata, false));
        },
        InputModel::Executed(
            Err(ToolErrorModel::Recoverable(message)),
        ) => {
            lemma_calling_runs_nothing(answered_call(m, message, None, true));
        },
        _ => {},
    }
}

/// Whether the calls before the current one have their results, in order.
pub open spec fn answers_in_order(turn: TurnModel) -> bool {
    &&& turn.results.len() == turn.at
    &&& turn.interactions.len() == turn.at
    &&& forall|i: int|
        0 <= i < turn.at ==> match #[trigger] turn.results[i] {
            PartModel::ToolResult(result) => result.call_id == turn.calls[i].id,
            _ => false,
        }
}

/// Whether a turn is between the calls of a step.
pub open spec fn amid_calls(turn: TurnModel) -> bool {
    turn.phase is Lookup || turn.phase is Asking || turn.phase is Executing
}

/// Whether a message answers calls: one result for each, in order.
pub open spec fn answers_all(
    message: MessageModel,
    calls: Seq<CallModel>,
) -> bool {
    &&& message.role == Role::User
    &&& message.parts.len() == calls.len()
    &&& forall|i: int|
        0 <= i < calls.len() ==> match #[trigger] message.parts[i] {
            PartModel::ToolResult(result) => result.call_id == calls[i].id,
            _ => false,
        }
}

proof fn lemma_calling_answers(m: Machine)
    requires
        0 <= m.turn.at <= m.turn.calls.len(),
        m.turn.calls.len() > 0,
        answers_in_order(m.turn),
    ensures
        ({
            let (after, action) = calling(m);
            &&& after.turn.calls == m.turn.calls
            &&& amid_calls(after.turn) ==> answers_in_order(after.turn)
            &&& action is CallModel ==> after.turn.appended.len() > 0 && answers_all(
                after.turn.appended.last(),
                after.turn.calls,
            )
        }),
    decreases m.turn.calls.len() - m.turn.at,
{
    if m.turn.at < m.turn.calls.len() {
        if !m.runner.cancelled && !permits(
            m.runner.allowed_tools,
            m.turn.calls[m.turn.at].name,
        ) {
            let text = unavailable(m.turn.calls[m.turn.at].name, m.runner.agent_name);
            let next = answered_call(m, text, None, true);
            lemma_answered(m, text, None, true);
            lemma_calling_answers(next);
        }
    } else {
        let parts = m.turn.results;
        assert(parts.len() == m.turn.calls.len());
        let message = MessageModel { role: Role::User, parts };
        assert(with_message(m.turn, Role::User, parts).appended.last() == message);
        assert(answers_all(message, m.turn.calls));
    }
}

proof fn lemma_answered(m: Machine, output: Seq<char>, metadata: Option<Seq<char>>, is_error: bool)
    requires
        0 <= m.turn.at < m.turn.calls.len(),
        answers_in_order(m.turn),
    ensures
        answers_in_order(answered_call(m, output, metadata, is_error).turn),
{
    let after = answered_call(m, output, metadata, is_error).turn;
    assert forall|i: int| 0 <= i < after.at implies match #[trigger] after.results[i] {
        PartModel::ToolResult(result) => result.call_id == after.calls[i].id,
        _ => false,
    } by {
        if i < m.turn.at {
            assert(after.results[i] == m.turn.results[i]);
        }
    }
}

/// Every call is answered: while the calls of a step are run, those that were run
/// have their results, in order; and when the model is called again, the last
/// message answers every call of the step, one result each.
pub proof fn law_every_call_is_answered(m: Machine, input: InputModel)
    requires
        turn_wf(m.turn),
        expected(m.turn.phase, input),
        amid_calls(m.turn) ==> answers_in_order(m.turn),
    ensures
        ({
            let (after, action) = advanced(m, input);
            &&& amid_calls(after.turn) ==> answers_in_order(after.turn)
            &&& action is CallModel && !(input is Begin) ==> after.turn.appended.len() > 0
                && answers_all(after.turn.appended.last(), after.turn.calls)
        }),
{
    match input {
        InputModel::Stepped(Ok(step)) => {
            let next = stepped_calls(m, step);
            assert(answers_in_order(next.turn));
            if step.tool_calls.len() > 0 {
                lemma_calling_answers(next);
            }
        },
        InputModel::Found(None) => {
            lemma_answered(m, no_tool(m), None, true);
            lemma_calling_answers(answered_call(m, no_tool(m), None, true));
        },
        InputModel::Found(Some(permissions)) => {
            lemma_gating(m, permissions, 0);
            lemma_same_answers(m.turn, gated(m, permissions, 0).0.turn);
        },
        InputModel::Answered(true) => {
            lemma_gating(after_grant(m), asked_permissions(m), asked_at(m) + 1);
            lemma_same_answers(
                m.turn,
                gated(after_grant(m), asked_permissions(m), asked_at(m) + 1).0.turn,
            );
        },
        InputModel::Executed(Ok(outcome)) => {
            lemma_answered(m, outcome.output, outcome.metadata, false);
            lemma_calling_answers(answered_call(m, outcome.output, outcome.metadata, false));
        },
        InputModel::Executed(
            Err(ToolErrorModel::Recoverable(message)),
        ) => {
            lemma_answered(m, message, None, true);
            lemma_calling_answers(answered_call(m, message, None, true));
        },
        _ => {},
    }
}

proof fn lemma_same_answers(before: TurnModel, after: TurnModel)
    requires
        answers_in_order(before),
        after == (TurnModel { phase: after.phase, ..before }),
    ensures
        answers_in_order(after),
{
}

/// The number of steps is bounded: the model is called only while fewer steps were
/// taken than the limit allows, and only with a history that leaves room.
pub proof fn law_the_limits_hold(m: Machine, input: InputModel)
    requires
        turn_wf(m.turn),
        expected(m.turn.phase, input),
        advanced(m, input).1 is CallModel,
    ensures
        ({
            let after = advanced(m, input).0;
            &&& after.turn.steps < after.runner.step_limit
            &&& after.runner.step_limit == m.runner.step_limit
            &&& pressure_on(after.runner.budget, after.turn.history) is Comfortable || pressure_on(
                after.runner.budget,
                after.turn.history,
            ) is Warning
        }),
{
    match input {
        InputModel::Begin => {
            lemma_started_leaves_room(m);
        },
        InputModel::Stepped(Ok(step)) => {
            lemma_calling_leaves_room(stepped_calls(m, step));
        },
        InputModel::Found(None) => {
            lemma_calling_leaves_room(answered_call(m, no_tool(m), None, true));
        },
        InputModel::Found(Some(permissions)) => {
            lemma_gating(m, permissions, 0);
        },
        InputModel::Answered(true) => {
            lemma_gating(after_grant(m), asked_permissions(m), asked_at(m) + 1);
        },
        InputModel::Executed(Ok(outcome)) => {
            lemma_calling_leaves_room(answered_call(m, outcome.output, outcome.metadata, false));
        },
        InputModel::Executed(
            Err(ToolErrorModel::Recoverable(message)),
        ) => {
            lemma_calling_leaves_room(answered_call(m, message, None, true));
        },
        _ => {},
    }
}

proof fn lemma_started_leaves_room(m: Machine)
    ensures
        started(m).1 is CallModel ==> ({
            let after = started(m).0;
            &&& after.turn.steps < after.runner.step_limit
            &&& after.runner == m.runner
            &&& pressure_on(after.runner.budget, after.turn.history) is Comfortable || pressure_on(
                after.runner.budget,
                after.turn.history,
            ) is Warning
        }),
{
    law_settled(m.runner.budget, m.turn.history);
}

proof fn lemma_calling_leaves_room(m: Machine)
    ensures
        calling(m).1 is CallModel ==> ({
            let after = calling(m).0;
            &&& after.turn.steps < after.runner.step_limit
            &&& after.runner.step_limit == m.runner.step_limit
            &&& pressure_on(after.runner.budget, after.turn.history) is Comfortable || pressure_on(
                after.runner.budget,
                after.turn.history,
            ) is Warning
        }),
    decreases m.turn.calls.len() - m.turn.at,
{
    if m.turn.at >= m.turn.calls.len() {
        let guard = recorded(m.runner.guard, m.turn.interactions);
        lemma_started_leaves_room(
            Machine {
                runner: RunnerModel { guard, ..m.runner },
                turn: with_message(m.turn, Role::User, m.turn.results),
                ..m
            },
        );
    } else if !m.runner.cancelled && !permits(
        m.runner.allowed_tools,
        m.turn.calls[m.turn.at].name,
    ) {
        let text = unavailable(m.turn.calls[m.turn.at].name, m.runner.agent_name);
        lemma_calling_leaves_room(answered_call(m, text, None, true));
    }
}

/// A history is pruned at most once: afterwards pruning is not called for.
pub proof fn law_settled(
    budget: Budget,
    history: Seq<MessageModel>,
)
    ensures
        pressure_on(budget, settled(budget, history)) != Pressure::ShouldPrune,
{
    law_pruning_is_idempotent(history, PRUNE_PROTECT_TOKENS as int);
}

/// Whether one sequence of messages goes on from another.
pub open spec fn extends(after: Seq<MessageModel>, before: Seq<MessageModel>) -> bool {
    before.len() <= after.len() && after.take(before.len() as int) == before
}

proof fn lemma_extends(a: Seq<MessageModel>, b: Seq<MessageModel>, c: Seq<MessageModel>)
    requires
        extends(b, a),
        extends(c, b),
    ensures
        extends(c, a),
{
    assert(c.take(a.len() as int) =~= a) by {
        assert forall|i: int| 0 <= i < a.len() implies c[i] == a[i] by {
            assert(c.take(b.len() as int)[i] == c[i]);
            assert(b.take(a.len() as int)[i] == b[i]);
        }
    }
}

proof fn lemma_with_message(turn: TurnModel, role: Role, parts: Seq<PartModel>)
    ensures
        extends(with_message(turn, role, parts).appended, turn.appended),
{
    let after = with_message(turn, role, parts).appended;
    assert(after.take(turn.appended.len() as int) =~= turn.appended);
}

proof fn lemma_calling_keeps(m: Machine)
    ensures
        extends(calling(m).0.turn.appended, m.turn.appended),
    decreases m.turn.calls.len() - m.turn.at,
{
    assert(m.turn.appended.take(m.turn.appended.len() as int) =~= m.turn.appended);
    if m.turn.at >= m.turn.calls.len() {
        lemma_with_message(m.turn, Role::User, m.turn.results);
    } else if !m.runner.cancelled && !permits(
        m.runner.allowed_tools,
        m.turn.calls[m.turn.at].name,
    ) {
        let text = unavailable(m.turn.calls[m.turn.at].name, m.runner.agent_name);
        lemma_calling_keeps(answered_call(m, text, None, true));
    }
}

/// Nothing that was said is lost: whatever happens, what a turn has added stays, and
/// a step's message is kept before any of its tools is run.
pub proof fn law_what_was_said_is_kept(m: Machine, input: InputModel)
    requires
        turn_wf(m.turn),
        expected(m.turn.phase, input),
    ensures
        extends(advanced(m, input).0.turn.appended, m.turn.appended),
        match input {
            InputModel::Stepped(Ok(step)) => assistant_parts(step).len() > 0
                ==> extends(
                advanced(m, input).0.turn.appended,
                m.turn.appended.push(
                    MessageModel {
                        role: Role::Assistant,
                        parts: assistant_parts(step),
                    },
                ),
            ),
            _ => true,
        },
{
    assert(m.turn.appended.take(m.turn.appended.len() as int) =~= m.turn.appended);
    match input {
        InputModel::Stepped(Ok(step)) => {
            let next = stepped_calls(m, step);
            lemma_with_message(
                TurnModel { steps: (m.turn.steps + 1) as u32, ..m.turn },
                Role::Assistant,
                assistant_parts(step),
            );
            lemma_calling_keeps(next);
            lemma_extends(m.turn.appended, next.turn.appended, calling(next).0.turn.appended);
            assert(next.turn.appended.take(next.turn.appended.len() as int)
                =~= next.turn.appended);
        },
        InputModel::Found(None) => {
            lemma_calling_keeps(answered_call(m, no_tool(m), None, true));
        },
        InputModel::Found(Some(permissions)) => {
            lemma_gating(m, permissions, 0);
        },
        InputModel::Answered(true) => {
            lemma_gating(after_grant(m), asked_permissions(m), asked_at(m) + 1);
        },
        InputModel::Executed(Ok(outcome)) => {
            lemma_calling_keeps(answered_call(m, outcome.output, outcome.metadata, false));
        },
        InputModel::Executed(
            Err(ToolErrorModel::Recoverable(message)),
        ) => {
            lemma_calling_keeps(answered_call(m, message, None, true));
        },
        _ => {},
    }
}

/// A turn that has ended waits for nothing.
pub proof fn law_an_ended_turn_is_over(m: Machine, input: InputModel, more: InputModel)
    requires
        turn_wf(m.turn),
        expected(m.turn.phase, input),
        advanced(m, input).1 is Finish,
    ensures
        !expected(advanced(m, input).0.turn.phase, more),
{
    match input {
        InputModel::Stepped(Ok(step)) => {
            lemma_calling_ends(stepped_calls(m, step));
        },
        InputModel::Found(None) => {
            lemma_calling_ends(answered_call(m, no_tool(m), None, true));
        },
        InputModel::Found(Some(permissions)) => {
            lemma_gating(m, permissions, 0);
        },
        InputModel::Answered(true) => {
            lemma_gating(after_grant(m), asked_permissions(m), asked_at(m) + 1);
        },
        InputModel::Executed(Ok(outcome)) => {
            lemma_calling_ends(answered_call(m, outcome.output, outcome.metadata, false));
        },
        InputModel::Executed(
            Err(ToolErrorModel::Recoverable(message)),
        ) => {
            lemma_calling_ends(answered_call(m, message, None, true));
        },
        _ => {},
    }
}

proof fn lemma_calling_ends(m: Machine)
    ensures
        calling(m).1 is Finish ==> calling(m).0.turn.phase is Over,
    decreases m.turn.calls.len() - m.turn.at,
{
    if m.turn.at < m.turn.calls.len() && !m.runner.cancelled && !permits(
        m.runner.allowed_tools,
        m.turn.calls[m.turn.at].name,
    ) {
        let text = unavailable(m.turn.calls[m.turn.at].name, m.runner.agent_name);
        lemma_calling_ends(answered_call(m, text, None, true));
    }
}

/// Only what the model can correct is told to it: a refusal, an interrupt and a broken
/// harness each end the turn, and nothing of them is added to the conversation.
pub proof fn law_only_the_correctable_is_told(m: Machine, error: ToolErrorModel)
    requires
        turn_wf(m.turn),
        m.turn.phase is Executing,
        !(error is Recoverable),
    ensures
        ({
            let (after, action) = advanced(m, InputModel::Executed(Err(error)));
            &&& action is Finish
            &&& action->Finish_0 == (match error {
                ToolErrorModel::Denied(resource) => StopModel::Denied { resource },
                ToolErrorModel::Cancelled => StopModel::Interrupted,
                ToolErrorModel::Broken(message) => StopModel::Failed { message },
                ToolErrorModel::Recoverable(message) => StopModel::Failed { message },
            })
            &&& after.turn.phase is Over
            &&& after.turn.history == m.turn.history
            &&& after.turn.appended == m.turn.appended
            &&& after.published == m.published
        }),
{
}

/// An approval is remembered: what the user said yes to is allowed from then on, and
/// not asked about again, unless the mode changes.
pub proof fn law_an_approval_is_remembered(m: Machine, resource: ResourceModel)
    requires
        turn_wf(m.turn),
        m.turn.phase is Asking,
        m.turn.phase->resource == resource,
        resource.target.len() > 0,
        evaluated(m.runner.policy, resource, m.runner.mode).decision == Decision::Ask,
    ensures
        evaluated(
            advanced(m, InputModel::Answered(true)).0.runner.policy,
            resource,
            m.runner.mode,
        ).decision == Decision::Allow,
{
    lemma_gating(after_grant(m), asked_permissions(m), asked_at(m) + 1);
    let policy = m.runner.policy;
    law_deny_wins(policy, resource, m.runner.mode);
    assert(with_implied(resource)[0] == resource);
    law_a_grant_is_remembered(policy, resource, resource, m.runner.mode);
}

/// What a turn hears over time: whether it has been interrupted by then, and what
/// happened.
pub type Heard = (bool, InputModel);

/// Where a turn stands after what it heard, and what it asked for last.
pub open spec fn ran(start: Machine, heard: Seq<Heard>) -> (Machine, Option<ActionModel>)
    decreases heard.len(),
{
    if heard.len() == 0 {
        (start, None)
    } else {
        let m = ran(start, heard.drop_last()).0;
        let now = Machine {
            runner: RunnerModel { cancelled: heard.last().0, ..m.runner },
            ..m
        };
        let (after, action) = advanced(now, heard.last().1);
        (after, Some(action))
    }
}

/// Whether each input came when the turn was waiting for it.
pub open spec fn in_turn(start: Machine, heard: Seq<Heard>) -> bool
    decreases heard.len(),
{
    heard.len() == 0 || {
        &&& in_turn(start, heard.drop_last())
        &&& expected(ran(start, heard.drop_last()).0.turn.phase, heard.last().1)
    }
}

/// Whether the model answered.
pub open spec fn is_answer(input: InputModel) -> bool {
    input matches InputModel::Stepped(Ok(_))
}

/// Whether the model answered and was cut off.
pub open spec fn cut_off(input: InputModel) -> bool {
    input matches InputModel::Stepped(Ok(step)) && step.truncated
}

/// How often the model answered.
pub open spec fn steps_in(heard: Seq<Heard>) -> nat
    decreases heard.len(),
{
    if heard.len() == 0 {
        0
    } else {
        steps_in(heard.drop_last()) + if is_answer(heard.last().1) {
            1nat
        } else {
            0nat
        }
    }
}

/// Whether a turn is within its limit, and calls the model only below it.
spec fn limited(m: Machine) -> bool {
    &&& m.turn.steps <= m.runner.step_limit
    &&& m.turn.phase is Model ==> m.turn.steps < m.runner.step_limit
}

/// Whether one decision kept a turn within its limit: the steps are those given, and
/// the limit is named as the reason only where it was reached.
spec fn decided(before: Machine, steps: int, after: Machine, action: ActionModel) -> bool {
    &&& turn_wf(after.turn)
    &&& after.runner.step_limit == before.runner.step_limit
    &&& after.turn.steps == steps
    &&& limited(after)
    &&& action matches ActionModel::Finish(StopModel::StepLimit { limit }) ==> limit
        == before.runner.step_limit && limit == steps
}

/// Whether a decision neither calls a turn complete nor cut off.
spec fn no_last_word(action: ActionModel) -> bool {
    &&& action != ActionModel::Finish(StopModel::Completed)
    &&& action != ActionModel::Finish(StopModel::OutputTruncated)
}

proof fn lemma_started_decides(m: Machine)
    requires
        0 <= m.turn.at <= m.turn.calls.len(),
        m.turn.steps <= m.runner.step_limit,
    ensures
        decided(m, m.turn.steps as int, started(m).0, started(m).1),
        no_last_word(started(m).1),
{
}

proof fn lemma_calling_decides(m: Machine)
    requires
        0 <= m.turn.at <= m.turn.calls.len(),
        m.turn.steps <= m.runner.step_limit,
    ensures
        decided(m, m.turn.steps as int, calling(m).0, calling(m).1),
        no_last_word(calling(m).1),
    decreases m.turn.calls.len() - m.turn.at,
{
    if m.turn.at >= m.turn.calls.len() {
        let guard = recorded(m.runner.guard, m.turn.interactions);
        lemma_started_decides(
            Machine {
                runner: RunnerModel { guard, ..m.runner },
                turn: with_message(m.turn, Role::User, m.turn.results),
                ..m
            },
        );
    } else if !m.runner.cancelled && !permits(
        m.runner.allowed_tools,
        m.turn.calls[m.turn.at].name,
    ) {
        let text = unavailable(m.turn.calls[m.turn.at].name, m.runner.agent_name);
        lemma_calling_decides(answered_call(m, text, None, true));
    }
}

proof fn lemma_gated_decides(m: Machine, permissions: Seq<Seq<char>>, at: int)
    requires
        0 <= at,
        0 <= m.turn.at < m.turn.calls.len(),
        m.turn.steps <= m.runner.step_limit,
    ensures
        decided(m, m.turn.steps as int, gated(m, permissions, at).0, gated(m, permissions, at).1),
        no_last_word(gated(m, permissions, at).1),
    decreases permissions.len() - at,
{
    if at < permissions.len() {
        lemma_gated_decides(m, permissions, at + 1);
    }
}

proof fn lemma_one_decision(m: Machine, input: InputModel)
    requires
        turn_wf(m.turn),
        expected(m.turn.phase, input),
        limited(m),
    ensures
        ({
            let (after, action) = advanced(m, input);
            &&& decided(m, m.turn.steps + if is_answer(input) { 1int } else { 0int }, after, action)
            &&& !is_answer(input) ==> no_last_word(action)
        }),
{
    match input {
        InputModel::Begin => {
            lemma_started_decides(m);
        },
        InputModel::Stepped(Ok(step)) => {
            lemma_calling_decides(stepped_calls(m, step));
        },
        InputModel::Found(None) => {
            lemma_calling_decides(answered_call(m, no_tool(m), None, true));
        },
        InputModel::Found(Some(permissions)) => {
            lemma_gated_decides(m, permissions, 0);
        },
        InputModel::Answered(true) => {
            lemma_gated_decides(after_grant(m), asked_permissions(m), asked_at(m) + 1);
        },
        InputModel::Executed(Ok(outcome)) => {
            lemma_calling_decides(answered_call(m, outcome.output, outcome.metadata, false));
        },
        InputModel::Executed(
            Err(ToolErrorModel::Recoverable(message)),
        ) => {
            lemma_calling_decides(answered_call(m, message, None, true));
        },
        _ => {},
    }
}

/// A whole turn, whatever happens in it and whenever it is interrupted: the steps
/// counted are the answers of the model, there are never more of them than the limit,
/// and the limit is the reason for ending only where it was reached. An answer that
/// was cut off ends the turn as such, and only an answer that was not cut off
/// completes it.
pub proof fn law_a_turn_stays_within_its_limit(start: Machine, heard: Seq<Heard>)
    requires
        start.turn.phase is Start,
        start.turn.steps == 0,
        turn_wf(start.turn),
        in_turn(start, heard),
    ensures
        ({
            let (m, action) = ran(start, heard);
            &&& turn_wf(m.turn)
            &&& m.runner.step_limit == start.runner.step_limit
            &&& m.turn.steps == steps_in(heard)
            &&& m.turn.steps <= start.runner.step_limit
            &&& m.turn.phase is Model ==> m.turn.steps < start.runner.step_limit
            &&& action matches Some(ActionModel::Finish(StopModel::StepLimit { limit }))
                ==> limit == start.runner.step_limit && m.turn.steps == limit
            &&& heard.len() > 0 && cut_off(heard.last().1) ==> action == Some(
                ActionModel::Finish(StopModel::OutputTruncated),
            )
            &&& action == Some(ActionModel::Finish(StopModel::Completed)) ==> {
                &&& is_answer(heard.last().1)
                &&& !cut_off(heard.last().1)
            }
        }),
    decreases heard.len(),
{
    if heard.len() > 0 {
        let earlier = heard.drop_last();
        law_a_turn_stays_within_its_limit(start, earlier);
        let m = ran(start, earlier).0;
        let now = Machine {
            runner: RunnerModel { cancelled: heard.last().0, ..m.runner },
            ..m
        };
        lemma_one_decision(now, heard.last().1);
    }
}

/// A turn that is interrupted before it begins ends at once: the model is not
/// called, no step is taken and nothing is said.
pub proof fn law_an_interrupted_turn_does_nothing(m: Machine)
    requires
        m.runner.cancelled,
    ensures
        advanced(m, InputModel::Begin).1 == ActionModel::Finish(StopModel::Interrupted),
        advanced(m, InputModel::Begin).0.turn.steps == m.turn.steps,
        advanced(m, InputModel::Begin).0.turn.appended == m.turn.appended,
        advanced(m, InputModel::Begin).0.published == m.published,
{
}

} // verus!
