//! What holds of the conversation that a turn carries on: what the model said stands in
//! it, and so does what came of every call.

use vstd::prelude::*;

use crate::context::budget::{pressure_of, Budget, Pressure};
use crate::context::prune::{cutoff_of, pruned, reclaimable, tokens_of, weight};
use crate::context::PRUNE_PROTECT_TOKENS;
use crate::engine::agent::permits;
use crate::engine::laws::{amid_calls, ran, in_turn, Heard};
use crate::engine::loop_guard::{detected, signature_text};
use crate::engine::step::StopModel;
use crate::engine::tool::ToolErrorModel;
use crate::engine::turn::{
    advanced, answered_call, assistant_parts, calling, expected, gated, granted, pressure_on,
    recorded, started, turn_wf, unavailable, with_message, ActionModel, InputModel, Machine,
    PhaseModel, RunnerModel, StepModel, TurnModel,
};
use crate::permission::policy::{evaluated, Decision};
use crate::permission::resource::{resource_read, resource_text};
use crate::protocol::item::KindModel;
use crate::protocol::message::{CallModel, MessageModel, PartModel, ResultModel, Role};
use crate::text::quoted_of;

verus! {

/// What came of a call: what the model is told, what a client may want to know beside
/// it, and whether it is an error.
pub struct Answer {
    pub output: Seq<char>,
    pub metadata: Option<Seq<char>>,
    pub is_error: bool,
}

/// What an input says came of the current call, if it says that anything did.
pub open spec fn answer_in(input: InputModel, call: CallModel) -> Option<Answer> {
    match input {
        InputModel::Executed(Ok(outcome)) => Some(
            Answer { output: outcome.output, metadata: outcome.metadata, is_error: false },
        ),
        InputModel::Executed(Err(ToolErrorModel::Recoverable(message))) => Some(
            Answer { output: message, metadata: None, is_error: true },
        ),
        InputModel::Found(None) => Some(
            Answer {
                output: "no tool named "@ + quoted_of(call.name),
                metadata: None,
                is_error: true,
            },
        ),
        _ => None,
    }
}

/// What comes of a call whose tool the agent may not use.
pub open spec fn barred(call: CallModel, agent: Seq<char>) -> Answer {
    Answer {
        output: "tool "@ + quoted_of(call.name) + " is not available to the "@ + agent + " agent"@,
        metadata: None,
        is_error: true,
    }
}

/// The result of a call, as the model is told it.
pub open spec fn result_of(call: CallModel, answer: Answer) -> PartModel {
    PartModel::ToolResult(
        ResultModel {
            call_id: call.id,
            output: answer.output,
            metadata: answer.metadata,
            is_error: answer.is_error,
        },
    )
}

/// The result of a call, as it is shown.
pub open spec fn shown(answer: Answer) -> KindModel {
    if answer.is_error {
        KindModel::Error { message: answer.output }
    } else {
        KindModel::AgentMessage { text: answer.output }
    }
}

/// The results of a step's calls as far as there are any: gathered while the calls are
/// run, and the message at `place` once they are done.
pub open spec fn results_at(turn: TurnModel, place: int) -> Seq<PartModel> {
    if turn.appended.len() > place {
        turn.appended[place].parts
    } else {
        turn.results
    }
}

/// Whether a turn has a result, and what was called and said, for every call before the
/// current one.
pub open spec fn gathered(turn: TurnModel) -> bool {
    &&& 0 <= turn.at <= turn.calls.len()
    &&& turn.results.len() == turn.at
    &&& turn.interactions.len() == turn.at
}

/// Whether a turn went on from `given`, in which the calls before the current one are
/// answered: those answers stand, and every call behind them up to the next that can be
/// run was answered as one whose tool the agent may not use.
pub open spec fn went_on(given: Machine, after: Machine, action: ActionModel) -> bool {
    let calls = given.turn.calls;
    let at = given.turn.at;
    let place = given.turn.appended.len() as int;
    let results = results_at(after.turn, place);
    let n = results.len() as int;
    &&& after.turn.calls == calls
    &&& after.turn.steps == given.turn.steps
    &&& at <= n <= calls.len()
    &&& results.take(at) == given.turn.results
    &&& after.turn.interactions.len() == n
    &&& after.turn.interactions.take(at) == given.turn.interactions
    &&& after.published.len() == given.published.len() + (n - at)
    &&& after.published.take(given.published.len() as int) == given.published
    &&& forall|i: int|
        at <= i < n ==> {
            &&& !permits(given.runner.allowed_tools, (#[trigger] calls[i]).name)
            &&& results[i] == result_of(calls[i], barred(calls[i], given.runner.agent_name))
            &&& after.turn.interactions[i] == (
                calls[i].name,
                calls[i].input,
                barred(calls[i], given.runner.agent_name).output,
            )
            &&& after.published[given.published.len() + (i - at)] == shown(
                barred(calls[i], given.runner.agent_name),
            )
        }
    &&& n < calls.len() ==> {
        &&& after.turn.appended == given.turn.appended
        &&& after.turn.history == given.turn.history
        &&& after.runner == given.runner
        &&& after.turn.at == n
        &&& if given.runner.cancelled {
            action == ActionModel::Finish(StopModel::Interrupted)
        } else {
            &&& action == ActionModel::LookUp
            &&& after.turn.phase is Lookup
            &&& permits(given.runner.allowed_tools, calls[n].name)
        }
    }
    &&& n == calls.len() ==> {
        let message = MessageModel { role: Role::User, parts: results };
        let sent = given.turn.history.push(message);
        let seen = given.runner.guard.signatures.push(signature_text(after.turn.interactions));
        &&& after.turn.appended == given.turn.appended.push(message)
        &&& after.runner == (RunnerModel { guard: after.runner.guard, ..given.runner })
        &&& after.runner.guard.window == given.runner.guard.window
        &&& after.runner.guard.max_repeats == given.runner.guard.max_repeats
        &&& seen.len() <= given.runner.guard.window ==> after.runner.guard.signatures == seen
        &&& seen.len() > given.runner.guard.window ==> after.runner.guard.signatures == seen.skip(
            seen.len() - given.runner.guard.window,
        )
        &&& match detected(after.runner.guard) {
            Some((signature, repeats)) => {
                &&& action == ActionModel::Finish(
                    StopModel::LoopDetected { signature, repeats: repeats as usize },
                )
                &&& after.turn.history == sent
            },
            None => began(after.runner, given.turn.steps, sent, after.turn.history, action),
        }
    }
}

/// Whether a step begins as it should with a history: not at all where the user has
/// interrupted or the limit is reached; otherwise with the history as it is, pruned only
/// where that is called for, and with a call of the model exactly where that leaves room.
pub open spec fn began(
    runner: RunnerModel,
    steps: u32,
    before: Seq<MessageModel>,
    history: Seq<MessageModel>,
    action: ActionModel,
) -> bool {
    if runner.cancelled {
        action == ActionModel::Finish(StopModel::Interrupted) && history == before
    } else if steps >= runner.step_limit {
        action == ActionModel::Finish(StopModel::StepLimit { limit: runner.step_limit }) && history
            == before
    } else {
        &&& history == (if pressure_on(runner.budget, before) == Pressure::ShouldPrune {
            pruned(before, cutoff_of(before, PRUNE_PROTECT_TOKENS as int))
        } else {
            before
        })
        &&& match pressure_on(runner.budget, history) {
            Pressure::ShouldCompact | Pressure::Exceeded => action == ActionModel::Finish(
                StopModel::Failed { message: "context requires compaction"@ },
            ),
            _ => action == ActionModel::CallModel,
        }
    }
}

proof fn lemma_started(m: Machine)
    ensures
        began(
            m.runner,
            m.turn.steps,
            m.turn.history,
            started(m).0.turn.history,
            started(m).1,
        ),
        started(m).0.runner == m.runner,
        started(m).0.published == m.published,
        started(m).0.turn == (TurnModel {
            history: started(m).0.turn.history,
            phase: started(m).0.turn.phase,
            ..m.turn
        }),
        started(m).1 is CallModel <==> started(m).0.turn.phase is Model,
        started(m).1 is Finish <==> started(m).0.turn.phase is Over,
{
}

proof fn lemma_calling(m: Machine)
    requires
        gathered(m.turn),
        m.turn.calls.len() > 0,
    ensures
        went_on(m, calling(m).0, calling(m).1),
        amid_calls(calling(m).0.turn) ==> gathered(calling(m).0.turn),
        calling(m).0.turn.appended.len() == m.turn.appended.len() ==> amid_calls(
            calling(m).0.turn,
        ) || calling(m).0.turn.phase is Over,
        !(calling(m).0.turn.phase is Start),
    decreases m.turn.calls.len() - m.turn.at,
{
    let (after, action) = calling(m);
    let calls = m.turn.calls;
    let at = m.turn.at;
    let place = m.turn.appended.len() as int;
    if at >= calls.len() {
        let guard = recorded(m.runner.guard, m.turn.interactions);
        let told = with_message(m.turn, Role::User, m.turn.results);
        let next = Machine { runner: RunnerModel { guard, ..m.runner }, turn: told, ..m };
        lemma_started(next);
        assert(results_at(after.turn, place) == m.turn.results);
        assert(m.turn.results.take(at) =~= m.turn.results);
        assert(m.turn.interactions.take(at) =~= m.turn.interactions);
        assert(m.published.take(m.published.len() as int) =~= m.published);
    } else if m.runner.cancelled || permits(m.runner.allowed_tools, calls[at].name) {
        assert(m.turn.results.take(at) =~= m.turn.results);
        assert(m.turn.interactions.take(at) =~= m.turn.interactions);
        assert(m.published.take(m.published.len() as int) =~= m.published);
    } else {
        let text = unavailable(calls[at].name, m.runner.agent_name);
        let next = answered_call(m, text, None, true);
        lemma_calling(next);
        let results = results_at(after.turn, place);
        assert(results.take(at) =~= m.turn.results) by {
            assert forall|i: int| 0 <= i < at implies results[i] == m.turn.results[i] by {
                assert(results.take(at + 1)[i] == next.turn.results[i]);
            }
        }
        assert(results[at] == next.turn.results[at]) by {
            assert(results.take(at + 1)[at] == results[at]);
        }
        let seen = after.turn.interactions;
        assert(seen.take(at) =~= m.turn.interactions) by {
            assert forall|i: int| 0 <= i < at implies seen[i] == m.turn.interactions[i] by {
                assert(seen.take(at + 1)[i] == next.turn.interactions[i]);
            }
        }
        assert(seen[at] == next.turn.interactions[at]) by {
            assert(seen.take(at + 1)[at] == seen[at]);
        }
        let n = m.published.len() as int;
        assert(after.published.take(n) =~= m.published) by {
            assert forall|i: int| 0 <= i < n implies after.published[i] == m.published[i] by {
                assert(after.published.take(n + 1)[i] == next.published[i]);
            }
        }
        assert(after.published[n] == next.published[n]) by {
            assert(after.published.take(n + 1)[n] == after.published[n]);
        }
        assert forall|i: int| at <= i < results.len() implies {
            &&& !permits(m.runner.allowed_tools, (#[trigger] calls[i]).name)
            &&& results[i] == result_of(calls[i], barred(calls[i], m.runner.agent_name))
            &&& after.turn.interactions[i] == (
                calls[i].name,
                calls[i].input,
                barred(calls[i], m.runner.agent_name).output,
            )
            &&& after.published[m.published.len() + (i - at)] == shown(
                barred(calls[i], m.runner.agent_name),
            )
        } by {
            if i > at {
                assert(next.turn.calls[i] == calls[i]);
            }
        }
    }
}

/// The machine in which the current call has an answer and the next is up.
pub open spec fn with_answer(m: Machine, answer: Answer) -> Machine {
    let call = m.turn.calls[m.turn.at];
    Machine {
        turn: TurnModel {
            at: m.turn.at + 1,
            results: m.turn.results.push(result_of(call, answer)),
            interactions: m.turn.interactions.push((call.name, call.input, answer.output)),
            ..m.turn
        },
        published: m.published.push(shown(answer)),
        ..m
    }
}

/// What comes of a call is told as it came: a tool's output and what goes with it, or the
/// error's message, stand in the result of that very call, behind those of the calls
/// before it; it is shown; and it is what the loop guard sees. When all calls are
/// answered, the results go to the model in one message.
pub proof fn law_an_answer_is_told(m: Machine, input: InputModel)
    requires
        turn_wf(m.turn),
        expected(m.turn.phase, input),
        gathered(m.turn),
        answer_in(input, m.turn.calls[m.turn.at]) is Some,
    ensures
        ({
            let call = m.turn.calls[m.turn.at];
            let answer = answer_in(input, call)->0;
            let (after, action) = advanced(m, input);
            &&& went_on(with_answer(m, answer), after, action)
            &&& results_at(after.turn, m.turn.appended.len() as int)[m.turn.at] == result_of(
                call,
                answer,
            )
        }),
{
    let call = m.turn.calls[m.turn.at];
    let answer = answer_in(input, call)->0;
    let next = answered_call(m, answer.output, answer.metadata, answer.is_error);
    assert(next == with_answer(m, answer));
    lemma_calling(next);
    let results = results_at(advanced(m, input).0.turn, m.turn.appended.len() as int);
    assert(results.take(m.turn.at + 1)[m.turn.at] == next.turn.results[m.turn.at]);
}

/// The number of parts that the words of a step take.
pub open spec fn words_before_calls(step: StepModel) -> int {
    (if step.reasoning.len() > 0 {
        1int
    } else {
        0int
    }) + (if step.text.len() > 0 {
        1int
    } else {
        0int
    })
}

/// Whether parts are what the model said in a step: its reasoning, its text and each of
/// its calls, in that order, as far as there are any.
pub open spec fn says(parts: Seq<PartModel>, step: StepModel) -> bool {
    let words = words_before_calls(step);
    &&& parts.len() == words + step.tool_calls.len()
    &&& step.reasoning.len() > 0 ==> parts[0] == PartModel::Reasoning { text: step.reasoning }
    &&& step.text.len() > 0 ==> parts[words - 1] == PartModel::Text { text: step.text }
    &&& forall|i: int|
        0 <= i < step.tool_calls.len() ==> parts[words + i] == PartModel::ToolCall(
            #[trigger] step.tool_calls[i],
        )
}

/// What the model says is kept before anything comes of it: its message stands behind
/// what was said before, with the reasoning, the text and every call. A model that fails
/// ends the turn with its message and adds nothing; an answer that was cut off, or that
/// calls for nothing, ends it; any other has its calls run from the first.
pub proof fn law_what_the_model_says(m: Machine, step: Result<StepModel, Seq<char>>)
    requires
        turn_wf(m.turn),
        m.turn.phase is Model,
    ensures
        ({
            let (after, action) = advanced(m, InputModel::Stepped(step));
            match step {
                Err(message) => {
                    &&& action == ActionModel::Finish(StopModel::Failed { message })
                    &&& after == (Machine {
                        turn: TurnModel { phase: PhaseModel::Over, ..m.turn },
                        ..m
                    })
                },
                Ok(step) => {
                    let silent = words_before_calls(step) + step.tool_calls.len() == 0;
                    let goes_on = !step.truncated && step.wants_tools && step.tool_calls.len() > 0;
                    &&& after.turn.steps == m.turn.steps + 1
                    &&& silent ==> after.turn.appended == m.turn.appended && after.turn.history
                        == m.turn.history
                    &&& !silent ==> {
                        let place = m.turn.appended.len() as int;
                        &&& after.turn.appended.len() > place
                        &&& after.turn.appended.take(place) == m.turn.appended
                        &&& after.turn.appended[place].role == Role::Assistant
                        &&& says(after.turn.appended[place].parts, step)
                    }
                    &&& step.truncated ==> action == ActionModel::Finish(StopModel::OutputTruncated)
                    &&& !step.truncated && !goes_on ==> action == ActionModel::Finish(
                        StopModel::Completed,
                    )
                    &&& !goes_on && !silent ==> {
                        &&& after.turn.appended.len() == m.turn.appended.len() + 1
                        &&& after.turn.history == m.turn.history.push(after.turn.appended.last())
                    }
                    &&& goes_on ==> exists|said: MessageModel|
                        {
                            &&& said.role == Role::Assistant
                            &&& says(said.parts, step)
                            &&& #[trigger] went_on(after_saying(m, said, step), after, action)
                        }
                },
            }
        }),
{
    if let Ok(step) = step {
        let (after, action) = advanced(m, InputModel::Stepped(Ok(step)));
        let parts = assistant_parts(step);
        assert(says(parts, step));
        let said = MessageModel { role: Role::Assistant, parts };
        let place = m.turn.appended.len() as int;
        let next = after_saying(m, said, step);
        if !step.truncated && step.wants_tools && step.tool_calls.len() > 0 {
            lemma_calling(next);
            assert(went_on(next, after, action));
            assert(after.turn.appended.take(place) =~= m.turn.appended);
        } else if parts.len() > 0 {
            assert(after.turn.appended.take(place) =~= m.turn.appended);
        }
    }
}

/// The machine in which the model has just said something and its calls are up.
pub open spec fn after_saying(m: Machine, said: MessageModel, step: StepModel) -> Machine {
    Machine {
        turn: TurnModel {
            history: m.turn.history.push(said),
            appended: m.turn.appended.push(said),
            steps: (m.turn.steps + 1) as u32,
            calls: step.tool_calls,
            at: 0,
            results: Seq::empty(),
            interactions: Seq::empty(),
            phase: m.turn.phase,
        },
        ..m
    }
}

/// A turn begins with the history it was given: it calls the model where that leaves
/// room, and says and publishes nothing of its own.
pub proof fn law_a_turn_begins(m: Machine)
    requires
        m.turn.phase is Start,
    ensures
        ({
            let (after, action) = advanced(m, InputModel::Begin);
            &&& began(m.runner, m.turn.steps, m.turn.history, after.turn.history, action)
            &&& after.turn.appended == m.turn.appended
            &&& after.published == m.published
            &&& after.runner == m.runner
        }),
{
    lemma_started(m);
}

/// What the policy says of a permission; one that cannot be read is passed over.
pub open spec fn gate_of(m: Machine, permission: Seq<char>) -> Decision {
    match resource_read(permission) {
        Ok(resource) => evaluated(m.runner.policy, resource, m.runner.mode).decision,
        Err(_) => Decision::Allow,
    }
}

/// Whether `k` is the first of the permissions from `from` on that is not allowed.
pub open spec fn first_gate(m: Machine, permissions: Seq<Seq<char>>, from: int, k: int) -> bool {
    &&& from <= k < permissions.len()
    &&& gate_of(m, permissions[k]) != Decision::Allow
    &&& forall|j: int| from <= j < k ==> gate_of(m, #[trigger] permissions[j]) == Decision::Allow
}

/// Whether permissions were decided as they should: the first that is not allowed is put
/// to the user or ends the turn, as the policy says of it; where there is none, the tool
/// is run. Nothing else changes.
pub open spec fn decided_by_policy(
    m: Machine,
    permissions: Seq<Seq<char>>,
    from: int,
    after: Machine,
    action: ActionModel,
) -> bool {
    &&& after == (Machine { turn: TurnModel { phase: after.turn.phase, ..m.turn }, ..m })
    &&& (forall|j: int|
        from <= j < permissions.len() ==> gate_of(m, #[trigger] permissions[j]) == Decision::Allow)
        ==> action == ActionModel::Execute && after.turn.phase == PhaseModel::Executing
    &&& forall|k: int| #[trigger]
        first_gate(m, permissions, from, k) ==> {
            let resource = resource_read(permissions[k])->Ok_0;
            if gate_of(m, permissions[k]) == Decision::Ask {
                &&& action == ActionModel::Ask(resource)
                &&& after.turn.phase == PhaseModel::Asking { permissions, at: k, resource }
            } else {
                &&& action == ActionModel::Finish(
                    StopModel::Denied { resource: resource_text(resource) },
                )
                &&& after.turn.phase == PhaseModel::Over
            }
        }
}

proof fn lemma_gated(m: Machine, permissions: Seq<Seq<char>>, at: int)
    requires
        0 <= at <= permissions.len(),
    ensures
        decided_by_policy(
            m,
            permissions,
            at,
            gated(m, permissions, at).0,
            gated(m, permissions, at).1,
        ),
    decreases permissions.len() - at,
{
    if at < permissions.len() {
        let open = gate_of(m, permissions[at]) != Decision::Allow;
        let (after, action) = gated(m, permissions, at);
        if !open {
            lemma_gated(m, permissions, at + 1);
            assert forall|k: int| #[trigger] first_gate(m, permissions, at, k) implies first_gate(
                m,
                permissions,
                at + 1,
                k,
            ) by {
                assert(k != at);
            }
        } else {
            assert forall|k: int| #[trigger] first_gate(m, permissions, at, k) implies k == at by {
                if k > at {
                    assert(gate_of(m, permissions[at]) == Decision::Allow);
                }
            }
        }
    }
}

/// A tool that was found is run where the policy allows all that it needs, and not
/// otherwise: the first permission that is not allowed is asked about, or ends the turn
/// where it is denied.
pub proof fn law_the_policy_decides_what_runs(m: Machine, permissions: Seq<Seq<char>>)
    requires
        turn_wf(m.turn),
        m.turn.phase is Lookup,
    ensures
        ({
            let (after, action) = advanced(m, InputModel::Found(Some(permissions)));
            decided_by_policy(m, permissions, 0, after, action)
        }),
{
    lemma_gated(m, permissions, 0);
}

/// After a yes, the permissions behind the one asked about are decided by the policy that
/// remembers the yes; a no ends the turn with what was refused, and changes nothing else.
pub proof fn law_an_answer_of_the_user_decides(m: Machine)
    requires
        turn_wf(m.turn),
        m.turn.phase is Asking,
    ensures
        ({
            let resource = m.turn.phase->Asking_resource;
            let (refused, end) = advanced(m, InputModel::Answered(false));
            &&& end == ActionModel::Finish(StopModel::Denied { resource: resource_text(resource) })
            &&& refused == (Machine {
                turn: TurnModel { phase: PhaseModel::Over, ..m.turn },
                ..m
            })
        }),
        ({
            let permissions = m.turn.phase->Asking_permissions;
            let at = m.turn.phase->Asking_at;
            let (after, action) = advanced(m, InputModel::Answered(true));
            let rules = after.runner.policy.rules;
            let wiser = Machine {
                runner: RunnerModel { policy: after.runner.policy, ..m.runner },
                ..m
            };
            &&& m.runner.policy.rules.is_prefix_of(rules)
            &&& after.runner.policy.workspace_roots == m.runner.policy.workspace_roots
            &&& decided_by_policy(wiser, permissions, at + 1, after, action)
        }),
{
    let permissions = m.turn.phase->Asking_permissions;
    let at = m.turn.phase->Asking_at;
    let resource = m.turn.phase->Asking_resource;
    let wiser = Machine {
        runner: RunnerModel { policy: granted(m.runner.policy, resource), ..m.runner },
        ..m
    };
    lemma_gated(wiser, permissions, at + 1);
    let before = m.runner.policy.rules;
    assert(before =~= granted(m.runner.policy, resource).rules.subrange(0, before.len() as int));
}

/// How the turn stands in which something came of a call at `place`.
spec fn stands(turn: TurnModel, place: int, at: int, part: PartModel) -> bool {
    &&& turn.appended.len() >= place
    &&& results_at(turn, place).len() > at
    &&& results_at(turn, place)[at] == part
    &&& turn.appended.len() > place ==> turn.appended[place].role == Role::User
    &&& turn.appended.len() == place ==> gathered(turn) && amid_calls(turn) || turn.phase is Over
    &&& amid_calls(turn) ==> gathered(turn)
    &&& !(turn.phase is Start)
}

proof fn lemma_keeps_gathered(m: Machine, input: InputModel)
    requires
        turn_wf(m.turn),
        expected(m.turn.phase, input),
        amid_calls(m.turn) ==> gathered(m.turn),
    ensures
        ({
            let after = advanced(m, input).0;
            let place = m.turn.appended.len() as int;
            &&& turn_wf(after.turn)
            &&& amid_calls(after.turn) ==> gathered(after.turn)
            &&& !(after.turn.phase is Start)
            &&& after.turn.appended.len() >= place
            &&& after.turn.appended.take(place) == m.turn.appended
            &&& amid_calls(m.turn) ==> {
                &&& results_at(after.turn, place).len() >= m.turn.at
                &&& results_at(after.turn, place).take(m.turn.at) == m.turn.results
                &&& after.turn.appended.len() > place ==> after.turn.appended[place].role
                    == Role::User
                &&& after.turn.appended.len() == place ==> amid_calls(after.turn)
                    || after.turn.phase is Over
            }
        }),
{
    let (after, action) = advanced(m, input);
    let place = m.turn.appended.len() as int;
    assert(m.turn.appended.take(place) =~= m.turn.appended);
    if amid_calls(m.turn) {
        assert(m.turn.results.take(m.turn.at) =~= m.turn.results);
    }
    lemma_wf(m, input);
    match input {
        InputModel::Begin => {
            lemma_started(m);
        },
        InputModel::Stepped(Ok(step)) => {
            if !step.truncated && step.wants_tools && step.tool_calls.len() > 0 {
                let said = MessageModel { role: Role::Assistant, parts: assistant_parts(step) };
                let next = after_saying(m, said, step);
                lemma_calling(next);
                assert(after.turn.appended.take(place) =~= m.turn.appended);
            } else {
                assert(after.turn.appended.take(place) =~= m.turn.appended);
            }
        },
        InputModel::Found(Some(permissions)) => {
            lemma_gated(m, permissions, 0);
            lemma_gate_phase(m, permissions, 0);
        },
        InputModel::Answered(true) => {
            let permissions = m.turn.phase->Asking_permissions;
            let at = m.turn.phase->Asking_at;
            let resource = m.turn.phase->Asking_resource;
            let wiser = Machine {
                runner: RunnerModel { policy: granted(m.runner.policy, resource), ..m.runner },
                ..m
            };
            lemma_gated(wiser, permissions, at + 1);
            lemma_gate_phase(wiser, permissions, at + 1);
        },
        _ => {
            let call = m.turn.calls[m.turn.at];
            if answer_in(input, call) is Some {
                let answer = answer_in(input, call)->0;
                let next = answered_call(m, answer.output, answer.metadata, answer.is_error);
                lemma_calling(next);
                let results = results_at(after.turn, place);
                assert(results.take(m.turn.at) =~= m.turn.results) by {
                    assert forall|i: int| 0 <= i < m.turn.at implies results[i]
                        == m.turn.results[i] by {
                        assert(results.take(m.turn.at + 1)[i] == next.turn.results[i]);
                    }
                }
                assert(after.turn.appended.take(place) =~= m.turn.appended);
            }
        },
    }
}

proof fn lemma_gate_phase(m: Machine, permissions: Seq<Seq<char>>, at: int)
    requires
        0 <= at,
    ensures
        ({
            let phase = gated(m, permissions, at).0.turn.phase;
            phase is Asking || phase is Executing || phase is Over
        }),
    decreases permissions.len() - at,
{
    if at < permissions.len() {
        lemma_gate_phase(m, permissions, at + 1);
    }
}

proof fn lemma_wf(m: Machine, input: InputModel)
    requires
        turn_wf(m.turn),
        expected(m.turn.phase, input),
    ensures
        turn_wf(advanced(m, input).0.turn),
{
    match input {
        InputModel::Stepped(Ok(step)) => {
            if !step.truncated && step.wants_tools && step.tool_calls.len() > 0 {
                let said = MessageModel { role: Role::Assistant, parts: assistant_parts(step) };
                lemma_calling_wf(after_saying(m, said, step));
            }
        },
        InputModel::Found(Some(permissions)) => {
            lemma_gated_wf(m, permissions, 0);
        },
        InputModel::Answered(true) => {
            let permissions = m.turn.phase->Asking_permissions;
            let at = m.turn.phase->Asking_at;
            let resource = m.turn.phase->Asking_resource;
            let wiser = Machine {
                runner: RunnerModel { policy: granted(m.runner.policy, resource), ..m.runner },
                ..m
            };
            lemma_gated_wf(wiser, permissions, at + 1);
        },
        InputModel::Found(None) | InputModel::Executed(_) => {
            let call = m.turn.calls[m.turn.at];
            if answer_in(input, call) is Some {
                let answer = answer_in(input, call)->0;
                lemma_calling_wf(
                    answered_call(m, answer.output, answer.metadata, answer.is_error),
                );
            }
        },
        _ => {},
    }
}

proof fn lemma_calling_wf(m: Machine)
    requires
        0 <= m.turn.at <= m.turn.calls.len(),
    ensures
        turn_wf(calling(m).0.turn),
    decreases m.turn.calls.len() - m.turn.at,
{
    if m.turn.at < m.turn.calls.len() && !m.runner.cancelled && !permits(
        m.runner.allowed_tools,
        m.turn.calls[m.turn.at].name,
    ) {
        let text = unavailable(m.turn.calls[m.turn.at].name, m.runner.agent_name);
        lemma_calling_wf(answered_call(m, text, None, true));
    }
}

proof fn lemma_gated_wf(m: Machine, permissions: Seq<Seq<char>>, at: int)
    requires
        0 <= at,
        0 <= m.turn.at < m.turn.calls.len(),
    ensures
        turn_wf(gated(m, permissions, at).0.turn),
    decreases permissions.len() - at,
{
    if at < permissions.len() {
        lemma_gated_wf(m, permissions, at + 1);
    }
}

/// The machine that hears the `k`-th input.
pub open spec fn hearing(start: Machine, heard: Seq<Heard>, k: int) -> Machine {
    let m = ran(start, heard.take(k)).0;
    Machine { runner: RunnerModel { cancelled: heard[k].0, ..m.runner }, ..m }
}

/// Over a whole turn, whatever happens later, what came of a call stays what the model is
/// told of it: the result with the tool's very output, or the error's very message, is
/// gathered at the call's place, and once the calls of its step are done it stands at
/// that place in the message that follows the one with the calls.
pub proof fn law_what_came_of_a_call_reaches_the_model(
    start: Machine,
    heard: Seq<Heard>,
    k: int,
)
    requires
        start.turn.phase is Start,
        turn_wf(start.turn),
        in_turn(start, heard),
        0 <= k < heard.len(),
        ({
            let turn = hearing(start, heard, k).turn;
            answer_in(heard[k].1, turn.calls[turn.at]) is Some
        }),
    ensures
        ({
            let before = hearing(start, heard, k).turn;
            let call = before.calls[before.at];
            let place = before.appended.len() as int;
            let part = result_of(call, answer_in(heard[k].1, call)->0);
            let turn = ran(start, heard).0.turn;
            &&& turn.appended.len() >= place
            &&& results_at(turn, place).len() > before.at
            &&& results_at(turn, place)[before.at] == part
            &&& turn.appended.len() > place ==> turn.appended[place].role == Role::User
            &&& turn.phase is Model ==> turn.appended.len() > place
        }),
{
    lemma_reaches(start, heard, k);
}

proof fn lemma_run_gathered(start: Machine, heard: Seq<Heard>)
    requires
        start.turn.phase is Start,
        turn_wf(start.turn),
        in_turn(start, heard),
    ensures
        turn_wf(ran(start, heard).0.turn),
        amid_calls(ran(start, heard).0.turn) ==> gathered(ran(start, heard).0.turn),
    decreases heard.len(),
{
    if heard.len() > 0 {
        let rest = heard.drop_last();
        lemma_run_gathered(start, rest);
        let m = ran(start, rest).0;
        let now = Machine {
            runner: RunnerModel { cancelled: heard.last().0, ..m.runner },
            ..m
        };
        lemma_keeps_gathered(now, heard.last().1);
    }
}

proof fn lemma_in_turn_take(start: Machine, heard: Seq<Heard>, k: int)
    requires
        in_turn(start, heard),
        0 <= k <= heard.len(),
    ensures
        in_turn(start, heard.take(k)),
        k < heard.len() ==> expected(ran(start, heard.take(k)).0.turn.phase, heard[k].1),
    decreases heard.len(),
{
    if k < heard.len() {
        let rest = heard.drop_last();
        if k == heard.len() - 1 {
            assert(heard.take(k) =~= rest);
        } else {
            lemma_in_turn_take(start, rest, k);
            assert(rest.take(k) =~= heard.take(k));
        }
    } else {
        assert(heard.take(k) =~= heard);
    }
}

proof fn lemma_reaches(start: Machine, heard: Seq<Heard>, k: int)
    requires
        start.turn.phase is Start,
        turn_wf(start.turn),
        in_turn(start, heard),
        0 <= k < heard.len(),
        ({
            let turn = hearing(start, heard, k).turn;
            answer_in(heard[k].1, turn.calls[turn.at]) is Some
        }),
    ensures
        ({
            let before = hearing(start, heard, k).turn;
            let call = before.calls[before.at];
            let place = before.appended.len() as int;
            let part = result_of(call, answer_in(heard[k].1, call)->0);
            stands(ran(start, heard).0.turn, place, before.at, part)
        }),
    decreases heard.len(),
{
    let rest = heard.drop_last();
    let before = hearing(start, heard, k);
    let call = before.turn.calls[before.turn.at];
    let place = before.turn.appended.len() as int;
    let part = result_of(call, answer_in(heard[k].1, call)->0);
    lemma_in_turn_take(start, heard, k);
    lemma_run_gathered(start, heard.take(k));
    if k == heard.len() - 1 {
        assert(heard.take(k) =~= rest);
        lemma_run_gathered(start, rest);
        lemma_keeps_gathered(before, heard[k].1);
        law_an_answer_is_told(before, heard[k].1);
        let after = ran(start, heard).0;
        assert(after == advanced(before, heard[k].1).0);
        assert(results_at(after.turn, place).len() > before.turn.at);
    } else {
        assert(rest.take(k) =~= heard.take(k));
        assert(rest[k] == heard[k]);
        lemma_reaches(start, rest, k);
        lemma_run_gathered(start, rest);
        let m = ran(start, rest).0;
        let now = Machine {
            runner: RunnerModel { cancelled: heard.last().0, ..m.runner },
            ..m
        };
        lemma_keeps_gathered(now, heard.last().1);
        let after = ran(start, heard).0;
        assert(hearing(start, rest, k) == before);
        assert(stands(m.turn, place, before.turn.at, part));
        assert(after == advanced(now, heard.last().1).0);
        let kept = m.turn.appended.len() as int;
        if kept > place {
            assert(after.turn.appended.take(kept)[place] == after.turn.appended[place]);
            assert(after.turn.appended[place] == m.turn.appended[place]);
        } else {
            assert(kept == place);
            assert(amid_calls(m.turn));
            let results = results_at(after.turn, place);
            assert(results.take(m.turn.at)[before.turn.at] == results[before.turn.at]);
        }
        assert(stands(after.turn, place, before.turn.at, part));
    }
}

/// How much room there is depends on the whole history: on all of its tokens, and on what
/// clearing the output of old calls would give back, those before the last forty thousand
/// tokens. One too long to be counted leaves no room.
pub proof fn law_the_whole_history_takes_room(budget: Budget, history: Seq<MessageModel>)
    ensures
        weight(history) > usize::MAX ==> pressure_on(budget, history) == Pressure::Exceeded,
        weight(history) <= usize::MAX ==> pressure_on(budget, history) == pressure_of(
            budget,
            tokens_of(history) as int,
            ((reclaimable(history, history.take(cutoff_of(history, 40_000))) + 3) / 4) as int,
        ),
{
}

} // verus!
