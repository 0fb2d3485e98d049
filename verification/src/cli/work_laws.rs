//! What holds of a session's turns, of the commands that a command file asks for, of the
//! servers and of the rules that a session starts with.

use vstd::prelude::*;

use crate::cli::dispatch::EffectModel;
use crate::cli::opening::{
    candidates_of, command_dirs_of, opening_of, recorded, skill_candidates, CandidateModel,
    FindingsModel,
};
use crate::cli::policy::{
    configured, gate_of, refusal_of, single_tool, with_rules, workspace_builder,
};
use crate::cli::servers::{messages_of, tried, Attempt, McpModel};
use crate::cli::shell::{
    approval_of, denied_text, expanding_wf, replied, ruling, walked, Awaits, ExpandingModel,
    ReplyModel, StepModel,
};
use crate::cli::startup::{below_roots, resumed_text};
use crate::cli::themes::base_rows;
use crate::cli::turns::{
    activity_of, call_completed, conversation, ended_of, must_compact, reported, runs_as,
    shows_call, summarizers_of, task_messages, total_of, usage_fits, used, ChoiceModel,
    SessionUsage,
};
use crate::commands::expand::spliced;
use crate::commands::registry::{detail_of, EntryModel};
use crate::config::agent::AgentModel;
use crate::config::settings::PermissionsModel;
use crate::context::budget::Budget;
use crate::context::prune::{tokens_of, weight};
use crate::engine::agent::Agent;
use crate::engine::step::{summary_of, StopModel};
use crate::mcp::client::ToolDescriptor;
use crate::mcp::{error_text, McpError, McpErrorModel};
use crate::paths::joined;
use crate::permission::laws::law_text_round_trip;
use crate::permission::matcher::{compiled, covers};
use crate::permission::pattern_laws::law_a_star_covers_everything;
use crate::permission::policy::{evaluated, rule_read, BuilderModel, Decision, PolicyModel, Scope};
use crate::permission::resource::{resource_read, resource_text, Action, ResourceModel};
use crate::permission::PermissionMode;
use crate::protocol::event::{EventModel, Usage};
use crate::protocol::item::KindModel;
use crate::protocol::message::{text_content_of, MessageModel, PartModel, Role};
use crate::text::{trim_of, trim_start_char_of};

verus! {

/// Which model summarizes: the one that the settings name, then the faster one of the
/// session's provider, then the session's own.
pub proof fn law_who_summarizes(named: Seq<char>, provider: Seq<char>)
    ensures
        summarizers_of(Some(named), Some(provider)) == seq![
            ChoiceModel::Named(named),
            ChoiceModel::Faster(Some(provider)),
            ChoiceModel::Own,
        ],
        summarizers_of(None, Some(provider)) == seq![
            ChoiceModel::Faster(Some(provider)),
            ChoiceModel::Own,
        ],
        summarizers_of(Some(named), None) == seq![
            ChoiceModel::Named(named),
            ChoiceModel::Faster(None),
        ],
        summarizers_of(None, None) == seq![ChoiceModel::Faster(None)],
{
    assert(summarizers_of(Some(named), Some(provider)) =~= seq![
        ChoiceModel::Named(named),
        ChoiceModel::Faster(Some(provider)),
        ChoiceModel::Own,
    ]);
    assert(summarizers_of(None, Some(provider)) =~= seq![
        ChoiceModel::Faster(Some(provider)),
        ChoiceModel::Own,
    ]);
    assert(summarizers_of(Some(named), None) =~= seq![
        ChoiceModel::Named(named),
        ChoiceModel::Faster(None),
    ]);
    assert(summarizers_of(None, None) =~= seq![ChoiceModel::Faster(None)]);
}

/// Every report is counted, each kind of token with its own, and every call once.
pub proof fn law_every_report_is_counted(usage: SessionUsage, reported: Usage)
    requires
        usage_fits(usage, reported),
    ensures
        ({
            let after = used(usage, reported);
            &&& after.input == usage.input + reported.input_tokens
            &&& after.output == usage.output + reported.output_tokens
            &&& after.cached_input == usage.cached_input + reported.cached_input_tokens
            &&& after.reasoning == usage.reasoning + reported.reasoning_tokens
            &&& after.calls == usage.calls + 1
        }),
{
}

/// The total of a session is the total so far with the last report counted, and nothing at
/// the start.
pub proof fn law_the_total_is_over_all_reports(reports: Seq<Usage>, last: Usage)
    requires
        usage_fits(total_of(reports), last),
    ensures
        total_of(reports.push(last)).input == total_of(reports).input + last.input_tokens,
        total_of(reports.push(last)).output == total_of(reports).output + last.output_tokens,
        total_of(reports.push(last)).calls == total_of(reports).calls + 1,
        total_of(Seq::empty()).input == 0,
        total_of(Seq::empty()).output == 0,
        total_of(Seq::empty()).calls == 0,
{
    assert(reports.push(last).drop_last() =~= reports);
}

/// What is left of a turn: everything that was said in it is in the conversation, behind
/// what was there or behind what it was shortened to; what the user said to do instead
/// comes last. Anything but a completed turn is reported.
pub proof fn law_what_is_left_of_a_turn(
    history: Seq<MessageModel>,
    reduced: Seq<MessageModel>,
    preamble: int,
    added: Seq<MessageModel>,
    reason: StopModel,
    redirect: Seq<char>,
)
    requires
        0 <= preamble <= reduced.len(),
    ensures
        conversation(history, None, preamble, added) == history + added,
        conversation(history, Some(reduced), preamble, added) == reduced.skip(preamble) + added,
        ended_of(history, reason, None).history == history,
        ended_of(history, reason, None).instructions is None,
        trim_of(redirect).len() == 0 ==> ended_of(history, reason, Some(redirect)) == ended_of(
            history,
            reason,
            None,
        ),
        trim_of(redirect).len() > 0 ==> {
            let ended = ended_of(history, reason, Some(redirect));
            &&& ended.instructions == Some(redirect)
            &&& ended.history == history.push(
                MessageModel { role: Role::User, parts: seq![PartModel::Text { text: redirect }] },
            )
        },
        ended_of(history, reason, None).error is None <==> reason is Completed,
        !(reason is Completed) ==> ended_of(history, reason, Some(redirect)).error == Some(
            summary_of(reason),
        ),
{
}

/// A subagent is told what it is, where it works and what to do, and nothing else.
pub proof fn law_a_subagent_is_told_its_task(
    definition: AgentModel,
    workspace: Seq<char>,
    task: Seq<char>,
)
    ensures
        task_messages(definition, workspace, task) == seq![
            MessageModel {
                role: Role::System,
                parts: seq![
                    PartModel::Text {
                        text: if definition.prompt.len() > 0 {
                            definition.prompt
                        } else {
                            "You are the "@ + definition.name + " subagent."@
                        },
                    },
                ],
            },
            MessageModel {
                role: Role::Developer,
                parts: seq![PartModel::Text { text: "Working directory: "@ + workspace }],
            },
            MessageModel { role: Role::User, parts: seq![PartModel::Text { text: task }] },
        ],
{
    let all = task_messages(definition, workspace, task);
    assert(all.len() == 3);
}

/// What a subagent reports is the last thing it said, all of its texts; where it did not
/// finish, why not.
pub proof fn law_a_subagent_reports_what_it_said_last(
    before: Seq<MessageModel>,
    said: MessageModel,
    after: Seq<MessageModel>,
    reason: StopModel,
)
    requires
        said.role == Role::Assistant,
        forall|i: int| 0 <= i < after.len() ==> (#[trigger] after[i]).role != Role::Assistant,
    ensures
        reported(StopModel::Completed, before + seq![said] + after) == Ok::<_, Seq<char>>(
            text_content_of(said.parts),
        ),
        !(reason is Completed) ==> reported(reason, before) == Err::<Seq<char>, _>(
            summary_of(reason),
        ),
        reported(StopModel::Completed, after) == Ok::<_, Seq<char>>(Seq::<char>::empty()),
    decreases after.len(),
{
    let all = before + seq![said] + after;
    if after.len() == 0 {
        assert(all.last() == said);
    } else {
        let rest = after.drop_last();
        assert forall|i: int| 0 <= i < rest.len() implies (#[trigger] rest[i]).role
            != Role::Assistant by {
            assert(rest[i] == after[i]);
        }
        law_a_subagent_reports_what_it_said_last(before, said, rest, reason);
        assert(all.drop_last() =~= before + seq![said] + rest);
        assert(all.last() == after[after.len() - 1]);
    }
}

/// What goes on: a call is named with what it is about; once it has a result the model
/// thinks again; nothing else changes what is shown.
pub proof fn law_what_goes_on_is_named(event: EventModel, summary: Seq<char>)
    ensures
        activity_of(event, summary) == (match event {
            EventModel::Started { item, .. } => named_by(item.kind, summary),
            EventModel::Completed { item, .. } => named_by(item.kind, summary),
            _ => None,
        }),
{
}

/// What an item says of what goes on.
pub open spec fn named_by(kind: KindModel, summary: Seq<char>) -> Option<Seq<char>> {
    if kind is ToolExecution {
        Some(kind->ToolExecution_name + " "@ + summary)
    } else if kind is ToolResult {
        Some("Thinking"@)
    } else {
        None
    }
}

/// The notes on commands that the rules deny, from one place of an expansion to another.
pub open spec fn denials(e: ExpandingModel, from: int, to: int) -> Seq<Seq<char>>
    decreases to - from,
{
    if from >= to {
        Seq::empty()
    } else {
        denials(e, from, to - 1).push(
            "/"@ + e.name + ": `"@ + e.expansion.shell_requests[to - 1].command
                + "` is denied by the permission rules and was not run."@,
        )
    }
}

/// Whether a walk through the commands went on from one place: it passed over those that
/// the rules deny, saying so of each, and came to the first that they do not, which is run
/// or asked about as they say; behind the last, the prompt is sent with the outputs in it.
pub open spec fn went_on(
    e: ExpandingModel,
    from: int,
    told: Seq<Seq<char>>,
    policy: PolicyModel,
    mode: PermissionMode,
    after: ExpandingModel,
    said: Seq<Seq<char>>,
    step: StepModel,
) -> bool {
    let requests = e.expansion.shell_requests;
    &&& from <= after.at <= requests.len()
    &&& after.name == e.name
    &&& after.expansion == e.expansion
    &&& after.results == e.results
    &&& forall|i: int|
        from <= i < after.at ==> ruling(policy, mode, (#[trigger] requests[i]).command)
            == Decision::Deny
    &&& said == told + denials(e, from, after.at)
    &&& after.at == requests.len() ==> step == StepModel::Send(spliced(e.expansion, e.results))
        && after.awaits == Awaits::Nothing
    &&& after.at < requests.len() ==> {
        let shell = requests[after.at].command;
        let said = ruling(policy, mode, shell);
        &&& said != Decision::Deny
        &&& said == Decision::Allow ==> step == StepModel::Run(shell) && after.awaits
            == Awaits::Output
        &&& said == Decision::Ask ==> {
            &&& step is Ask
            &&& step->Ask_0.resource.target == shell
            &&& step->Ask_0.resource.action == Action::Command
            &&& after.awaits == Awaits::Answer
        }
    }
}

proof fn lemma_walked(
    e: ExpandingModel,
    told: Seq<Seq<char>>,
    policy: PolicyModel,
    mode: PermissionMode,
)
    requires
        0 <= e.at <= e.expansion.shell_requests.len(),
    ensures
        ({
            let (after, said, step) = walked(e, told, policy, mode);
            went_on(e, e.at, told, policy, mode, after, said, step)
        }),
    decreases e.expansion.shell_requests.len() - e.at,
{
    let requests = e.expansion.shell_requests;
    assert(told + denials(e, e.at, e.at) =~= told);
    if e.at < requests.len() {
        let shell = requests[e.at].command;
        if ruling(policy, mode, shell) == Decision::Deny {
            let next = ExpandingModel { at: e.at + 1, ..e };
            let more = told.push(denied_text(e.name, shell));
            lemma_walked(next, more, policy, mode);
            let (after, said, step) = walked(next, more, policy, mode);
            lemma_denials(e, next, e.at, after.at);
            assert(more + denials(next, e.at + 1, after.at) =~= told + denials(e, e.at, after.at));
            assert forall|i: int| e.at <= i < after.at implies ruling(
                policy,
                mode,
                (#[trigger] requests[i]).command,
            ) == Decision::Deny by {
                if i > e.at {
                    assert(next.expansion.shell_requests[i] == requests[i]);
                }
            }
        }
    }
}

proof fn lemma_denials(e: ExpandingModel, next: ExpandingModel, from: int, to: int)
    requires
        from < to,
        next.name == e.name,
        next.expansion == e.expansion,
    ensures
        denials(e, from, to) == seq![
            denied_text(e.name, e.expansion.shell_requests[from].command),
        ] + denials(next, from + 1, to),
    decreases to - from,
{
    let first = seq![denied_text(e.name, e.expansion.shell_requests[from].command)];
    if to == from + 1 {
        assert(denials(e, from, from) =~= Seq::empty());
        assert(denials(e, from, to) =~= first + denials(next, from + 1, to));
    } else {
        lemma_denials(e, next, from, to - 1);
        assert(denials(e, from, to) =~= first + denials(next, from + 1, to));
    }
}

/// No command of a command file is lost. Each that is run has its output kept, with the
/// request that it answers; one that the user declines is named as not run; and from
/// there the next command comes up that the rules do not deny.
pub proof fn law_every_command_comes_up(
    e: ExpandingModel,
    told: Seq<Seq<char>>,
    policy: PolicyModel,
    mode: PermissionMode,
    output: Seq<char>,
)
    requires
        expanding_wf(e),
    ensures
        ({
            let (after, said, step) = replied(e, told, policy, mode, ReplyModel::Begin);
            went_on(e, e.at, told, policy, mode, after, said, step)
        }),
        e.at < e.expansion.shell_requests.len() ==> {
            let request = e.expansion.shell_requests[e.at];
            let kept = ExpandingModel { results: e.results.push((request, output)), ..e };
            let (after, said, step) = replied(e, told, policy, mode, ReplyModel::Ran(output));
            went_on(kept, e.at + 1, told, policy, mode, after, said, step)
        },
        e.at < e.expansion.shell_requests.len() ==> {
            let command = e.expansion.shell_requests[e.at].command;
            let (after, said, step) = replied(e, told, policy, mode, ReplyModel::Answered(false));
            went_on(
                e,
                e.at + 1,
                told.push("/"@ + e.name + ": `"@ + command + "` was not run."@),
                policy,
                mode,
                after,
                said,
                step,
            )
        },
        e.at < e.expansion.shell_requests.len() ==> {
            let (after, said, step) = replied(e, told, policy, mode, ReplyModel::Answered(true));
            &&& after == ExpandingModel { awaits: Awaits::Output, ..e }
            &&& said == told
            &&& step == StepModel::Run(e.expansion.shell_requests[e.at].command)
        },
{
    lemma_walked(e, told, policy, mode);
    if e.at < e.expansion.shell_requests.len() {
        let request = e.expansion.shell_requests[e.at];
        let kept = ExpandingModel { results: e.results.push((request, output)), ..e };
        let ran = ExpandingModel { at: e.at + 1, ..kept };
        lemma_walked(ran, told, policy, mode);
        let (after, _, _) = walked(ran, told, policy, mode);
        lemma_denials_same(ran, kept, e.at + 1, after.at);
        let passed = ExpandingModel { at: e.at + 1, ..e };
        let more = told.push("/"@ + e.name + ": `"@ + request.command + "` was not run."@);
        lemma_walked(passed, more, policy, mode);
        let (later, _, _) = walked(passed, more, policy, mode);
        lemma_denials_same(passed, e, e.at + 1, later.at);
    }
}

proof fn lemma_denials_same(a: ExpandingModel, b: ExpandingModel, from: int, to: int)
    requires
        a.name == b.name,
        a.expansion == b.expansion,
    ensures
        denials(a, from, to) == denials(b, from, to),
    decreases to - from,
{
    if from < to {
        lemma_denials_same(a, b, from, to - 1);
    }
}

/// What the user is asked: whether this command may run, for this command file.
pub proof fn law_what_the_user_is_asked(command: Seq<char>, shell: Seq<char>)
    ensures
        approval_of(command, shell).resource.target == shell,
        approval_of(command, shell).resource.action == Action::Command,
        approval_of(command, shell).summary == "/"@ + command
            + " wants to run this and use its output"@,
        approval_of(command, shell).diff is None,
{
}

/// A server that connects brings all its tools, in its order and behind those that are
/// there, each under the server's name with what the server says of it; what it says of
/// itself stands behind what others said.
pub proof fn law_a_server_brings_its_tools(
    mcp: McpModel,
    server: Seq<char>,
    descriptors: Vec<ToolDescriptor>,
    instructions: String,
    i: int,
)
    ensures
        ({
            let after = tried(
                mcp,
                server,
                Attempt::Connected { listing: Ok(descriptors), instructions: Some(instructions) },
            );
            &&& after.tools.len() == mcp.tools.len() + descriptors@.len()
            &&& after.tools.take(mcp.tools.len() as int) == mcp.tools
            &&& 0 <= i < descriptors@.len() ==> {
                let tool = after.tools[mcp.tools.len() + i];
                &&& tool.server == server
                &&& tool.remote_name == descriptors@[i].name@
                &&& tool.input_schema == descriptors@[i].input_schema@
                &&& descriptors@[i].description is Some ==> tool.description
                    == descriptors@[i].description->0@
            }
            &&& after.clients == mcp.clients.push(server)
            &&& after.errors == mcp.errors
            &&& mcp.instructions.len() == 0 ==> after.instructions == instructions@
            &&& mcp.instructions.len() > 0 ==> after.instructions == mcp.instructions + "\n\n"@
                + instructions@
        }),
{
    let after = tried(
        mcp,
        server,
        Attempt::Connected { listing: Ok(descriptors), instructions: Some(instructions) },
    );
    assert(after.tools.take(mcp.tools.len() as int) =~= mcp.tools);
}

/// A server that connects but cannot say what it offers counts as connected, brings
/// nothing and is reported.
pub proof fn law_a_server_without_a_listing_is_reported(
    mcp: McpModel,
    server: Seq<char>,
    error: McpError,
)
    ensures
        ({
            let after = tried(
                mcp,
                server,
                Attempt::Connected { listing: Err(error), instructions: None },
            );
            &&& after.tools == mcp.tools
            &&& after.clients == mcp.clients.push(server)
            &&& after.instructions == mcp.instructions
            &&& after.errors == mcp.errors.push(
                "mcp "@ + server + ": "@ + error_text(error.deep_view()),
            )
        }),
{
}

/// Every rule that the settings hold is in force, with the decision it stands under, as the
/// project's; one that cannot be read is reported instead.
pub proof fn law_every_configured_rule_is_in_force(
    workspace: Seq<char>,
    permissions: PermissionsModel,
    i: int,
)
    ensures
        0 <= i < permissions.deny.len() ==> taken_in(
            configured(workspace, permissions),
            permissions.deny[i],
            Decision::Deny,
        ),
        0 <= i < permissions.ask.len() ==> taken_in(
            configured(workspace, permissions),
            permissions.ask[i],
            Decision::Ask,
        ),
        0 <= i < permissions.allow.len() ==> taken_in(
            configured(workspace, permissions),
            permissions.allow[i],
            Decision::Allow,
        ),
        configured(workspace, permissions).workspace_roots == workspace_builder(
            workspace,
        ).workspace_roots,
        workspace_builder(workspace).workspace_roots == seq![workspace],
{
    let start = workspace_builder(workspace);
    let denied = with_rules(start, permissions.deny, Decision::Deny, Scope::Project);
    let asked = with_rules(denied, permissions.ask, Decision::Ask, Scope::Project);
    lemma_with_rules(start, permissions.deny, Decision::Deny, i);
    lemma_with_rules(denied, permissions.ask, Decision::Ask, i);
    lemma_with_rules(asked, permissions.allow, Decision::Allow, i);
    let all = configured(workspace, permissions);
    if 0 <= i < permissions.deny.len() {
        lemma_taken_in(denied, asked, permissions.deny[i], Decision::Deny);
        lemma_taken_in(asked, all, permissions.deny[i], Decision::Deny);
    }
    if 0 <= i < permissions.ask.len() {
        lemma_taken_in(asked, all, permissions.ask[i], Decision::Ask);
    }
}

/// Whether a builder took a rule in, or reported it.
pub open spec fn taken_in(b: BuilderModel, pattern: Seq<char>, decision: Decision) -> bool {
    match rule_read(pattern, decision, Scope::Project) {
        Ok(rule) => b.rules.contains(rule),
        Err(error) => b.errors.contains(error),
    }
}

proof fn lemma_taken_in(a: BuilderModel, b: BuilderModel, pattern: Seq<char>, decision: Decision)
    requires
        taken_in(a, pattern, decision),
        a.rules.is_prefix_of(b.rules),
        a.errors.is_prefix_of(b.errors),
    ensures
        taken_in(b, pattern, decision),
{
    match rule_read(pattern, decision, Scope::Project) {
        Ok(rule) => {
            let k = a.rules.index_of(rule);
            assert(b.rules[k] == rule);
        },
        Err(error) => {
            let k = a.errors.index_of(error);
            assert(b.errors[k] == error);
        },
    }
}

proof fn lemma_with_rules(b: BuilderModel, patterns: Seq<Seq<char>>, decision: Decision, i: int)
    ensures
        ({
            let all = with_rules(b, patterns, decision, Scope::Project);
            &&& b.rules.is_prefix_of(all.rules)
            &&& b.errors.is_prefix_of(all.errors)
            &&& all.workspace_roots == b.workspace_roots
            &&& 0 <= i < patterns.len() ==> taken_in(all, patterns[i], decision)
        }),
    decreases patterns.len(),
{
    if patterns.len() > 0 {
        let rest = patterns.drop_last();
        lemma_with_rules(b, rest, decision, i);
        let before = with_rules(b, rest, decision, Scope::Project);
        let all = with_rules(b, patterns, decision, Scope::Project);
        assert(before.rules.is_prefix_of(all.rules));
        assert(before.errors.is_prefix_of(all.errors));
        assert(b.rules =~= all.rules.subrange(0, b.rules.len() as int));
        assert(b.errors =~= all.errors.subrange(0, b.errors.len() as int));
        if 0 <= i < rest.len() {
            assert(rest[i] == patterns[i]);
            lemma_taken_in(before, all, patterns[i], decision);
        } else if i == patterns.len() - 1 {
            match rule_read(patterns[i], decision, Scope::Project) {
                Ok(rule) => {
                    assert(all.rules.last() == rule);
                },
                Err(error) => {
                    assert(all.errors.last() == error);
                },
            }
        }
    } else {
        assert(b.rules =~= b.rules.subrange(0, b.rules.len() as int));
        assert(b.errors =~= b.errors.subrange(0, b.errors.len() as int));
    }
}

/// Where a tool may not run, the first resource that stands in its way says so; it is
/// denied, or it would have to be asked about.
pub proof fn law_the_first_refusal_is_said(
    policy: PolicyModel,
    mode: PermissionMode,
    resources: Seq<Seq<char>>,
    i: int,
)
    requires
        0 <= i < resources.len(),
        resource_read(resources[i]) is Ok,
        evaluated(policy, resource_read(resources[i])->Ok_0, mode).decision != Decision::Allow,
        forall|j: int|
            0 <= j < i ==> resource_read(#[trigger] resources[j]) is Err || evaluated(
                policy,
                resource_read(resources[j])->Ok_0,
                mode,
            ).decision == Decision::Allow,
    ensures
        ({
            let resource = resource_read(resources[i])->Ok_0;
            let verdict = evaluated(policy, resource, mode);
            &&& gate_of(policy, mode, resources) == refusal_of(verdict, resource_text(resource))
            &&& gate_of(policy, mode, resources) is Some
            &&& verdict.decision == Decision::Ask ==> gate_of(policy, mode, resources)->0
                == resource_text(resource)
                + " needs approval, and this subcommand cannot prompt. Add an allow rule, or re-run with --mode accept-edits for file writes."@
        }),
    decreases resources.len(),
{
    if i > 0 {
        let rest = resources.drop_first();
        assert(resource_read(resources[0]) is Err || evaluated(
            policy,
            resource_read(resources[0])->Ok_0,
            mode,
        ).decision == Decision::Allow);
        assert(rest[i - 1] == resources[i]);
        assert forall|j: int| 0 <= j < i - 1 implies resource_read(#[trigger] rest[j]) is Err
            || evaluated(policy, resource_read(rest[j])->Ok_0, mode).decision
            == Decision::Allow by {
            assert(rest[j] == resources[j + 1]);
        }
        law_the_first_refusal_is_said(policy, mode, rest, i - 1);
    }
}

/// Nothing that went wrong at the start is passed over: each failure is said, in the order
/// in which things are looked for.
#[verifier::rlimit(60)]
#[verifier::spinoff_prover]
pub proof fn law_every_failure_is_said(f: FindingsModel, i: int)
    ensures
        f.connecting matches Some(text) ==> opening_of(f).contains(EffectModel::Fail(text)),
        0 <= i < f.settings.len() ==> opening_of(f).contains(EffectModel::Fail(f.settings[i])),
        0 <= i < f.providers.len() ==> opening_of(f).contains(EffectModel::Fail(f.providers[i])),
        0 <= i < f.servers.len() ==> opening_of(f).contains(EffectModel::Fail(f.servers[i])),
        0 <= i < f.themes.len() ==> opening_of(f).contains(EffectModel::Fail(f.themes[i])),
        0 <= i < f.commands.len() ==> opening_of(f).contains(EffectModel::Fail(f.commands[i])),
        f.selecting matches Some(text) ==> opening_of(f).contains(
            EffectModel::Fail(text + ". Run `octane models` to see what is configured."@),
        ),
        f.sessions.len() > 0 ==> opening_of(f).contains(EffectModel::OfferSessions(f.sessions)),
        f.resumed > 0 ==> opening_of(f).contains(EffectModel::Say(resumed_text(f.resumed))),
        opening_of(f).len() == (if f.connecting is Some {
            1int
        } else {
            0
        }) + f.settings.len() + f.providers.len() + f.servers.len() + f.themes.len() + (
        if f.sessions.len() > 0 {
            1int
        } else {
            0
        }) + (if f.resumed > 0 {
            1int
        } else {
            0
        }) + (if f.selecting is Some {
            1int
        } else {
            0
        }) + f.commands.len(),
{
    let all = opening_of(f);
    let a: int = if f.connecting is Some {
        1
    } else {
        0
    };
    let b = a + f.settings.len();
    let c = b + f.providers.len();
    let d = c + f.servers.len();
    let e = d + f.themes.len();
    let g: int = e + (if f.sessions.len() > 0 {
        1int
    } else {
        0
    });
    let h: int = g + (if f.resumed > 0 {
        1int
    } else {
        0
    });
    let k: int = h + (if f.selecting is Some {
        1int
    } else {
        0
    });
    if f.connecting is Some {
        assert(all[0] == EffectModel::Fail(f.connecting->0));
    }
    if 0 <= i < f.settings.len() {
        assert(all[a + i] == EffectModel::Fail(f.settings[i]));
    }
    if 0 <= i < f.providers.len() {
        assert(all[b + i] == EffectModel::Fail(f.providers[i]));
    }
    if 0 <= i < f.servers.len() {
        assert(all[c + i] == EffectModel::Fail(f.servers[i]));
    }
    if 0 <= i < f.themes.len() {
        assert(all[d + i] == EffectModel::Fail(f.themes[i]));
    }
    if f.sessions.len() > 0 {
        assert(all[e] == EffectModel::OfferSessions(f.sessions));
    }
    if f.resumed > 0 {
        assert(all[g] == EffectModel::Say(resumed_text(f.resumed)));
    }
    if f.selecting is Some {
        assert(all[h] == EffectModel::Fail(
            f.selecting->0 + ". Run `octane models` to see what is configured."@,
        ));
    }
    if 0 <= i < f.commands.len() {
        assert(all[k + i] == EffectModel::Fail(f.commands[i]));
    }
}

/// Every command is offered, by its name and with what it does, and then every skill that no
/// command hides.
pub proof fn law_every_command_is_offered(
    names: Seq<Seq<char>>,
    skills: Seq<(Seq<char>, Seq<char>)>,
    commands: Map<Seq<char>, EntryModel>,
    i: int,
)
    ensures
        0 <= i < names.len() ==> candidates_of(names, skills, commands)[i] == (CandidateModel {
            value: "/"@ + commands[names[i]].name,
            detail: detail_of(commands[names[i]]),
        }),
        0 <= i < skills.len() && !commands.dom().contains(trim_start_char_of("/"@ + skills[i].0, '/'))
            ==> candidates_of(names, skills, commands).contains(
            CandidateModel { value: "/"@ + skills[i].0, detail: skills[i].1 },
        ),
{
    let all = candidates_of(names, skills, commands);
    if 0 <= i < skills.len() && !commands.dom().contains(
        trim_start_char_of("/"@ + skills[i].0, '/'),
    ) {
        lemma_skill(skills, commands, i);
        let one = CandidateModel { value: "/"@ + skills[i].0, detail: skills[i].1 };
        let k = skill_candidates(skills, commands).index_of(one);
        assert(all[names.len() + k] == one);
    }
}

proof fn lemma_skill(
    skills: Seq<(Seq<char>, Seq<char>)>,
    commands: Map<Seq<char>, EntryModel>,
    i: int,
)
    requires
        0 <= i < skills.len(),
        !commands.dom().contains(trim_start_char_of("/"@ + skills[i].0, '/')),
    ensures
        skill_candidates(skills, commands).contains(
            CandidateModel { value: "/"@ + skills[i].0, detail: skills[i].1 },
        ),
    decreases skills.len(),
{
    let one = CandidateModel { value: "/"@ + skills[i].0, detail: skills[i].1 };
    let all = skill_candidates(skills, commands);
    if i == skills.len() - 1 {
        assert(all.last() == one);
    } else {
        let rest = skills.drop_last();
        assert(rest[i] == skills[i]);
        lemma_skill(rest, commands, i);
        let k = skill_candidates(rest, commands).index_of(one);
        assert(all[k] == one);
    }
}

/// Commands are looked for in every directory, and only the last, the project's, is local.
pub proof fn law_the_last_directory_is_the_projects(dirs: Seq<Seq<char>>, i: int)
    requires
        0 <= i < dirs.len(),
    ensures
        command_dirs_of(dirs).len() == dirs.len(),
        command_dirs_of(dirs)[i].0 == dirs[i],
        command_dirs_of(dirs)[i].1 <==> i == dirs.len() - 1,
{
}

/// What is said of recording: that it could not start, or that it failed, with the reason;
/// nothing where it worked.
pub proof fn law_what_is_said_of_recording(
    error: Seq<char>,
    wrote: Result<(), Seq<char>>,
    created: Result<(), Seq<char>>,
)
    ensures
        recorded(false, Err(error), wrote).1 == Some("not recording this session: "@ + error),
        recorded(true, created, Err(error)).1 == Some("could not record the session: "@ + error),
        recorded(true, created, Ok(())).1 is None,
        recorded(false, Ok(()), Ok(())).1 is None,
{
}

/// A subagent runs under its own name, with the tools that its definition lists and in the
/// mode that it asks for, or else in the one of the session.
pub proof fn law_a_subagent_runs_as_defined(
    agent: Agent,
    definition: AgentModel,
    inherited: PermissionMode,
)
    requires
        runs_as(agent, definition, inherited),
    ensures
        agent.name@ == definition.name,
        agent.allowed_tools.deep_view() == definition.frontmatter.tools,
        definition.frontmatter.mode_override matches Some(mode) ==> agent.mode == mode,
        definition.frontmatter.mode_override is None ==> agent.mode == inherited,
{
}

/// A call of a subagent is shown as its own, under the subagent's name and with what it was
/// called with; nothing else of a subagent is shown.
pub proof fn law_a_subagents_call_is_shown(
    event: EventModel,
    shown: EventModel,
    agent: Seq<char>,
    name: Seq<char>,
    input: Seq<char>,
)
    ensures
        call_completed(event) == Some((name, input)) ==> event is Completed
            && event->Completed_item.kind is ToolExecution
            && event->Completed_item.kind->ToolExecution_name == name
            && event->Completed_item.kind->ToolExecution_input == input,
        event is Completed && event->Completed_item.kind is ToolExecution ==> call_completed(event)
            is Some,
        shows_call(shown, agent, name, input) ==> call_completed(shown) == Some(
            (agent + ":"@ + name, input),
        ),
{
}

/// When a conversation is shortened: when it is estimated at more than the budget is meant
/// to hold and pruning would not do, and always when it fills the window.
pub proof fn law_when_a_conversation_is_shortened(budget: Budget, prompt: Seq<MessageModel>)
    requires
        weight(prompt) <= usize::MAX,
    ensures
        must_compact(budget, prompt) ==> tokens_of(prompt) >= budget.compact_threshold || tokens_of(
            prompt,
        ) >= budget.effective_window,
        tokens_of(prompt) >= budget.effective_window ==> must_compact(budget, prompt),
{
}

/// A tool that is run by itself may run commands only where the user is asked, whatever
/// commands they are.
pub proof fn law_a_single_tool_asks_before_commands(workspace: Seq<char>)
    ensures
        exists|i: int|
            0 <= i < single_tool(workspace).rules.len() && {
                let rule = #[trigger] single_tool(workspace).rules[i];
                &&& rule.action == Action::Command
                &&& rule.decision == Decision::Ask
                &&& rule.scope == Scope::User
                &&& forall|target: Seq<char>| #[trigger] covers(rule.matcher, target)
            },
{
    let pattern = "command(*)"@;
    let resource = ResourceModel { action: Action::Command, target: "*"@ };
    reveal_strlit("command(*)");
    reveal_strlit("command");
    reveal_strlit("*");
    reveal_strlit("(");
    reveal_strlit(")");
    assert(pattern =~= resource_text(resource));
    law_text_round_trip(resource);
    let rules = single_tool(workspace).rules;
    let rule = rules.last();
    assert(rule.matcher == compiled(Action::Command, "*"@));
    assert forall|target: Seq<char>| #[trigger] covers(rule.matcher, target) by {
        law_a_star_covers_everything(Action::Command, target);
    }
    assert(rules[rules.len() - 1] == rule);
}

/// What went wrong with the servers' configuration is said of each, in its order.
pub proof fn law_every_configuration_fault_is_said(errors: Seq<McpErrorModel>, i: int)
    requires
        0 <= i < errors.len(),
    ensures
        messages_of(errors).len() == errors.len(),
        messages_of(errors)[i] == error_text(errors[i]),
{
}

/// Something of a kind is looked for below every root, in the order of the roots.
pub proof fn law_every_root_is_looked_below(roots: Seq<Seq<char>>, sub: Seq<char>, i: int)
    requires
        0 <= i < roots.len(),
    ensures
        below_roots(roots, sub).len() == roots.len(),
        below_roots(roots, sub)[i] == joined(roots[i], sub),
{
}

/// Every built-in theme can be copied, by its name.
pub proof fn law_every_theme_can_be_copied(names: Seq<Seq<char>>, i: int)
    requires
        0 <= i < names.len(),
    ensures
        base_rows(names).len() == names.len(),
        base_rows(names)[i].key == names[i],
        base_rows(names)[i].label == names[i],
{
}

} // verus!
