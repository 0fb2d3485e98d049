//! What a session's tools may do.

use vstd::prelude::*;

use crate::config::settings::{Permissions, PermissionsModel};
use crate::paths::{joined, within};
use crate::permission::laws::{
    law_baseline_adds_four_denials, law_the_baseline_shields_every_root,
};
use crate::permission::policy::{
    builder_empty, builder_with, built, evaluated, with_baseline, BuilderModel, Decision, Policy,
    PolicyBuilder, PolicyModel, Reason, ReasonModel, RuleModel, Scope, VerdictModel,
};
use crate::permission::resource::{resource_read, resource_text, Action, Resource, ResourceModel};
use crate::permission::{PermissionError, PermissionMode};
use crate::text::{join, join_of, quoted, quoted_of};

verus! {

/// A builder after rules of one decision were offered to it in turn.
pub open spec fn with_rules(
    b: BuilderModel,
    patterns: Seq<Seq<char>>,
    decision: Decision,
    scope: Scope,
) -> BuilderModel
    decreases patterns.len(),
{
    if patterns.len() == 0 {
        b
    } else {
        builder_with(
            with_rules(b, patterns.drop_last(), decision, scope),
            patterns.last(),
            decision,
            scope,
        )
    }
}

/// A builder that knows a workspace and the baseline.
pub open spec fn workspace_builder(workspace: Seq<char>) -> BuilderModel {
    with_baseline(BuilderModel { workspace_roots: seq![workspace], ..builder_empty() })
}

/// A builder that knows a workspace, the baseline and the configured rules.
pub open spec fn configured(workspace: Seq<char>, permissions: PermissionsModel) -> BuilderModel {
    let denied = with_rules(
        workspace_builder(workspace),
        permissions.deny,
        Decision::Deny,
        Scope::Project,
    );
    let asked = with_rules(denied, permissions.ask, Decision::Ask, Scope::Project);
    with_rules(asked, permissions.allow, Decision::Allow, Scope::Project)
}

fn start(workspace: &str) -> (r: PolicyBuilder)
    ensures
        r.deep_view() == workspace_builder(workspace@),
{
    let b = Policy::builder().workspace_root(workspace);
    assert(b.deep_view().workspace_roots =~= seq![workspace@]);
    b.with_baseline_denies()
}

fn add_rules(b: PolicyBuilder, patterns: &Vec<String>, decision: Decision) -> (r: PolicyBuilder)
    ensures
        r.deep_view() == with_rules(b.deep_view(), patterns.deep_view(), decision, Scope::Project),
{
    let ghost before = b.deep_view();
    let ghost all = patterns.deep_view();
    let mut b = b;
    let mut i: usize = 0;
    assert(all.take(0) =~= Seq::<Seq<char>>::empty());
    while i < patterns.len()
        invariant
            i <= patterns@.len(),
            all == patterns.deep_view(),
            b.deep_view() == with_rules(before, all.take(i as int), decision, Scope::Project),
        decreases patterns@.len() - i,
    {
        assert(all.take(i + 1).drop_last() =~= all.take(i as int));
        assert(all.take(i + 1).last() == patterns@[i as int]@);
        b = match decision {
            Decision::Deny => b.deny(&patterns[i], Scope::Project),
            Decision::Ask => b.ask(&patterns[i], Scope::Project),
            Decision::Allow => b.allow(&patterns[i], Scope::Project),
        };
        i += 1;
    }
    assert(all.take(i as int) =~= all);
    b
}

/// The policy of a session: configured rules on top of the baseline, and the rules
/// that could not be read.
pub fn build_policy(workspace: &str, permissions: &Permissions) -> (r: (
    Policy,
    Vec<PermissionError>,
))
    ensures
        r.0.deep_view() == built(configured(workspace@, permissions.deep_view())),
        r.1.deep_view() == configured(workspace@, permissions.deep_view()).errors,
{
    let b = add_rules(start(workspace), &permissions.deny, Decision::Deny);
    let b = add_rules(b, &permissions.ask, Decision::Ask);
    let b = add_rules(b, &permissions.allow, Decision::Allow);
    b.build()
}

/// A builder for running one tool by hand: the baseline, and every command asks.
pub open spec fn single_tool(workspace: Seq<char>) -> BuilderModel {
    builder_with(workspace_builder(workspace), "command(*)"@, Decision::Ask, Scope::User)
}

/// The policy for running one tool by hand.
pub fn tool_policy(workspace: &str) -> (r: (Policy, Vec<PermissionError>))
    ensures
        r.0.deep_view() == built(single_tool(workspace@)),
        r.1.deep_view() == single_tool(workspace@).errors,
{
    start(workspace).ask("command(*)", Scope::User).build()
}

/// What is said when no tool has a name.
pub open spec fn no_tool_text(name: Seq<char>, names: Seq<Seq<char>>) -> Seq<char> {
    "no tool named "@ + quoted_of(name) + ". Available: "@ + join_of(names, ", "@)
}

/// What is said when no tool has a name: which ones there are.
pub fn no_tool(name: &str, names: &Vec<String>) -> (r: String)
    ensures
        r@ == no_tool_text(name@, names.deep_view()),
{
    let mut r = "no tool named ".to_owned();
    r.push_str(&quoted(name));
    r.push_str(". Available: ");
    r.push_str(&join(names, ", "));
    r
}

/// A scope's name in a diagnostic.
pub open spec fn scope_text(scope: Scope) -> Seq<char> {
    match scope {
        Scope::Managed => "Managed"@,
        Scope::User => "User"@,
        Scope::Project => "Project"@,
        Scope::Session => "Session"@,
    }
}

/// A mode's name in a diagnostic.
pub open spec fn mode_text(mode: PermissionMode) -> Seq<char> {
    match mode {
        PermissionMode::Default => "Default"@,
        PermissionMode::AcceptEdits => "AcceptEdits"@,
        PermissionMode::Plan => "Plan"@,
        PermissionMode::Bypass => "Bypass"@,
    }
}

/// A reason in a diagnostic.
pub open spec fn reason_text(reason: ReasonModel) -> Seq<char> {
    match reason {
        ReasonModel::Rule { source, scope } => "Rule { source: "@ + quoted_of(source) + ", scope: "@
            + scope_text(scope) + " }"@,
        ReasonModel::WorkspaceDefault => "WorkspaceDefault"@,
        ReasonModel::Mode(mode) => "Mode("@ + mode_text(mode) + ")"@,
        ReasonModel::ActionDefault => "ActionDefault"@,
        ReasonModel::ExistingGrant { source } => "ExistingGrant { source: "@ + quoted_of(source)
            + " }"@,
    }
}

fn describe_scope(scope: Scope) -> (r: &'static str)
    ensures
        r@ == scope_text(scope),
{
    match scope {
        Scope::Managed => "Managed",
        Scope::User => "User",
        Scope::Project => "Project",
        Scope::Session => "Session",
    }
}

fn describe_mode(mode: PermissionMode) -> (r: &'static str)
    ensures
        r@ == mode_text(mode),
{
    match mode {
        PermissionMode::Default => "Default",
        PermissionMode::AcceptEdits => "AcceptEdits",
        PermissionMode::Plan => "Plan",
        PermissionMode::Bypass => "Bypass",
    }
}

/// Says why a decision was reached.
pub fn describe_reason(reason: &Reason) -> (r: String)
    ensures
        r@ == reason_text(reason.deep_view()),
{
    match reason {
        Reason::Rule { source, scope } => {
            let mut r = "Rule { source: ".to_owned();
            r.push_str(&quoted(source));
            r.push_str(", scope: ");
            r.push_str(describe_scope(*scope));
            r.push_str(" }");
            r
        },
        Reason::WorkspaceDefault => "WorkspaceDefault".to_owned(),
        Reason::Mode(mode) => {
            let mut r = "Mode(".to_owned();
            r.push_str(describe_mode(*mode));
            r.push_str(")");
            r
        },
        Reason::ActionDefault => "ActionDefault".to_owned(),
        Reason::ExistingGrant { source } => {
            let mut r = "ExistingGrant { source: ".to_owned();
            r.push_str(&quoted(source));
            r.push_str(" }");
            r
        },
    }
}

/// What stands in the way of one resource, where nobody can be asked.
pub open spec fn refusal_of(verdict: VerdictModel, resource: Seq<char>) -> Option<Seq<char>> {
    match verdict.decision {
        Decision::Allow => None,
        Decision::Deny => Some(
            "denied: "@ + resource + " ("@ + reason_text(verdict.reason) + ")"@,
        ),
        Decision::Ask => Some(
            resource
                + " needs approval, and this subcommand cannot prompt. Add an allow rule, or re-run with --mode accept-edits for file writes."@,
        ),
    }
}

/// What stands in the way of a tool: the first of its resources that is not allowed.
/// A resource that cannot be read is passed over.
pub open spec fn gate_of(
    policy: PolicyModel,
    mode: PermissionMode,
    resources: Seq<Seq<char>>,
) -> Option<Seq<char>>
    decreases resources.len(),
{
    if resources.len() == 0 {
        None
    } else {
        let rest = gate_of(policy, mode, resources.drop_first());
        match resource_read(resources[0]) {
            Err(_) => rest,
            Ok(resource) => match refusal_of(
                evaluated(policy, resource, mode),
                resource_text(resource),
            ) {
                Some(refusal) => Some(refusal),
                None => rest,
            },
        }
    }
}

/// What stands in the way of running a tool by hand. Every resource is resolved
/// before anything runs.
pub fn gate(policy: &Policy, mode: PermissionMode, resources: &Vec<String>) -> (r: Option<String>)
    ensures
        crate::text::text_of(r) == gate_of(policy.deep_view(), mode, resources.deep_view()),
{
    let ghost all = resources.deep_view();
    let ghost whole = gate_of(policy.deep_view(), mode, all);
    let mut i: usize = 0;
    assert(all.skip(0) =~= all);
    while i < resources.len()
        invariant
            i <= resources@.len(),
            all == resources.deep_view(),
            whole == gate_of(policy.deep_view(), mode, all),
            whole == gate_of(policy.deep_view(), mode, all.skip(i as int)),
        decreases resources@.len() - i,
    {
        assert(all.skip(i as int)[0] == resources@[i as int]@);
        assert(all.skip(i as int).drop_first() =~= all.skip(i + 1));
        match Resource::parse(&resources[i]) {
            Err(_) => {},
            Ok(resource) => {
                let verdict = policy.evaluate(&resource, mode);
                match verdict.decision {
                    Decision::Allow => {},
                    Decision::Deny => {
                        let mut r = "denied: ".to_owned();
                        r.push_str(&resource.to_string());
                        r.push_str(" (");
                        r.push_str(&describe_reason(&verdict.reason));
                        r.push_str(")");
                        return Some(r);
                    },
                    Decision::Ask => {
                        let mut r = resource.to_string();
                        r.push_str(
                            " needs approval, and this subcommand cannot prompt. Add an allow rule, or re-run with --mode accept-edits for file writes.",
                        );
                        return Some(r);
                    },
                }
            },
        }
        i += 1;
    }
    assert(all.skip(i as int).len() == 0);
    None
}

/// Nothing stands in the way only if every resource that can be read is allowed.
pub proof fn law_only_allowed_resources_pass(
    policy: PolicyModel,
    mode: PermissionMode,
    resources: Seq<Seq<char>>,
    i: int,
)
    requires
        gate_of(policy, mode, resources) is None,
        0 <= i < resources.len(),
        resource_read(resources[i]) is Ok,
    ensures
        evaluated(policy, resource_read(resources[i])->Ok_0, mode).decision == Decision::Allow,
    decreases resources.len(),
{
    if i > 0 {
        assert(resources.drop_first()[i - 1] == resources[i]);
        law_only_allowed_resources_pass(policy, mode, resources.drop_first(), i - 1);
    }
}

/// The configured rules never take a denial of the baseline away: every rule of the
/// baseline is a rule of the session's policy.
pub proof fn law_the_baseline_stays(workspace: Seq<char>, permissions: PermissionsModel)
    ensures
        workspace_builder(workspace).rules.is_prefix_of(configured(workspace, permissions).rules),
{
    let base = workspace_builder(workspace);
    let denied = with_rules(base, permissions.deny, Decision::Deny, Scope::Project);
    let asked = with_rules(denied, permissions.ask, Decision::Ask, Scope::Project);
    lemma_rules_stay(base, permissions.deny, Decision::Deny);
    lemma_rules_stay(denied, permissions.ask, Decision::Ask);
    lemma_rules_stay(asked, permissions.allow, Decision::Allow);
    let n = base.rules.len() as int;
    assert(denied.rules.subrange(0, n) =~= asked.rules.subrange(0, denied.rules.len() as int).subrange(0, n));
    let last = configured(workspace, permissions).rules;
    assert(base.rules =~= last.subrange(0, n)) by {
        assert(asked.rules =~= last.subrange(0, asked.rules.len() as int));
        assert(denied.rules =~= asked.rules.subrange(0, denied.rules.len() as int));
        assert forall|i: int| 0 <= i < n implies base.rules[i] == last[i] by {
            assert(base.rules[i] == denied.rules.subrange(0, n)[i]);
            assert(denied.rules[i] == asked.rules.subrange(0, denied.rules.len() as int)[i]);
            assert(asked.rules[i] == last.subrange(0, asked.rules.len() as int)[i]);
        }
    }
}

/// Whatever is configured, and whatever is granted later, a session never writes
/// `.git` or `.octane` of its workspace or anything below them, and never reads its
/// `.env`, in any mode.
pub proof fn law_the_workspace_is_shielded(
    workspace: Seq<char>,
    permissions: PermissionsModel,
    granted: Seq<RuleModel>,
    target: Seq<char>,
    mode: PermissionMode,
)
    ensures
        ({
            let policy = built(configured(workspace, permissions));
            let later = PolicyModel { rules: policy.rules + granted, ..policy };
            let write = ResourceModel { action: Action::WriteFile, target };
            let read = ResourceModel { action: Action::ReadFile, target };
            &&& within(joined(workspace, ".git"@), target) || within(
                joined(workspace, ".octane"@),
                target,
            ) ==> evaluated(later, write, mode).decision == Decision::Deny
            &&& within(joined(workspace, ".env"@), target) ==> evaluated(later, read, mode).decision
                == Decision::Deny
        }),
{
    let base = workspace_builder(workspace);
    let denied = with_rules(base, permissions.deny, Decision::Deny, Scope::Project);
    let asked = with_rules(denied, permissions.ask, Decision::Ask, Scope::Project);
    lemma_rules_stay(base, permissions.deny, Decision::Deny);
    lemma_rules_stay(denied, permissions.ask, Decision::Ask);
    lemma_rules_stay(asked, permissions.allow, Decision::Allow);
    law_baseline_adds_four_denials(
        BuilderModel { workspace_roots: seq![workspace], ..builder_empty() },
    );
    assert(seq![workspace][0] == workspace);
    law_the_baseline_shields_every_root(
        configured(workspace, permissions),
        granted,
        0,
        target,
        mode,
    );
}

proof fn lemma_rules_stay(b: BuilderModel, patterns: Seq<Seq<char>>, decision: Decision)
    ensures
        b.rules.is_prefix_of(with_rules(b, patterns, decision, Scope::Project).rules),
        with_rules(b, patterns, decision, Scope::Project).baseline == b.baseline,
        with_rules(b, patterns, decision, Scope::Project).workspace_roots == b.workspace_roots,
    decreases patterns.len(),
{
    let after = with_rules(b, patterns, decision, Scope::Project).rules;
    if patterns.len() > 0 {
        lemma_rules_stay(b, patterns.drop_last(), decision);
        let before = with_rules(b, patterns.drop_last(), decision, Scope::Project).rules;
        assert forall|i: int| 0 <= i < b.rules.len() implies b.rules[i] == after[i] by {
            assert(b.rules[i] == before.subrange(0, b.rules.len() as int)[i]);
        }
    }
    assert(b.rules =~= after.subrange(0, b.rules.len() as int));
}

} // verus!
