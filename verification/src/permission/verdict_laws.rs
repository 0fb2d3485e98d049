//! What holds of verdicts: what decides, in which order, and what a grant changes.

use vstd::prelude::*;

use crate::paths::within;
use crate::permission::laws::{law_cited, law_grant_found, law_text_round_trip};
use crate::permission::matcher::{compiled, covers, remembered};
use crate::permission::mode::PermissionMode;
use crate::permission::policy::{
    all_shields_of, builder_with, built, cited, decides, evaluated, grant_of, grant_rule, grants_of,
    is_grant, rank, with_implied, BuilderModel, Decision, PolicyModel, ReasonModel, RuleModel,
    Scope,
};
use crate::permission::resource::{action_name, resource_read, Action, ResourceModel};

verus! {

/// Whether rule `i` says `decision` of a resource: it is a rule for the resource's action
/// and its pattern covers the target.
pub open spec fn says_of(
    rules: Seq<RuleModel>,
    i: int,
    resource: ResourceModel,
    decision: Decision,
) -> bool {
    &&& 0 <= i < rules.len()
    &&& rules[i].decision == decision
    &&& rules[i].action == resource.action
    &&& covers(rules[i].matcher, resource.target)
}

/// Whether some rule says `decision` of a resource.
pub open spec fn said(rules: Seq<RuleModel>, resource: ResourceModel, decision: Decision) -> bool {
    exists|i: int| #[trigger] says_of(rules, i, resource, decision)
}

/// Whether the user said yes to a resource in this session.
pub open spec fn said_yes(rules: Seq<RuleModel>, resource: ResourceModel) -> bool {
    exists|i: int| #[trigger]
        says_of(rules, i, resource, Decision::Allow) && rules[i].scope == Scope::Session
}

/// Whether a resource is a file that lies in a directory of the workspace.
pub open spec fn is_workspace_file(roots: Seq<Seq<char>>, resource: ResourceModel) -> bool {
    &&& resource.action == Action::ReadFile || resource.action == Action::WriteFile
    &&& exists|i: int| 0 <= i < roots.len() && within(#[trigger] roots[i], resource.target)
}

/// What a mode decides by itself: plan mode refuses what changes something, accepting
/// edits allows files, and bypassing allows everything.
pub open spec fn mode_says(mode: PermissionMode, action: Action) -> Option<Decision> {
    if mode == PermissionMode::Bypass {
        Some(Decision::Allow)
    } else if mode == PermissionMode::AcceptEdits && (action == Action::ReadFile || action
        == Action::WriteFile) {
        Some(Decision::Allow)
    } else if mode == PermissionMode::Plan && (action == Action::WriteFile || action
        == Action::Command || action == Action::ExecuteUrl || action == Action::Unsandboxed) {
        Some(Decision::Deny)
    } else {
        None
    }
}

proof fn lemma_said(rules: Seq<RuleModel>, resource: ResourceModel, decision: Decision)
    ensures
        cited(rules, resource, decision) is Some <==> said(rules, resource, decision),
        cited(rules, resource, decision) matches Some(rule) ==> exists|i: int| #[trigger]
            says_of(rules, i, resource, decision) && rules[i] == rule,
{
    law_cited(rules, resource, decision);
    if said(rules, resource, decision) {
        let i = choose|i: int| #[trigger] says_of(rules, i, resource, decision);
        assert(decides(rules[i], resource, decision));
    }
    if let Some(rule) = cited(rules, resource, decision) {
        let k = choose|k: int| 0 <= k < rules.len() && rules[k] == rule;
        assert(says_of(rules, k, resource, decision));
    }
}

proof fn lemma_said_yes(rules: Seq<RuleModel>, resource: ResourceModel)
    ensures
        grant_of(rules, resource) is Some <==> said_yes(rules, resource),
        grant_of(rules, resource) matches Some(rule) ==> exists|i: int| #[trigger]
            says_of(rules, i, resource, Decision::Allow) && rules[i].scope == Scope::Session
                && rules[i] == rule,
    decreases rules.len(),
{
    law_grant_found(rules, resource);
    if said_yes(rules, resource) {
        let i = choose|i: int| #[trigger]
            says_of(rules, i, resource, Decision::Allow) && rules[i].scope == Scope::Session;
        assert(is_grant(rules[i], resource));
    }
    if rules.len() > 0 {
        if is_grant(rules[0], resource) {
            assert(says_of(rules, 0, resource, Decision::Allow));
        } else {
            let rest = rules.drop_first();
            lemma_said_yes(rest, resource);
            if let Some(rule) = grant_of(rest, resource) {
                let i = choose|i: int| #[trigger]
                    says_of(rest, i, resource, Decision::Allow) && rest[i].scope == Scope::Session
                        && rest[i] == rule;
                assert(says_of(rules, i + 1, resource, Decision::Allow));
            }
        }
    }
}

/// What is decided about a resource: a denial is final; then the mode decides, where it
/// decides at all; then a yes of this session; then a rule to ask; then a rule to allow;
/// then the workspace, for files inside one of its directories and for no others; and
/// whatever is left is asked about.
pub proof fn law_what_is_decided(policy: PolicyModel, resource: ResourceModel, mode: PermissionMode)
    ensures
        evaluated(policy, resource, mode).decision == (if said(
            policy.rules,
            resource,
            Decision::Deny,
        ) {
            Decision::Deny
        } else if mode_says(mode, resource.action) is Some {
            mode_says(mode, resource.action)->0
        } else if said_yes(policy.rules, resource) {
            Decision::Allow
        } else if said(policy.rules, resource, Decision::Ask) {
            Decision::Ask
        } else if said(policy.rules, resource, Decision::Allow) {
            Decision::Allow
        } else if is_workspace_file(policy.workspace_roots, resource) {
            Decision::Allow
        } else {
            Decision::Ask
        }),
{
    lemma_said(policy.rules, resource, Decision::Deny);
    lemma_said(policy.rules, resource, Decision::Ask);
    lemma_said(policy.rules, resource, Decision::Allow);
    lemma_said_yes(policy.rules, resource);
}

/// A file outside every directory of the workspace is never allowed for lying in it:
/// where no rule speaks of it and the mode decides nothing, it is asked about, however
/// many directories the workspace has.
pub proof fn law_outside_the_workspace_is_asked(
    policy: PolicyModel,
    resource: ResourceModel,
    mode: PermissionMode,
)
    requires
        forall|i: int|
            0 <= i < policy.rules.len() ==> (#[trigger] policy.rules[i]).action != resource.action
                || !covers(policy.rules[i].matcher, resource.target),
        mode == PermissionMode::Default || mode == PermissionMode::Plan && resource.action
            == Action::ReadFile,
        forall|i: int|
            0 <= i < policy.workspace_roots.len() ==> !within(
                #[trigger] policy.workspace_roots[i],
                resource.target,
            ),
    ensures
        evaluated(policy, resource, mode).decision == Decision::Ask,
        evaluated(policy, resource, mode).reason == ReasonModel::ActionDefault,
{
    law_what_is_decided(policy, resource, mode);
    law_why_it_is_decided(policy, resource, mode);
    assert forall|i: int, decision: Decision| !(#[trigger] says_of(
        policy.rules,
        i,
        resource,
        decision,
    )) by {}
}

/// Why it is decided: the reason names the one thing that decided. A rule that is named
/// is one that says so of the resource, and none of a narrower scope does.
pub proof fn law_why_it_is_decided(
    policy: PolicyModel,
    resource: ResourceModel,
    mode: PermissionMode,
)
    ensures
        ({
            let rules = policy.rules;
            let verdict = evaluated(policy, resource, mode);
            let by_rule = |decision: Decision|
                exists|i: int| #[trigger]
                    says_of(rules, i, resource, decision) && verdict.reason == (ReasonModel::Rule {
                        source: rules[i].source,
                        scope: rules[i].scope,
                    }) && forall|j: int| #[trigger]
                        says_of(rules, j, resource, decision) ==> rank(rules[j].scope) <= rank(
                            rules[i].scope,
                        );
            if said(rules, resource, Decision::Deny) {
                by_rule(Decision::Deny)
            } else if mode_says(mode, resource.action) is Some {
                verdict.reason == ReasonModel::Mode(mode)
            } else if said_yes(rules, resource) {
                exists|i: int| #[trigger]
                    says_of(rules, i, resource, Decision::Allow) && rules[i].scope == Scope::Session
                        && verdict.reason == (ReasonModel::ExistingGrant {
                        source: rules[i].source,
                    })
            } else if said(rules, resource, Decision::Ask) {
                by_rule(Decision::Ask)
            } else if said(rules, resource, Decision::Allow) {
                by_rule(Decision::Allow)
            } else if is_workspace_file(policy.workspace_roots, resource) {
                verdict.reason == ReasonModel::WorkspaceDefault
            } else {
                verdict.reason == ReasonModel::ActionDefault
            }
        }),
{
    let rules = policy.rules;
    let verdict = evaluated(policy, resource, mode);
    lemma_said(rules, resource, Decision::Deny);
    lemma_said(rules, resource, Decision::Ask);
    lemma_said(rules, resource, Decision::Allow);
    lemma_said_yes(rules, resource);
    let decision = if said(rules, resource, Decision::Deny) {
        Decision::Deny
    } else if said(rules, resource, Decision::Ask) {
        Decision::Ask
    } else {
        Decision::Allow
    };
    if let Some(rule) = cited(rules, resource, decision) {
        law_cited(rules, resource, decision);
        let i = choose|i: int| #[trigger] says_of(rules, i, resource, decision) && rules[i] == rule;
        assert forall|j: int| #[trigger] says_of(rules, j, resource, decision) implies rank(
            rules[j].scope,
        ) <= rank(rules[i].scope) by {
            assert(decides(rules[j], resource, decision));
        }
        assert(says_of(rules, i, resource, decision));
    }
}

/// The narrower of two scopes ranks higher: a session's rule over a project's, that over
/// the user's, and that over the machine's.
pub proof fn law_scopes_narrow()
    ensures
        rank(Scope::Managed) < rank(Scope::User),
        rank(Scope::User) < rank(Scope::Project),
        rank(Scope::Project) < rank(Scope::Session),
{
}

proof fn lemma_cited_tail(
    rules: Seq<RuleModel>,
    more: Seq<RuleModel>,
    resource: ResourceModel,
    decision: Decision,
)
    requires
        forall|i: int|
            0 <= i < more.len() ==> !decides(#[trigger] more[i], resource, decision),
    ensures
        cited(rules + more, resource, decision) == cited(rules, resource, decision),
    decreases more.len(),
{
    if more.len() == 0 {
        assert(rules + more =~= rules);
    } else {
        let rest = more.drop_last();
        assert forall|i: int| 0 <= i < rest.len() implies !decides(
            #[trigger] rest[i],
            resource,
            decision,
        ) by {
            assert(rest[i] == more[i]);
        }
        lemma_cited_tail(rules, rest, resource, decision);
        assert((rules + more).drop_last() =~= rules + rest);
        assert((rules + more).last() == more[more.len() - 1]);
    }
}

proof fn lemma_grant_tail(rules: Seq<RuleModel>, more: Seq<RuleModel>, resource: ResourceModel)
    requires
        forall|i: int| 0 <= i < more.len() ==> !is_grant(#[trigger] more[i], resource),
    ensures
        grant_of(rules + more, resource) == grant_of(rules, resource),
    decreases rules.len() + more.len(),
{
    let all = rules + more;
    if rules.len() > 0 {
        assert(all[0] == rules[0]);
        assert(all.drop_first() =~= rules.drop_first() + more);
        lemma_grant_tail(rules.drop_first(), more, resource);
    } else if more.len() > 0 {
        assert(all =~= more);
        assert(!is_grant(more[0], resource));
        let rest = more.drop_first();
        assert forall|i: int| 0 <= i < rest.len() implies !is_grant(
            #[trigger] rest[i],
            resource,
        ) by {
            assert(rest[i] == more[i + 1]);
        }
        lemma_grant_tail(rules, rest, resource);
        assert(rules + rest =~= rest);
    } else {
        assert(all =~= rules);
    }
}

/// A yes is for what was asked and no more: the rules that a grant adds allow, for this
/// session, the resource and, for a write, the reading of the same file; about whatever
/// these do not cover the verdict is the same as before.
pub proof fn law_a_grant_changes_nothing_else(
    policy: PolicyModel,
    granted: ResourceModel,
    other: ResourceModel,
    mode: PermissionMode,
)
    requires
        !(other.action == granted.action && covers(
            remembered(granted.action, granted.target),
            other.target,
        )),
        !(granted.action == Action::WriteFile && other.action == Action::ReadFile && covers(
            remembered(Action::ReadFile, granted.target),
            other.target,
        )),
    ensures
        evaluated(
            PolicyModel {
                rules: policy.rules + grants_of(with_implied(granted)),
                workspace_roots: policy.workspace_roots,
            },
            other,
            mode,
        ) == evaluated(policy, other, mode),
{
    let more = grants_of(with_implied(granted));
    lemma_grants(granted);
    assert forall|i: int| 0 <= i < more.len() implies !covers(
        (#[trigger] more[i]).matcher,
        other.target,
    ) || more[i].action != other.action by {}
    lemma_cited_tail(policy.rules, more, other, Decision::Deny);
    lemma_cited_tail(policy.rules, more, other, Decision::Ask);
    lemma_cited_tail(policy.rules, more, other, Decision::Allow);
    lemma_grant_tail(policy.rules, more, other);
}

proof fn lemma_grants(granted: ResourceModel)
    ensures
        ({
            let more = grants_of(with_implied(granted));
            forall|i: int|
                0 <= i < more.len() ==> {
                    ||| (#[trigger] more[i]).action == granted.action && more[i].matcher
                        == remembered(granted.action, granted.target)
                    ||| granted.action == Action::WriteFile && more[i].action == Action::ReadFile
                        && more[i].matcher == remembered(Action::ReadFile, granted.target)
                }
        }),
{
    let all = with_implied(granted);
    let read = ResourceModel { action: Action::ReadFile, target: granted.target };
    lemma_grant_rule(granted);
    lemma_grant_rule(read);
    let rest = all.drop_first();
    assert(all[0] == granted);
    if granted.action == Action::WriteFile {
        assert(rest =~= seq![read]);
        assert(rest.drop_first() =~= Seq::<ResourceModel>::empty());
        assert(grants_of(Seq::<ResourceModel>::empty()).len() == 0);
    } else {
        assert(rest =~= Seq::<ResourceModel>::empty());
    }
    assert(grants_of(rest).len() <= 1);
}

proof fn lemma_grant_rule(r: ResourceModel)
    ensures
        grant_rule(r) matches Ok(rule) ==> rule.action == r.action && rule.matcher == remembered(
            r.action,
            r.target,
        ) && rule.decision == Decision::Allow && rule.scope == Scope::Session,
{
    if r.target.len() > 0 {
        law_text_round_trip(r);
    } else {
        crate::permission::laws::law_empty_target_is_refused(r.action);
        assert(r.target =~= Seq::<char>::empty());
    }
}

/// What a grant remembers: a write stands for the reading of the same file too, and
/// nothing else stands for anything but itself.
pub proof fn law_what_a_grant_implies(granted: ResourceModel)
    ensures
        with_implied(granted)[0] == granted,
        granted.action == Action::WriteFile ==> with_implied(granted) == seq![
            granted,
            ResourceModel { action: Action::ReadFile, target: granted.target },
        ],
        granted.action != Action::WriteFile ==> with_implied(granted).len() == 1,
{
}

/// A rule says what was written: the pattern `action(target)` under a decision becomes
/// the last rule, for that action and target, with that decision and scope and with the
/// pattern as its source, and is no error. A pattern that cannot be read is an error, the
/// reader's, and no rule.
pub proof fn law_a_rule_says_what_was_written(
    b: BuilderModel,
    resource: ResourceModel,
    decision: Decision,
    scope: Scope,
    broken: Seq<char>,
)
    requires
        resource.target.len() > 0,
        resource_read(broken) is Err,
    ensures
        ({
            let pattern = action_name(resource.action) + "("@ + resource.target + ")"@;
            let after = builder_with(b, pattern, decision, scope);
            &&& after.rules == b.rules.push(
                RuleModel {
                    action: resource.action,
                    decision,
                    scope,
                    matcher: compiled(resource.action, resource.target),
                    source: pattern,
                },
            )
            &&& after.errors == b.errors
            &&& after.workspace_roots == b.workspace_roots
            &&& after.baseline == b.baseline
        }),
        ({
            let after = builder_with(b, broken, decision, scope);
            &&& after.rules == b.rules
            &&& after.errors == b.errors.push(resource_read(broken)->Err_0)
            &&& after.workspace_roots == b.workspace_roots
            &&& after.baseline == b.baseline
        }),
{
    law_text_round_trip(resource);
}

/// A policy has every rule that its builder collected, in order and before any other, and
/// the directories the builder was given; without the baseline it has nothing more.
pub proof fn law_a_policy_has_its_rules(b: BuilderModel)
    ensures
        built(b).workspace_roots == b.workspace_roots,
        b.rules.is_prefix_of(built(b).rules),
        !b.baseline ==> built(b).rules == b.rules,
        forall|i: int|
            b.rules.len() <= i < built(b).rules.len() ==> {
                &&& (#[trigger] built(b).rules[i]).decision == Decision::Deny
                &&& built(b).rules[i].scope == Scope::Managed
                &&& built(b).rules[i].action == Action::WriteFile || built(b).rules[i].action
                    == Action::ReadFile
            },
{
    let rules = built(b).rules;
    assert(b.rules =~= rules.subrange(0, b.rules.len() as int));
    if b.baseline {
        lemma_shields_deny(b.workspace_roots);
        let shields = all_shields_of(b.workspace_roots);
        assert forall|i: int| b.rules.len() <= i < rules.len() implies {
            &&& (#[trigger] rules[i]).decision == Decision::Deny
            &&& rules[i].scope == Scope::Managed
            &&& rules[i].action == Action::WriteFile || rules[i].action == Action::ReadFile
        } by {
            assert(rules[i] == shields[i - b.rules.len()]);
        }
    }
}

proof fn lemma_shields_deny(roots: Seq<Seq<char>>)
    ensures
        forall|i: int|
            0 <= i < all_shields_of(roots).len() ==> {
                let rule = #[trigger] all_shields_of(roots)[i];
                &&& rule.decision == Decision::Deny
                &&& rule.scope == Scope::Managed
                &&& rule.action == Action::WriteFile || rule.action == Action::ReadFile
            },
    decreases roots.len(),
{
    if roots.len() > 0 {
        lemma_shields_deny(roots.drop_last());
    }
}

} // verus!
