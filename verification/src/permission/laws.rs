//! What holds of the policy engine as a whole.

use vstd::prelude::*;

use crate::paths::{components_of, joined, within};
use crate::permission::matcher::{
    authority_of, covers, host_of, normalized, remembered, MatcherModel,
};
use crate::permission::mode::{cycle_of, forced, mutates, PermissionMode};
use crate::permission::policy::{
    all_shields_of, applies, built, cited, decides, evaluated, grant_error, grant_of, grant_rule,
    grants_of, is_grant, rank, shields_of, with_baseline, with_implied, BuilderModel, Decision,
    PolicyModel, ReasonModel, RuleModel, Scope,
};
use crate::permission::resource::{
    action_name, action_named, implied_of, resource_read, resource_text, Action, ResourceModel,
};
use crate::permission::PermissionErrorModel;
use crate::text::{
    after_last_of, before_of, find_of, is_white, lemma_find, lemma_find_unique, lowercase_of,
    strip_all_of, trim_end_of, trim_of, trim_start_of, words_of,
};

verus! {

/// Whether one of `rules` decides `decision` about `resource`.
pub open spec fn some_decides(
    rules: Seq<RuleModel>,
    resource: ResourceModel,
    decision: Decision,
) -> bool {
    exists|i: int| 0 <= i < rules.len() && decides(#[trigger] rules[i], resource, decision)
}

/// A rule is cited for a decision exactly when one decides it, and the one cited
/// is among the rules, decides it, and is of the narrowest scope.
pub proof fn law_cited(rules: Seq<RuleModel>, resource: ResourceModel, decision: Decision)
    ensures
        cited(rules, resource, decision) is Some <==> some_decides(rules, resource, decision),
        cited(rules, resource, decision) matches Some(rule) ==> {
            &&& rules.contains(rule)
            &&& decides(rule, resource, decision)
            &&& forall|i: int|
                0 <= i < rules.len() && decides(#[trigger] rules[i], resource, decision) ==> rank(
                    rules[i].scope,
                ) <= rank(rule.scope)
        },
    decreases rules.len(),
{
    if rules.len() > 0 {
        let rest = rules.drop_last();
        law_cited(rest, resource, decision);
        assert forall|i: int| 0 <= i < rest.len() implies rest[i] == #[trigger] rules[i] by {}
        if some_decides(rest, resource, decision) {
            let i = choose|i: int|
                0 <= i < rest.len() && decides(#[trigger] rest[i], resource, decision);
            assert(decides(rules[i], resource, decision));
        }
        if some_decides(rules, resource, decision) {
            let i = choose|i: int|
                0 <= i < rules.len() && decides(#[trigger] rules[i], resource, decision);
            if i < rest.len() {
                assert(decides(rest[i], resource, decision));
            }
        }
        if cited(rules, resource, decision) is Some {
            let rule = cited(rules, resource, decision)->0;
            if cited(rest, resource, decision) is Some && rest.contains(
                cited(rest, resource, decision)->0,
            ) {
                let k = choose|k: int|
                    0 <= k < rest.len() && rest[k] == cited(rest, resource, decision)->0;
                assert(rules[k] == cited(rest, resource, decision)->0);
            }
            assert(rules[rules.len() - 1] == rules.last());
            assert(rules.contains(rule));
        }
    }
}

/// A grant of this session is found exactly when there is one.
pub proof fn law_grant_found(rules: Seq<RuleModel>, resource: ResourceModel)
    ensures
        grant_of(rules, resource) is Some <==> exists|i: int|
            0 <= i < rules.len() && is_grant(#[trigger] rules[i], resource),
    decreases rules.len(),
{
    if rules.len() > 0 {
        let rest = rules.drop_first();
        law_grant_found(rest, resource);
        assert forall|i: int| 0 <= i < rest.len() implies #[trigger] rest[i] == rules[i + 1] by {}
        if exists|i: int| 0 <= i < rules.len() && is_grant(#[trigger] rules[i], resource) {
            let i = choose|i: int| 0 <= i < rules.len() && is_grant(#[trigger] rules[i], resource);
            if i > 0 {
                assert(is_grant(rest[i - 1], resource));
            }
        }
        if exists|i: int| 0 <= i < rest.len() && is_grant(#[trigger] rest[i], resource) {
            let i = choose|i: int| 0 <= i < rest.len() && is_grant(#[trigger] rest[i], resource);
            assert(is_grant(rules[i + 1], resource));
        }
    }
}

/// A deny rule wins in every mode, over every other rule and every grant, and a
/// denial by rule comes from nothing else.
pub proof fn law_deny_wins(policy: PolicyModel, resource: ResourceModel, mode: PermissionMode)
    ensures
        some_decides(policy.rules, resource, Decision::Deny) ==> evaluated(
            policy,
            resource,
            mode,
        ).decision == Decision::Deny,
        evaluated(policy, resource, mode).decision == Decision::Deny ==> some_decides(
            policy.rules,
            resource,
            Decision::Deny,
        ) || (mode == PermissionMode::Plan && mutates(resource.action)),
{
    law_cited(policy.rules, resource, Decision::Deny);
}

/// No rule that is added later relaxes a denial.
pub proof fn law_denials_are_never_relaxed(
    policy: PolicyModel,
    more: Seq<RuleModel>,
    roots: Seq<Seq<char>>,
    resource: ResourceModel,
    later: PermissionMode,
)
    requires
        some_decides(policy.rules, resource, Decision::Deny),
    ensures
        evaluated(
            PolicyModel { rules: policy.rules + more, workspace_roots: roots },
            resource,
            later,
        ).decision == Decision::Deny,
{
    let i = choose|i: int|
        0 <= i < policy.rules.len() && decides(#[trigger] policy.rules[i], resource, Decision::Deny);
    let all = policy.rules + more;
    assert(decides(all[i], resource, Decision::Deny));
    law_deny_wins(PolicyModel { rules: all, workspace_roots: roots }, resource, later);
}

/// Plan mode refuses everything that mutates, whatever was allowed or granted.
pub proof fn law_plan_refuses_mutation(policy: PolicyModel, resource: ResourceModel)
    requires
        mutates(resource.action),
    ensures
        evaluated(policy, resource, PermissionMode::Plan).decision == Decision::Deny,
{
}

/// Bypass skips every prompt and no denial.
pub proof fn law_bypass_only_skips_prompts(policy: PolicyModel, resource: ResourceModel)
    ensures
        evaluated(policy, resource, PermissionMode::Bypass).decision == (if some_decides(
            policy.rules,
            resource,
            Decision::Deny,
        ) {
            Decision::Deny
        } else {
            Decision::Allow
        }),
{
    law_cited(policy.rules, resource, Decision::Deny);
}

/// A broad ask rule beats any allow rule: unless the resource was denied or
/// granted this session, or the mode decides, the user is asked.
pub proof fn law_ask_beats_allow(policy: PolicyModel, resource: ResourceModel, mode: PermissionMode)
    requires
        some_decides(policy.rules, resource, Decision::Ask),
        !some_decides(policy.rules, resource, Decision::Deny),
        forced(mode, resource.action) is None,
        forall|i: int|
            0 <= i < policy.rules.len() ==> !is_grant(#[trigger] policy.rules[i], resource),
    ensures
        evaluated(policy, resource, mode).decision == Decision::Ask,
{
    law_cited(policy.rules, resource, Decision::Deny);
    law_cited(policy.rules, resource, Decision::Ask);
    law_grant_found(policy.rules, resource);
}

/// A grant of this session outranks an ask rule, and yields to a denial and to
/// what the mode decides.
pub proof fn law_grant_outranks_ask(
    policy: PolicyModel,
    resource: ResourceModel,
    mode: PermissionMode,
)
    requires
        exists|i: int|
            0 <= i < policy.rules.len() && is_grant(#[trigger] policy.rules[i], resource),
    ensures
        evaluated(policy, resource, mode).decision == (if some_decides(
            policy.rules,
            resource,
            Decision::Deny,
        ) {
            Decision::Deny
        } else if forced(mode, resource.action) is Some {
            forced(mode, resource.action)->0
        } else {
            Decision::Allow
        }),
{
    law_cited(policy.rules, resource, Decision::Deny);
    law_grant_found(policy.rules, resource);
}

/// What no rule speaks of, the mode does not decide, and is no file of the
/// workspace, the user is asked about.
pub proof fn law_unmatched_is_asked(
    policy: PolicyModel,
    resource: ResourceModel,
    mode: PermissionMode,
)
    requires
        forall|i: int|
            0 <= i < policy.rules.len() ==> !applies(#[trigger] policy.rules[i], resource),
        forced(mode, resource.action) is None,
        !(resource.action is ReadFile || resource.action is WriteFile)
            || policy.workspace_roots.len() == 0,
    ensures
        evaluated(policy, resource, mode).decision == Decision::Ask,
        evaluated(policy, resource, mode).reason == ReasonModel::ActionDefault,
{
    law_cited(policy.rules, resource, Decision::Deny);
    law_cited(policy.rules, resource, Decision::Ask);
    law_cited(policy.rules, resource, Decision::Allow);
    law_grant_found(policy.rules, resource);
}

/// Cycling never reaches bypass, and three steps come back to where they began
/// from every other mode.
pub proof fn law_cycle(mode: PermissionMode)
    ensures
        cycle_of(mode) != PermissionMode::Bypass,
        mode != PermissionMode::Bypass ==> cycle_of(cycle_of(cycle_of(mode))) == mode,
        mode != PermissionMode::Bypass ==> cycle_of(mode) != mode,
        mode == PermissionMode::Default || mode == PermissionMode::Bypass ==> cycle_of(mode) == (
        if mode == PermissionMode::Default {
            PermissionMode::AcceptEdits
        } else {
            PermissionMode::Default
        }),
{
}

proof fn lemma_action_names(action: Action)
    ensures
        action_named(action_name(action)) == Some(action),
        action_name(action).len() > 0,
        forall|i: int|
            0 <= i < action_name(action).len() ==> (#[trigger] action_name(action)[i]) != '('
                && !is_white(action_name(action)[i]),
{
    reveal_strlit("read_file");
    reveal_strlit("write_file");
    reveal_strlit("read_url");
    reveal_strlit("execute_url");
    reveal_strlit("command");
    reveal_strlit("unsandboxed");
    reveal_strlit("mcp");
    assert("read_file"@.len() == 9);
    assert("write_file"@.len() == 10);
    assert("read_url"@.len() == 8);
    assert("execute_url"@.len() == 11);
    assert("command"@.len() == 7);
    assert("unsandboxed"@.len() == 11);
    assert("mcp"@.len() == 3);
    assert("execute_url"@[0] != "unsandboxed"@[0]);
}

/// What is written is read back: `action(target)` names the resource it was
/// written from, for every target but the empty one.
pub proof fn law_text_round_trip(r: ResourceModel)
    requires
        r.target.len() > 0,
    ensures
        resource_read(resource_text(r)) == Ok::<_, PermissionErrorModel>(r),
{
    lemma_action_names(r.action);
    reveal_strlit("(");
    reveal_strlit(")");
    let name = action_name(r.action);
    let s = resource_text(r);
    let n = name.len() as int;
    assert(s[n] == '(');
    assert forall|i: int| 0 <= i < n implies s[i] != '(' by {
        assert(s[i] == name[i]);
    }
    lemma_find_unique(s, '(', n);
    assert(s.take(n) =~= name);
    assert(trim_start_of(name) == name);
    assert(trim_end_of(name) == name);
    assert(s.subrange(n + 1, s.len() - 1) =~= r.target);
}

/// The empty target is not read back: it is refused.
pub proof fn law_empty_target_is_refused(action: Action)
    ensures
        resource_read(resource_text(ResourceModel { action, target: Seq::empty() })) == Err::<
            ResourceModel,
            _,
        >(
            PermissionErrorModel::MalformedRule {
                rule: resource_text(ResourceModel { action, target: Seq::empty() }),
                reason: "empty target"@,
            },
        ),
{
    let r = ResourceModel { action, target: Seq::<char>::empty() };
    lemma_action_names(action);
    reveal_strlit("(");
    reveal_strlit(")");
    let name = action_name(action);
    let s = resource_text(r);
    let n = name.len() as int;
    assert(s[n] == '(');
    assert forall|i: int| 0 <= i < n implies s[i] != '(' by {
        assert(s[i] == name[i]);
    }
    lemma_find_unique(s, '(', n);
    assert(s.take(n) =~= name);
    assert(trim_start_of(name) == name);
    assert(trim_end_of(name) == name);
}

/// Every action's name is read back as that action.
pub proof fn law_names_are_read_back(action: Action)
    ensures
        action_named(action_name(action)) == Some(action),
{
    lemma_action_names(action);
}

/// What is read is written back: where no white space stands around the action's
/// name, a resource that was read from a text is written as that text.
pub proof fn law_reading_then_writing(s: Seq<char>)
    requires
        resource_read(s) is Ok,
        trim_of(s.take(find_of(s, '('))) == s.take(find_of(s, '(')),
    ensures
        resource_text(resource_read(s)->Ok_0) == s,
{
    let open = find_of(s, '(');
    lemma_find(s, '(');
    reveal_strlit("(");
    reveal_strlit(")");
    let r = resource_read(s)->Ok_0;
    assert(action_name(r.action) == s.take(open));
    assert(resource_text(r) =~= s);
}

proof fn lemma_before(s: Seq<char>, c: char)
    ensures
        !before_of(s, c).contains(c),
        forall|x: char| before_of(s, c).contains(x) ==> s.contains(x),
{
    lemma_find(s, c);
    assert forall|x: char| before_of(s, c).contains(x) implies s.contains(x) by {
        let k = choose|k: int| 0 <= k < before_of(s, c).len() && before_of(s, c)[k] == x;
        assert(s[k] == x);
    }
}

proof fn lemma_after_last(s: Seq<char>, c: char)
    ensures
        !after_last_of(s, c).contains(c),
        forall|x: char| after_last_of(s, c).contains(x) ==> s.contains(x),
    decreases s.len(),
{
    if s.len() > 0 && s.last() != c {
        let rest = after_last_of(s.drop_last(), c);
        lemma_after_last(s.drop_last(), c);
        assert forall|x: char| after_last_of(s, c).contains(x) implies s.contains(x) && x != c by {
            let k = choose|k: int|
                0 <= k < after_last_of(s, c).len() && after_last_of(s, c)[k] == x;
            assert(after_last_of(s, c) == rest.push(s.last()));
            if k < rest.len() {
                assert(rest[k] == x);
                assert(rest.contains(x));
                assert(s.drop_last().contains(x));
                let m = choose|m: int| 0 <= m < s.len() - 1 && s.drop_last()[m] == x;
                assert(s[m] == x);
            } else {
                assert(s[s.len() - 1] == x);
            }
        }
    }
}

/// A host is a host and nothing else of a URL: neither a user, a port, a path, a
/// query nor a fragment is left in it.
pub proof fn law_a_host_is_only_a_host(target: Seq<char>)
    ensures
        !host_of(target).contains('@'),
        !host_of(target).contains(':'),
        !host_of(target).contains('/'),
        !host_of(target).contains('\\'),
        !host_of(target).contains('?'),
        !host_of(target).contains('#'),
{
    let lower = lowercase_of(trim_of(target));
    let bare = strip_all_of(strip_all_of(lower, "https://"@), "http://"@);
    let slash = before_of(bare, '/');
    let path = before_of(slash, '\\');
    let query = before_of(path, '?');
    lemma_before(bare, '/');
    lemma_before(slash, '\\');
    lemma_before(path, '?');
    lemma_before(query, '#');
    lemma_after_last(authority_of(bare), '@');
    lemma_before(after_last_of(authority_of(bare), '@'), ':');
}

/// A grant covers the target it was made on; a granted command covers exactly the
/// commands of the same words.
pub proof fn law_a_grant_covers_its_target(r: ResourceModel)
    ensures
        covers(remembered(r.action, r.target), r.target),
        r.action is Command || r.action is Unsandboxed ==> forall|other: Seq<char>|
            #[trigger] covers(remembered(r.action, r.target), other) <==> words_of(other)
                == words_of(r.target),
{
    if r.action is ReadFile || r.action is WriteFile {
        let c = components_of(normalized(r.target));
        assert(c.subrange(0, c.len() as int) =~= c);
    }
}

/// Answering yes is remembered: once a resource is granted, it is allowed for
/// the rest of the session unless a rule denies it or the mode decides; a granted
/// write is remembered for the read it implies as well.
pub proof fn law_a_grant_is_remembered(
    policy: PolicyModel,
    r: ResourceModel,
    asked: ResourceModel,
    mode: PermissionMode,
)
    requires
        r.target.len() > 0,
        with_implied(r).contains(asked),
    ensures
        grant_error(with_implied(r)) is None,
        ({
            let after = PolicyModel {
                rules: policy.rules + grants_of(with_implied(r)),
                workspace_roots: policy.workspace_roots,
            };
            evaluated(after, asked, mode).decision == (if some_decides(
                policy.rules,
                asked,
                Decision::Deny,
            ) {
                Decision::Deny
            } else if forced(mode, asked.action) is Some {
                forced(mode, asked.action)->0
            } else {
                Decision::Allow
            })
        }),
{
    let all = with_implied(r);
    law_text_round_trip(r);
    let read = ResourceModel { action: Action::ReadFile, target: r.target };
    law_text_round_trip(read);
    let first = RuleModel {
        action: r.action,
        decision: Decision::Allow,
        scope: Scope::Session,
        matcher: remembered(r.action, r.target),
        source: resource_text(r),
    };
    let second = RuleModel {
        action: Action::ReadFile,
        decision: Decision::Allow,
        scope: Scope::Session,
        matcher: remembered(Action::ReadFile, r.target),
        source: resource_text(read),
    };
    assert(grant_rule(r) == Ok::<_, PermissionErrorModel>(first));
    assert(all.drop_first() =~= implied_of(r));
    let nothing = Seq::<ResourceModel>::empty();
    assert(grants_of(nothing) == Seq::<RuleModel>::empty());
    assert(grant_error(nothing) is None);
    if r.action is WriteFile {
        assert(grant_rule(read) == Ok::<_, PermissionErrorModel>(second));
        assert(implied_of(r)[0] == read);
        assert(implied_of(r).drop_first() =~= nothing);
        assert(grants_of(implied_of(r)) =~= seq![second]);
        assert(grant_error(implied_of(r)) is None);
        assert(grants_of(all) =~= seq![first, second]);
    } else {
        assert(implied_of(r) == nothing);
        assert(grants_of(all) =~= seq![first]);
    }
    let added = grants_of(all);
    let rules = policy.rules + added;
    let after = PolicyModel { rules, workspace_roots: policy.workspace_roots };
    law_a_grant_covers_its_target(r);
    law_a_grant_covers_its_target(read);
    let k = choose|k: int| 0 <= k < all.len() && all[k] == asked;
    assert(added[k] == if k == 0 { first } else { second });
    assert(is_grant(added[k], asked));
    assert(rules[policy.rules.len() + k] == added[k]);
    assert(is_grant(rules[policy.rules.len() + k], asked));
    law_grant_outranks_ask(after, asked, mode);
    if some_decides(policy.rules, asked, Decision::Deny) {
        law_denials_are_never_relaxed(
            policy,
            added,
            policy.workspace_roots,
            asked,
            mode,
        );
    } else {
        assert forall|i: int| 0 <= i < rules.len() implies !decides(
            #[trigger] rules[i],
            asked,
            Decision::Deny,
        ) by {
            if i < policy.rules.len() {
                assert(rules[i] == policy.rules[i]);
            } else {
                assert(rules[i] == added[i - policy.rules.len()]);
            }
        }
    }
}

/// Containment in a subtree is transitive: what covers a directory covers all
/// that the directory covers.
pub proof fn law_subtrees_nest(a: Seq<char>, b: Seq<char>, c: Seq<char>)
    requires
        within(a, b),
        within(b, c),
    ensures
        within(a, c),
{
    let x = components_of(a);
    let y = components_of(b);
    let z = components_of(c);
    assert(x =~= z.subrange(0, x.len() as int)) by {
        assert forall|i: int| 0 <= i < x.len() implies x[i] == z[i] by {
            assert(x[i] == y.subrange(0, x.len() as int)[i]);
            assert(y[i] == z.subrange(0, y.len() as int)[i]);
        }
    }
}

/// A rule written with backslashes is the rule written with slashes.
pub proof fn law_separators_do_not_matter(path: Seq<char>)
    ensures
        normalized(path.map_values(|c: char| if c == '\\' { '/' } else { c })) == normalized(path),
{
    let once = path.map_values(|c: char| if c == '\\' { '/' } else { c });
    assert(once.map_values(|c: char| if c == '\\' { '/' } else { c }) =~= once);
}

/// A command pattern never covers a command of another number of tokens.
pub proof fn law_arity_must_agree(tokens: Seq<Seq<char>>, command: Seq<char>)
    requires
        tokens.len() != words_of(command).len(),
    ensures
        !covers(MatcherModel::CommandTokens(tokens), command),
{
}

proof fn lemma_literal_rule(pattern: Seq<char>, action: Action, target: Seq<char>)
    requires
        pattern == resource_text(ResourceModel { action, target }),
        target.len() > 0,
    ensures
        resource_read(pattern) == Ok::<_, PermissionErrorModel>(ResourceModel { action, target }),
{
    law_text_round_trip(ResourceModel { action, target });
}

/// The baseline denials are well formed: they add four deny rules to what a
/// builder holds, and no error.
pub proof fn law_baseline_adds_four_denials(b: BuilderModel)
    ensures
        with_baseline(b).errors == b.errors,
        with_baseline(b).workspace_roots == b.workspace_roots,
        with_baseline(b).baseline,
        with_baseline(b).rules.len() == b.rules.len() + 4,
        with_baseline(b).rules.take(b.rules.len() as int) == b.rules,
        forall|i: int|
            b.rules.len() <= i < b.rules.len() + 4 ==> {
                &&& (#[trigger] with_baseline(b).rules[i]).decision == Decision::Deny
                &&& with_baseline(b).rules[i].scope == Scope::Managed
            },
{
    reveal_strlit("write_file(.git/)");
    reveal_strlit("write_file(.octane/)");
    reveal_strlit("read_file(.env)");
    reveal_strlit("command(sudo)");
    reveal_strlit(".git/");
    reveal_strlit(".octane/");
    reveal_strlit(".env");
    reveal_strlit("sudo");
    reveal_strlit("write_file");
    reveal_strlit("read_file");
    reveal_strlit("command");
    reveal_strlit("(");
    reveal_strlit(")");
    assert("write_file(.git/)"@ =~= "write_file"@ + "("@ + ".git/"@ + ")"@);
    assert("write_file(.octane/)"@ =~= "write_file"@ + "("@ + ".octane/"@ + ")"@);
    assert("read_file(.env)"@ =~= "read_file"@ + "("@ + ".env"@ + ")"@);
    assert("command(sudo)"@ =~= "command"@ + "("@ + "sudo"@ + ")"@);
    lemma_literal_rule("write_file(.git/)"@, Action::WriteFile, ".git/"@);
    lemma_literal_rule("write_file(.octane/)"@, Action::WriteFile, ".octane/"@);
    lemma_literal_rule("read_file(.env)"@, Action::ReadFile, ".env"@);
    lemma_literal_rule("command(sudo)"@, Action::Command, "sudo"@);
    assert(with_baseline(b).rules.take(b.rules.len() as int) =~= b.rules);
}

proof fn lemma_shields(roots: Seq<Seq<char>>, i: int, k: int)
    requires
        0 <= i < roots.len(),
        0 <= k < 3,
    ensures
        all_shields_of(roots).contains(shields_of(roots[i])[k]),
    decreases roots.len(),
{
    let rest = all_shields_of(roots.drop_last());
    let all = all_shields_of(roots);
    let rule = shields_of(roots[i])[k];
    if i == roots.len() - 1 {
        assert(all[rest.len() + k] == rule);
    } else {
        lemma_shields(roots.drop_last(), i, k);
        let m = choose|m: int| 0 <= m < rest.len() && rest[m] == rule;
        assert(all[m] == rule);
    }
}

/// The baseline holds below every directory of the workspace: in every mode, and
/// whatever else was allowed or granted, writing `.git` or `.octane` or anything
/// below them is denied, and so is reading `.env`.
pub proof fn law_the_baseline_shields_every_root(
    b: BuilderModel,
    more: Seq<RuleModel>,
    i: int,
    target: Seq<char>,
    mode: PermissionMode,
)
    requires
        b.baseline,
        0 <= i < b.workspace_roots.len(),
    ensures
        ({
            let root = b.workspace_roots[i];
            let policy = PolicyModel { rules: built(b).rules + more, ..built(b) };
            let write = ResourceModel { action: Action::WriteFile, target };
            let read = ResourceModel { action: Action::ReadFile, target };
            &&& within(joined(root, ".git"@), target) ==> evaluated(policy, write, mode).decision
                == Decision::Deny
            &&& within(joined(root, ".octane"@), target) ==> evaluated(policy, write, mode).decision
                == Decision::Deny
            &&& within(joined(root, ".env"@), target) ==> evaluated(policy, read, mode).decision
                == Decision::Deny
        }),
{
    let root = b.workspace_roots[i];
    let rules = built(b).rules;
    let shields = all_shields_of(b.workspace_roots);
    let names = seq![".git"@, ".octane"@, ".env"@];
    assert forall|k: int| 0 <= k < 3 && within(joined(root, #[trigger] names[k]), target)
        implies evaluated(
        PolicyModel { rules: rules + more, ..built(b) },
        ResourceModel { action: shields_of(root)[k].action, target },
        mode,
    ).decision == Decision::Deny by {
        lemma_shields(b.workspace_roots, i, k);
        let m = choose|m: int| 0 <= m < shields.len() && shields[m] == shields_of(root)[k];
        let resource = ResourceModel { action: shields_of(root)[k].action, target };
        assert(rules[b.rules.len() + m] == shields_of(root)[k]);
        assert(decides(rules[b.rules.len() + m], resource, Decision::Deny));
        law_denials_are_never_relaxed(built(b), more, b.workspace_roots, resource, mode);
    }
    assert(names[0] == ".git"@ && names[1] == ".octane"@ && names[2] == ".env"@);
}

/// What is no resource: a text without an opening bracket, one that does not end in a closing
/// one, and one whose action there is not. Each is refused for its own reason.
pub proof fn law_what_is_no_resource(text: Seq<char>, name: Seq<char>, target: Seq<char>)
    requires
        forall|i: int| 0 <= i < name.len() ==> name[i] != '(',
    ensures
        resource_read(name) == Err::<ResourceModel, _>(
            PermissionErrorModel::MalformedRule { rule: name, reason: "expected action(target)"@ },
        ),
        target.len() > 0 && target.last() != ')' ==> resource_read(name + seq!['('] + target)
            == Err::<ResourceModel, _>(
            PermissionErrorModel::MalformedRule {
                rule: name + seq!['('] + target,
                reason: "missing closing parenthesis"@,
            },
        ),
        action_named(trim_of(name)) is None ==> resource_read(
            name + seq!['('] + target + seq![')'],
        ) == Err::<ResourceModel, _>(PermissionErrorModel::UnknownAction(trim_of(name))),
        action_named(trim_of(name)) is Some && target.len() > 0 ==> resource_read(
            name + seq!['('] + target + seq![')'],
        ) == Ok::<_, PermissionErrorModel>(
            ResourceModel { action: action_named(trim_of(name))->0, target },
        ),
{
    lemma_find_unique(name, '(', name.len() as int);
    let open = name + seq!['('] + target;
    lemma_find_unique(open, '(', name.len() as int);
    if target.len() > 0 {
        assert(open.last() == target.last());
    }
    let whole = name + seq!['('] + target + seq![')'];
    lemma_find_unique(whole, '(', name.len() as int);
    assert(whole.take(name.len() as int) =~= name);
    assert(whole.subrange(name.len() as int + 1, whole.len() - 1) =~= target);
    assert(whole.last() == ')');
}

} // verus!
