//! Rule sets and evaluation.

use vstd::prelude::*;

use crate::paths;
use crate::paths::{joined, within};
use crate::permission::matcher::{compiled, covers, remembered, MatcherModel, RuleMatcher};
use crate::permission::mode::{forced, PermissionMode};
use crate::permission::resource::{
    implied_of, resource_read, resource_text, Action, Resource, ResourceModel,
};
use crate::permission::{PermissionError, PermissionErrorModel};

verus! {

/// What becomes of an operation, least severe first.
#[derive(Debug, Clone, Copy, PartialEq, Eq, Structural, PartialOrd, Ord)]
pub enum Decision {
    /// Approved without asking.
    Allow,
    /// Pause and ask the user.
    Ask,
    /// Refused outright, and never put to the user.
    Deny,
}

/// Where a rule came from, least specific first. Scope does not override severity.
#[derive(Debug, Clone, Copy, PartialEq, Eq, Structural, PartialOrd, Ord)]
pub enum Scope {
    /// Managed for the machine. Cannot be relaxed by the others.
    Managed,
    /// The user's settings.
    User,
    /// The project's settings.
    Project,
    /// Granted interactively during this session.
    Session,
}

/// How specific a scope is.
pub open spec fn rank(scope: Scope) -> int {
    match scope {
        Scope::Managed => 0,
        Scope::User => 1,
        Scope::Project => 2,
        Scope::Session => 3,
    }
}

fn rank_of(scope: Scope) -> (r: u8)
    ensures
        r == rank(scope),
{
    match scope {
        Scope::Managed => 0,
        Scope::User => 1,
        Scope::Project => 2,
        Scope::Session => 3,
    }
}

/// One rule: what it decides, about what, and where it was written.
#[derive(Debug)]
pub struct Rule {
    pub action: Action,
    pub decision: Decision,
    pub scope: Scope,
    matcher: RuleMatcher,
    source: String,
}

/// What a [`Rule`] is.
pub struct RuleModel {
    pub action: Action,
    pub decision: Decision,
    pub scope: Scope,
    pub matcher: MatcherModel,
    pub source: Seq<char>,
}

impl DeepView for Rule {
    type V = RuleModel;

    closed spec fn deep_view(&self) -> RuleModel {
        RuleModel {
            action: self.action,
            decision: self.decision,
            scope: self.scope,
            matcher: self.matcher.deep_view(),
            source: self.source@,
        }
    }
}

/// The rule that a pattern reads as.
pub open spec fn rule_read(pattern: Seq<char>, decision: Decision, scope: Scope) -> Result<
    RuleModel,
    PermissionErrorModel,
> {
    match resource_read(pattern) {
        Ok(parsed) => Ok(
            RuleModel {
                action: parsed.action,
                decision,
                scope,
                matcher: compiled(parsed.action, parsed.target),
                source: pattern,
            },
        ),
        Err(error) => Err(error),
    }
}

/// Whether a rule speaks of a resource.
pub open spec fn applies(rule: RuleModel, resource: ResourceModel) -> bool {
    rule.action == resource.action && covers(rule.matcher, resource.target)
}

impl Rule {
    /// Reads a rule from `action(pattern)`.
    pub fn new(resource_pattern: &str, decision: Decision, scope: Scope) -> (r: Result<
        Self,
        PermissionError,
    >)
        ensures
            match r {
                Ok(rule) => rule_read(resource_pattern@, decision, scope) == Ok::<
                    _,
                    PermissionErrorModel,
                >(rule.deep_view()),
                Err(error) => rule_read(resource_pattern@, decision, scope) == Err::<RuleModel, _>(
                    error.deep_view(),
                ),
            },
    {
        match Resource::parse(resource_pattern) {
            Ok(parsed) => Ok(
                Rule {
                    action: parsed.action,
                    decision,
                    scope,
                    matcher: RuleMatcher::compile(parsed.action, &parsed.target),
                    source: resource_pattern.to_owned(),
                },
            ),
            Err(error) => Err(error),
        }
    }

    /// The rule that remembers a grant of `resource`.
    fn granting(resource: &Resource) -> (r: Result<Self, PermissionError>)
        ensures
            match r {
                Ok(rule) => grant_rule(resource.deep_view()) == Ok::<_, PermissionErrorModel>(
                    rule.deep_view(),
                ),
                Err(error) => grant_rule(resource.deep_view()) == Err::<RuleModel, _>(
                    error.deep_view(),
                ),
            },
    {
        match Rule::new(&resource.to_string(), Decision::Allow, Scope::Session) {
            Ok(rule) => Ok(Rule { matcher: RuleMatcher::remember(resource), ..rule }),
            Err(error) => Err(error),
        }
    }

    /// A denial that no pattern has to be read for: of `action`, on `path` and
    /// all below it.
    fn shielding(action: Action, path: String) -> (r: Self)
        ensures
            r.deep_view() == shield(action, path@),
    {
        let source = Resource::new(action, &path).to_string();
        Rule {
            action,
            decision: Decision::Deny,
            scope: Scope::Managed,
            matcher: RuleMatcher::Subtree(path),
            source,
        }
    }

    /// Whether the rule speaks of `resource`.
    pub fn matches(&self, resource: &Resource) -> (r: bool)
        ensures
            r == applies(self.deep_view(), resource.deep_view()),
    {
        self.action == resource.action && self.matcher.matches(resource)
    }

    /// The text the rule was read from.
    pub fn source(&self) -> (r: &str)
        ensures
            r@ == self.deep_view().source,
    {
        &self.source
    }
}

/// An evaluated decision, with the reason attached.
#[derive(Debug)]
pub struct Verdict {
    pub decision: Decision,
    pub reason: Reason,
}

/// Why a decision was reached.
#[derive(Debug)]
pub enum Reason {
    /// An explicit rule matched.
    Rule { source: String, scope: Scope },
    /// A file inside the workspace.
    WorkspaceDefault,
    /// The active mode forced it.
    Mode(PermissionMode),
    /// Nothing matched; the action's default applied.
    ActionDefault,
    /// A grant made earlier in the session covers it.
    ExistingGrant { source: String },
}

/// What a [`Verdict`] says.
pub struct VerdictModel {
    pub decision: Decision,
    pub reason: ReasonModel,
}

/// What a [`Reason`] says.
pub enum ReasonModel {
    Rule { source: Seq<char>, scope: Scope },
    WorkspaceDefault,
    Mode(PermissionMode),
    ActionDefault,
    ExistingGrant { source: Seq<char> },
}

impl DeepView for Reason {
    type V = ReasonModel;

    open spec fn deep_view(&self) -> ReasonModel {
        match *self {
            Reason::Rule { source, scope } => ReasonModel::Rule { source: source@, scope },
            Reason::WorkspaceDefault => ReasonModel::WorkspaceDefault,
            Reason::Mode(mode) => ReasonModel::Mode(mode),
            Reason::ActionDefault => ReasonModel::ActionDefault,
            Reason::ExistingGrant { source } => ReasonModel::ExistingGrant { source: source@ },
        }
    }
}

impl DeepView for Verdict {
    type V = VerdictModel;

    open spec fn deep_view(&self) -> VerdictModel {
        VerdictModel { decision: self.decision, reason: self.reason.deep_view() }
    }
}

/// The rules in force, and the directories that need no prompt.
#[derive(Debug)]
pub struct Policy {
    rules: Vec<Rule>,
    workspace_roots: Vec<String>,
}

/// What a [`Policy`] holds.
pub struct PolicyModel {
    pub rules: Seq<RuleModel>,
    pub workspace_roots: Seq<Seq<char>>,
}

impl DeepView for Policy {
    type V = PolicyModel;

    closed spec fn deep_view(&self) -> PolicyModel {
        PolicyModel {
            rules: self.rules.deep_view(),
            workspace_roots: self.workspace_roots.deep_view(),
        }
    }
}

/// Whether a rule decides `decision` about `resource`.
pub open spec fn decides(rule: RuleModel, resource: ResourceModel, decision: Decision) -> bool {
    rule.decision == decision && applies(rule, resource)
}

/// The rule to cite for a decision: of those that decide it, the one of the
/// narrowest scope, and of several such the last.
pub open spec fn cited(
    rules: Seq<RuleModel>,
    resource: ResourceModel,
    decision: Decision,
) -> Option<RuleModel>
    decreases rules.len(),
{
    if rules.len() == 0 {
        None
    } else {
        let earlier = cited(rules.drop_last(), resource, decision);
        let rule = rules.last();
        if decides(rule, resource, decision) && (earlier is None || rank(earlier->0.scope) <= rank(
            rule.scope,
        )) {
            Some(rule)
        } else {
            earlier
        }
    }
}

/// Whether a rule is a grant of this session that covers `resource`.
pub open spec fn is_grant(rule: RuleModel, resource: ResourceModel) -> bool {
    rule.scope == Scope::Session && decides(rule, resource, Decision::Allow)
}

/// The first grant of this session that covers `resource`.
pub open spec fn grant_of(rules: Seq<RuleModel>, resource: ResourceModel) -> Option<RuleModel>
    decreases rules.len(),
{
    if rules.len() == 0 {
        None
    } else if is_grant(rules[0], resource) {
        Some(rules[0])
    } else {
        grant_of(rules.drop_first(), resource)
    }
}

/// Whether a path lies in one of the workspace's directories.
pub open spec fn in_workspace_of(roots: Seq<Seq<char>>, target: Seq<char>) -> bool {
    exists|i: int| 0 <= i < roots.len() && within(#[trigger] roots[i], target)
}

/// A verdict that cites a rule.
pub open spec fn by_rule(decision: Decision, rule: RuleModel) -> VerdictModel {
    VerdictModel {
        decision,
        reason: ReasonModel::Rule { source: rule.source, scope: rule.scope },
    }
}

/// The verdict on a resource. Severity wins over specificity: a deny rule, then
/// the mode, then a grant of this session, then an ask rule, then an allow rule,
/// then the workspace for file actions; otherwise the user is asked.
pub open spec fn evaluated(
    policy: PolicyModel,
    resource: ResourceModel,
    mode: PermissionMode,
) -> VerdictModel {
    if let Some(rule) = cited(policy.rules, resource, Decision::Deny) {
        by_rule(Decision::Deny, rule)
    } else if let Some(decision) = forced(mode, resource.action) {
        VerdictModel { decision, reason: ReasonModel::Mode(mode) }
    } else if let Some(rule) = grant_of(policy.rules, resource) {
        VerdictModel {
            decision: Decision::Allow,
            reason: ReasonModel::ExistingGrant { source: rule.source },
        }
    } else if let Some(rule) = cited(policy.rules, resource, Decision::Ask) {
        by_rule(Decision::Ask, rule)
    } else if let Some(rule) = cited(policy.rules, resource, Decision::Allow) {
        by_rule(Decision::Allow, rule)
    } else if (resource.action is ReadFile || resource.action is WriteFile) && in_workspace_of(
        policy.workspace_roots,
        resource.target,
    ) {
        VerdictModel { decision: Decision::Allow, reason: ReasonModel::WorkspaceDefault }
    } else {
        VerdictModel { decision: Decision::Ask, reason: ReasonModel::ActionDefault }
    }
}

/// The rule that remembers a grant, where the resource can be read back.
pub open spec fn grant_rule(resource: ResourceModel) -> Result<RuleModel, PermissionErrorModel> {
    match rule_read(resource_text(resource), Decision::Allow, Scope::Session) {
        Ok(rule) => Ok(
            RuleModel { matcher: remembered(resource.action, resource.target), ..rule },
        ),
        Err(error) => Err(error),
    }
}

/// The rules that granting `resource` adds, up to the first that cannot be read.
pub open spec fn grants_of(resources: Seq<ResourceModel>) -> Seq<RuleModel>
    decreases resources.len(),
{
    if resources.len() == 0 {
        Seq::empty()
    } else {
        match grant_rule(resources[0]) {
            Ok(rule) => seq![rule] + grants_of(resources.drop_first()),
            Err(_) => Seq::empty(),
        }
    }
}

/// The error of the first of `resources` that cannot be granted.
pub open spec fn grant_error(resources: Seq<ResourceModel>) -> Option<PermissionErrorModel>
    decreases resources.len(),
{
    if resources.len() == 0 {
        None
    } else {
        match grant_rule(resources[0]) {
            Ok(_) => grant_error(resources.drop_first()),
            Err(error) => Some(error),
        }
    }
}

/// A resource and those it implies.
pub open spec fn with_implied(resource: ResourceModel) -> Seq<ResourceModel> {
    seq![resource] + implied_of(resource)
}

impl Policy {
    pub fn builder() -> (r: PolicyBuilder)
        ensures
            r.deep_view() == builder_empty(),
    {
        let r = PolicyBuilder {
            rules: Vec::new(),
            workspace_roots: Vec::new(),
            errors: Vec::new(),
            baseline: false,
        };
        assert(r.rules.deep_view() =~= Seq::<RuleModel>::empty());
        assert(r.workspace_roots.deep_view() =~= Seq::<Seq<char>>::empty());
        assert(r.errors.deep_view() =~= Seq::<PermissionErrorModel>::empty());
        r
    }

    /// Resolves a resource to a decision.
    pub fn evaluate(&self, resource: &Resource, mode: PermissionMode) -> (r: Verdict)
        ensures
            r.deep_view() == evaluated(self.deep_view(), resource.deep_view(), mode),
    {
        if let Some(rule) = self.first_match(resource, Decision::Deny) {
            return Verdict {
                decision: Decision::Deny,
                reason: Reason::Rule { source: rule.source.clone(), scope: rule.scope },
            };
        }
        // Before the session's grants: one made before the user switched into
        // `plan` does not survive the switch.
        if let Some(decision) = mode.force(resource) {
            return Verdict { decision, reason: Reason::Mode(mode) };
        }
        // An ask rule says "check with me"; a grant is that check, already made.
        if let Some(rule) = self.session_grant(resource) {
            return Verdict {
                decision: Decision::Allow,
                reason: Reason::ExistingGrant { source: rule.source.clone() },
            };
        }
        if let Some(rule) = self.first_match(resource, Decision::Ask) {
            return Verdict {
                decision: Decision::Ask,
                reason: Reason::Rule { source: rule.source.clone(), scope: rule.scope },
            };
        }
        if let Some(rule) = self.first_match(resource, Decision::Allow) {
            return Verdict {
                decision: Decision::Allow,
                reason: Reason::Rule { source: rule.source.clone(), scope: rule.scope },
            };
        }
        if (resource.action == Action::ReadFile || resource.action == Action::WriteFile)
            && self.in_workspace(&resource.target) {
            return Verdict { decision: Decision::Allow, reason: Reason::WorkspaceDefault };
        }
        Verdict { decision: resource.action.default_decision(), reason: Reason::ActionDefault }
    }

    fn session_grant(&self, resource: &Resource) -> (r: Option<&Rule>)
        ensures
            match r {
                Some(rule) => grant_of(self.deep_view().rules, resource.deep_view()) == Some(
                    rule.deep_view(),
                ),
                None => grant_of(self.deep_view().rules, resource.deep_view()) is None,
            },
    {
        let ghost rules = self.deep_view().rules;
        let mut i: usize = 0;
        assert(rules.skip(0) =~= rules);
        while i < self.rules.len()
            invariant
                i <= self.rules@.len(),
                rules == self.rules.deep_view(),
                grant_of(rules, resource.deep_view()) == grant_of(
                    rules.skip(i as int),
                    resource.deep_view(),
                ),
            decreases self.rules@.len() - i,
        {
            let rule = &self.rules[i];
            assert(rules[i as int] == rule.deep_view());
            assert(rules.skip(i as int)[0] == rule.deep_view());
            assert(rules.skip(i as int).drop_first() =~= rules.skip(i + 1));
            if rule.scope == Scope::Session && rule.decision == Decision::Allow && rule.matches(
                resource,
            ) {
                return Some(rule);
            }
            i += 1;
        }
        None
    }

    fn first_match(&self, resource: &Resource, decision: Decision) -> (r: Option<&Rule>)
        ensures
            match r {
                Some(rule) => cited(self.deep_view().rules, resource.deep_view(), decision) == Some(
                    rule.deep_view(),
                ),
                None => cited(self.deep_view().rules, resource.deep_view(), decision) is None,
            },
    {
        let ghost rules = self.deep_view().rules;
        let mut best: Option<&Rule> = None;
        let mut i: usize = 0;
        while i < self.rules.len()
            invariant
                i <= self.rules@.len(),
                rules == self.rules.deep_view(),
                match best {
                    Some(rule) => cited(rules.take(i as int), resource.deep_view(), decision)
                        == Some(rule.deep_view()),
                    None => cited(rules.take(i as int), resource.deep_view(), decision) is None,
                },
            decreases self.rules@.len() - i,
        {
            let rule = &self.rules[i];
            assert(rules.take(i + 1).drop_last() =~= rules.take(i as int));
            assert(rules.take(i + 1).last() == rule.deep_view());
            if rule.decision == decision && rule.matches(resource) {
                best =
                match best {
                    Some(earlier) => if rank_of(earlier.scope) <= rank_of(rule.scope) {
                        Some(rule)
                    } else {
                        Some(earlier)
                    },
                    None => Some(rule),
                };
            }
            i += 1;
        }
        assert(rules.take(i as int) =~= rules);
        best
    }

    fn in_workspace(&self, target: &str) -> (r: bool)
        ensures
            r == in_workspace_of(self.deep_view().workspace_roots, target@),
    {
        let ghost roots = self.deep_view().workspace_roots;
        let mut i: usize = 0;
        while i < self.workspace_roots.len()
            invariant
                i <= self.workspace_roots@.len(),
                roots == self.workspace_roots.deep_view(),
                forall|k: int| 0 <= k < i ==> !within(#[trigger] roots[k], target@),
            decreases self.workspace_roots@.len() - i,
        {
            assert(roots[i as int] == self.workspace_roots@[i as int]@);
            if paths::starts_with(target, &self.workspace_roots[i]) {
                return true;
            }
            i += 1;
        }
        false
    }

    /// Records an interactive grant, so that the same question is not asked twice,
    /// together with what it implies. On an error, the rules before the one that
    /// could not be read are kept.
    pub fn grant_for_session(&mut self, resource: &Resource) -> (r: Result<(), PermissionError>)
        ensures
            final(self).deep_view() == (PolicyModel {
                rules: old(self).deep_view().rules + grants_of(
                    with_implied(resource.deep_view()),
                ),
                workspace_roots: old(self).deep_view().workspace_roots,
            }),
            match r {
                Ok(_) => grant_error(with_implied(resource.deep_view())) is None,
                Err(error) => grant_error(with_implied(resource.deep_view())) == Some(
                    error.deep_view(),
                ),
            },
    {
        let ghost all = with_implied(resource.deep_view());
        assert(all.drop_first() =~= implied_of(resource.deep_view()));
        assert(all[0] == resource.deep_view());
        let ghost before = self.rules.deep_view();
        match Rule::granting(resource) {
            Ok(rule) => {
                self.rules.push(rule);
                assert(self.rules.deep_view() =~= before + seq![rule.deep_view()]);
            },
            Err(error) => {
                assert(before + Seq::<RuleModel>::empty() =~= before);
                return Err(error);
            },
        }
        let implied = resource.implied();
        let mut i: usize = 0;
        let ghost rest = implied_of(resource.deep_view());
        assert(rest.skip(0) =~= rest);
        assert(before + grants_of(all) =~= self.rules.deep_view() + grants_of(rest));
        while i < implied.len()
            invariant
                i <= implied@.len(),
                implied.deep_view() == rest,
                self.rules.deep_view() + grants_of(rest.skip(i as int)) == before + grants_of(all),
                self.workspace_roots == old(self).workspace_roots,
                grant_error(all) == grant_error(rest.skip(i as int)),
                before == old(self).rules.deep_view(),
                all == with_implied(resource.deep_view()),
            decreases implied@.len() - i,
        {
            let ghost now = self.rules.deep_view();
            assert(rest.skip(i as int)[0] == implied@[i as int].deep_view());
            assert(rest.skip(i as int).drop_first() =~= rest.skip(i + 1));
            match Rule::granting(&implied[i]) {
                Ok(rule) => {
                    self.rules.push(rule);
                    assert(self.rules.deep_view() =~= now + seq![rule.deep_view()]);
                    assert(self.rules.deep_view() + grants_of(rest.skip(i + 1)) =~= now + (
                    seq![rule.deep_view()] + grants_of(rest.skip(i + 1))));
                },
                Err(error) => {
                    assert(now + Seq::<RuleModel>::empty() =~= now);
                    return Err(error);
                },
            }
            i += 1;
        }
        assert(rest.skip(i as int) =~= Seq::<ResourceModel>::empty());
        assert(self.rules.deep_view() + Seq::<RuleModel>::empty() =~= self.rules.deep_view());
        Ok(())
    }

    pub fn rule_count(&self) -> (r: usize)
        ensures
            r == self.deep_view().rules.len(),
    {
        self.rules.len()
    }
}

impl Default for Policy {
    fn default() -> (r: Self)
        ensures
            r.deep_view() == (PolicyModel { rules: Seq::empty(), workspace_roots: Seq::empty() }),
    {
        let r = Policy { rules: Vec::new(), workspace_roots: Vec::new() };
        assert(r.rules.deep_view() =~= Seq::<RuleModel>::empty());
        assert(r.workspace_roots.deep_view() =~= Seq::<Seq<char>>::empty());
        r
    }
}

/// Collects rules; one that cannot be read is reported, not fatal.
#[derive(Debug)]
pub struct PolicyBuilder {
    rules: Vec<Rule>,
    workspace_roots: Vec<String>,
    errors: Vec<PermissionError>,
    baseline: bool,
}

/// What a [`PolicyBuilder`] has collected.
pub struct BuilderModel {
    pub rules: Seq<RuleModel>,
    pub workspace_roots: Seq<Seq<char>>,
    pub errors: Seq<PermissionErrorModel>,
    /// Whether the baseline denials were asked for.
    pub baseline: bool,
}

impl DeepView for PolicyBuilder {
    type V = BuilderModel;

    closed spec fn deep_view(&self) -> BuilderModel {
        BuilderModel {
            rules: self.rules.deep_view(),
            workspace_roots: self.workspace_roots.deep_view(),
            errors: self.errors.deep_view(),
            baseline: self.baseline,
        }
    }
}

/// A builder that has collected nothing.
pub open spec fn builder_empty() -> BuilderModel {
    BuilderModel {
        rules: Seq::empty(),
        workspace_roots: Seq::empty(),
        errors: Seq::empty(),
        baseline: false,
    }
}

/// A builder after one more rule was offered to it.
pub open spec fn builder_with(
    b: BuilderModel,
    pattern: Seq<char>,
    decision: Decision,
    scope: Scope,
) -> BuilderModel {
    match rule_read(pattern, decision, scope) {
        Ok(rule) => BuilderModel { rules: b.rules.push(rule), ..b },
        Err(error) => BuilderModel { errors: b.errors.push(error), ..b },
    }
}

/// A builder after the denials that every project should have.
pub open spec fn with_baseline(b: BuilderModel) -> BuilderModel {
    let b1 = builder_with(b, "write_file(.git/)"@, Decision::Deny, Scope::Managed);
    let b2 = builder_with(b1, "write_file(.octane/)"@, Decision::Deny, Scope::Managed);
    let b3 = builder_with(b2, "read_file(.env)"@, Decision::Deny, Scope::Managed);
    let b4 = builder_with(b3, "command(sudo)"@, Decision::Deny, Scope::Managed);
    BuilderModel { baseline: true, ..b4 }
}

/// The managed denial of `action` on `path` and all below it.
pub open spec fn shield(action: Action, path: Seq<char>) -> RuleModel {
    RuleModel {
        action,
        decision: Decision::Deny,
        scope: Scope::Managed,
        matcher: MatcherModel::Subtree(path),
        source: resource_text(ResourceModel { action, target: path }),
    }
}

/// What the baseline denies below a workspace's directory: writing its `.git` and
/// `.octane`, and reading its `.env`.
pub open spec fn shields_of(root: Seq<char>) -> Seq<RuleModel> {
    seq![
        shield(Action::WriteFile, joined(root, ".git"@)),
        shield(Action::WriteFile, joined(root, ".octane"@)),
        shield(Action::ReadFile, joined(root, ".env"@)),
    ]
}

/// What the baseline denies below all of a workspace's directories.
pub open spec fn all_shields_of(roots: Seq<Seq<char>>) -> Seq<RuleModel>
    decreases roots.len(),
{
    if roots.len() == 0 {
        Seq::empty()
    } else {
        all_shields_of(roots.drop_last()) + shields_of(roots.last())
    }
}

/// The policy that a builder comes to. The baseline holds below every directory of
/// the workspace, whether it was named before the baseline or after.
pub open spec fn built(b: BuilderModel) -> PolicyModel {
    PolicyModel {
        rules: if b.baseline {
            b.rules + all_shields_of(b.workspace_roots)
        } else {
            b.rules
        },
        workspace_roots: b.workspace_roots,
    }
}

impl PolicyBuilder {
    /// Adds a directory whose files need no prompt.
    pub fn workspace_root(self, root: &str) -> (r: Self)
        ensures
            r.deep_view() == (BuilderModel {
                workspace_roots: self.deep_view().workspace_roots.push(root@),
                ..self.deep_view()
            }),
    {
        let mut b = self;
        b.workspace_roots.push(root.to_owned());
        assert(b.workspace_roots.deep_view() =~= self.workspace_roots.deep_view().push(root@));
        b
    }

    pub fn allow(self, pattern: &str, scope: Scope) -> (r: Self)
        ensures
            r.deep_view() == builder_with(self.deep_view(), pattern@, Decision::Allow, scope),
    {
        self.rule(pattern, Decision::Allow, scope)
    }

    pub fn ask(self, pattern: &str, scope: Scope) -> (r: Self)
        ensures
            r.deep_view() == builder_with(self.deep_view(), pattern@, Decision::Ask, scope),
    {
        self.rule(pattern, Decision::Ask, scope)
    }

    pub fn deny(self, pattern: &str, scope: Scope) -> (r: Self)
        ensures
            r.deep_view() == builder_with(self.deep_view(), pattern@, Decision::Deny, scope),
    {
        self.rule(pattern, Decision::Deny, scope)
    }

    fn rule(self, pattern: &str, decision: Decision, scope: Scope) -> (r: Self)
        ensures
            r.deep_view() == builder_with(self.deep_view(), pattern@, decision, scope),
    {
        let mut b = self;
        match Rule::new(pattern, decision, scope) {
            Ok(rule) => {
                b.rules.push(rule);
                assert(b.rules.deep_view() =~= self.rules.deep_view().push(rule.deep_view()));
            },
            Err(error) => {
                b.errors.push(error);
                assert(b.errors.deep_view() =~= self.errors.deep_view().push(error.deep_view()));
            },
        }
        b
    }

    /// Deny rules every project should have. Writing `.git/hooks/pre-commit` is
    /// code execution on the next commit, and `.octane/` holds the policy itself.
    /// They hold of relative paths and below every directory of the workspace.
    pub fn with_baseline_denies(self) -> (r: Self)
        ensures
            r.deep_view() == with_baseline(self.deep_view()),
    {
        let denied = self.deny("write_file(.git/)", Scope::Managed).deny(
            "write_file(.octane/)",
            Scope::Managed,
        ).deny("read_file(.env)", Scope::Managed).deny("command(sudo)", Scope::Managed);
        PolicyBuilder { baseline: true, ..denied }
    }

    /// The policy, and the rules that could not be read.
    pub fn build(self) -> (r: (Policy, Vec<PermissionError>))
        ensures
            r.0.deep_view() == built(self.deep_view()),
            r.1.deep_view() == self.deep_view().errors,
    {
        let mut rules = self.rules;
        let roots = self.workspace_roots;
        if self.baseline {
            let ghost before = rules.deep_view();
            let mut i: usize = 0;
            assert(before =~= before + all_shields_of(roots.deep_view().take(0)));
            while i < roots.len()
                invariant
                    i <= roots@.len(),
                    rules.deep_view() == before + all_shields_of(roots.deep_view().take(i as int)),
                decreases roots@.len() - i,
            {
                let ghost now = rules.deep_view();
                let ghost done = roots.deep_view().take(i as int);
                let root = &roots[i];
                let git = Rule::shielding(Action::WriteFile, paths::join(root, ".git"));
                let octane = Rule::shielding(Action::WriteFile, paths::join(root, ".octane"));
                let env = Rule::shielding(Action::ReadFile, paths::join(root, ".env"));
                let ghost added = seq![git.deep_view(), octane.deep_view(), env.deep_view()];
                rules.push(git);
                rules.push(octane);
                rules.push(env);
                assert(rules.deep_view() =~= now + added);
                assert(added =~= shields_of(root@));
                assert(roots.deep_view().take(i + 1).drop_last() =~= done);
                assert(roots.deep_view().take(i + 1).last() == root@);
                assert(rules.deep_view() =~= before + (all_shields_of(done) + shields_of(root@)));
                i += 1;
            }
            assert(roots.deep_view().take(i as int) =~= roots.deep_view());
        }
        (Policy { rules, workspace_roots: roots }, self.errors)
    }
}

} // verus!
