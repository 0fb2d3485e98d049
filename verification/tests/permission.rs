//! The policy engine: resources, patterns, modes and evaluation.

use octane::permission::{
    Action, Decision, PermissionError, PermissionMode, Policy, Reason, Resource, RuleMatcher, Scope,
};

#[test]
fn parses_simple_resource() {
    let r: Resource = "command(git)".parse().unwrap();
    assert_eq!(r.action, Action::Command);
    assert_eq!(r.target, "git");
}

#[test]
fn parses_target_containing_parens() {
    let r: Resource = "command(npm run (build|lint))".parse().unwrap();
    assert_eq!(r.target, "npm run (build|lint)");
}

#[test]
fn round_trips_through_display() {
    for text in ["read_file(/etc/hosts)", "mcp(linter/*)", "write_file(src/)"] {
        let parsed: Resource = text.parse().unwrap();
        assert_eq!(parsed.to_string(), text);
    }
}

#[test]
fn rejects_malformed() {
    assert!("command".parse::<Resource>().is_err());
    assert!("command(".parse::<Resource>().is_err());
    assert!("command()".parse::<Resource>().is_err());
    assert!("nonsense(x)".parse::<Resource>().is_err());
}

#[test]
fn write_implies_read() {
    let implied = Resource::write_file("/p/f.txt").implied();
    assert_eq!(implied, vec![Resource::read_file("/p/f.txt")]);
}

fn matches(action: Action, pattern: &str, target: &str) -> bool {
    RuleMatcher::compile(action, pattern).matches(&Resource::new(action, target))
}

#[test]
fn wildcard_matches_everything() {
    assert!(matches(Action::Command, "*", "anything at all"));
    assert!(matches(Action::ReadFile, "*", "/etc/passwd"));
}

#[test]
fn path_matches_subtree_not_string_prefix() {
    assert!(matches(Action::ReadFile, "/proj", "/proj/src/main.rs"));
    assert!(matches(Action::ReadFile, "/proj", "/proj"));
        assert!(!matches(Action::ReadFile, "/proj", "/project-secrets/key"));
    assert!(!matches(Action::ReadFile, "/proj", "/other/file"));
}

#[test]
fn path_normalizes_windows_separators() {
    assert!(matches(Action::WriteFile, r"C:\proj", "/proj/src/lib.rs"));
    assert!(matches(Action::WriteFile, "/proj/", "/proj/src"));
}

#[test]
fn domain_covers_subdomains_only() {
    assert!(matches(Action::ReadUrl, "google.com", "mail.google.com"));
    assert!(matches(Action::ReadUrl, "google.com", "https://google.com/search?q=x"));
    assert!(!matches(Action::ReadUrl, "google.com", "notgoogle.com"));
    assert!(!matches(Action::ReadUrl, "google.com", "google.com.evil.tld"));
}

#[test]
fn command_tokens_are_anchored() {
    assert!(matches(Action::Command, "git", "git"));
    // Anchoring is what stops this.
    assert!(!matches(Action::Command, "git", "gitleaks"));
}

#[test]
fn command_alternation_within_a_token() {
    assert!(matches(Action::Command, "npm run (build|lint|test)", "npm run build"));
    assert!(matches(Action::Command, "npm run (build|lint|test)", "npm run test"));
    assert!(!matches(Action::Command, "npm run (build|lint|test)", "npm run deploy"));
}

#[test]
fn command_arity_must_agree() {
    assert!(!matches(Action::Command, "git", "git push origin main"));
    assert!(!matches(Action::Command, "git push origin main", "git push"));
}

#[test]
fn mcp_server_wildcard() {
    assert!(matches(Action::Mcp, "linter/*", "linter/check"));
    assert!(matches(Action::Mcp, "sql/execute", "sql/execute"));
    assert!(!matches(Action::Mcp, "linter/*", "sql/execute"));
    assert!(!matches(Action::Mcp, "sql/execute", "sql/mutate"));
}

#[test]
fn cycle_visits_the_three_safe_modes() {
    let mut mode = PermissionMode::Default;
    let mut seen = vec![mode];
    for _ in 0..2 {
        mode = mode.cycle();
        seen.push(mode);
    }
    assert_eq!(seen, vec![PermissionMode::Default, PermissionMode::AcceptEdits, PermissionMode::Plan]);
    assert_eq!(mode.cycle(), PermissionMode::Default);
}

#[test]
fn cycling_never_reaches_bypass() {
    let mut mode = PermissionMode::Default;
    for _ in 0..10 {
        mode = mode.cycle();
        assert_ne!(mode, PermissionMode::Bypass);
    }
}

#[test]
fn plan_denies_mutation_but_permits_reads() {
    let plan = PermissionMode::Plan;
    assert_eq!(plan.force(&Resource::write_file("/p/f")), Some(Decision::Deny));
    assert_eq!(plan.force(&Resource::command("ls")), Some(Decision::Deny));
    assert_eq!(plan.force(&Resource::read_file("/p/f")), None);
}

#[test]
fn accept_edits_does_not_cover_commands_or_escapes() {
    let mode = PermissionMode::AcceptEdits;
    assert_eq!(mode.force(&Resource::write_file("/p/f")), Some(Decision::Allow));
    assert_eq!(mode.force(&Resource::command("cargo test")), None);
    assert_eq!(mode.force(&Resource::new(Action::Unsandboxed, "git push")), None);
}

fn policy() -> Policy {
    Policy::builder()
        .workspace_root("/proj")
        .allow("command(git)", Scope::User)
        .ask("command(*)", Scope::User)
        .deny("command(rm -rf /)", Scope::Managed)
        .build()
        .0
}

#[test]
fn deny_beats_everything() {
    let verdict = policy().evaluate(&Resource::command("rm -rf /"), PermissionMode::Bypass);
    assert_eq!(verdict.decision, Decision::Deny);
}

#[test]
fn broad_ask_beats_narrow_allow() {
    // The documented consequence of severity-over-specificity.
    let verdict = policy().evaluate(&Resource::command("git"), PermissionMode::Default);
    assert_eq!(verdict.decision, Decision::Ask);
}

#[test]
fn workspace_files_need_no_prompt() {
    let verdict = policy().evaluate(&Resource::write_file("/proj/src/main.rs"), PermissionMode::Default);
    assert_eq!(verdict.decision, Decision::Allow);
    assert!(matches!(verdict.reason, Reason::WorkspaceDefault));
}

#[test]
fn files_outside_workspace_are_asked() {
    let verdict = policy().evaluate(&Resource::write_file("/etc/hosts"), PermissionMode::Default);
    assert_eq!(verdict.decision, Decision::Ask);
}

#[test]
fn unmatched_actions_fail_closed() {
    let bare = Policy::builder().build().0;
    assert_eq!(bare.evaluate(&Resource::command("whatever"), PermissionMode::Default).decision, Decision::Ask);
}

#[test]
fn plan_mode_refuses_writes_even_when_allowed() {
    let permissive = Policy::builder().workspace_root("/proj").build().0;
    let verdict = permissive.evaluate(&Resource::write_file("/proj/f.rs"), PermissionMode::Plan);
    assert_eq!(verdict.decision, Decision::Deny);
}

#[test]
fn session_grant_stops_repeat_prompts() {
    let mut p = Policy::builder().build().0;
    let resource = Resource::write_file("/outside/f.txt");
    assert_eq!(p.evaluate(&resource, PermissionMode::Default).decision, Decision::Ask);

    p.grant_for_session(&resource).unwrap();
    assert_eq!(p.evaluate(&resource, PermissionMode::Default).decision, Decision::Allow);
    // ...and the implied read is covered too.
    assert_eq!(
        p.evaluate(&Resource::read_file("/outside/f.txt"), PermissionMode::Default).decision,
        Decision::Allow
    );
}

#[test]
fn a_session_grant_suppresses_a_broad_ask_rule() {
    // The regression this guards: with `ask(command(*))` configured, an
    // approved command must not re-prompt on every identical call.
    let mut p = policy();
    let resource = Resource::command("cargo test");
    assert_eq!(p.evaluate(&resource, PermissionMode::Default).decision, Decision::Ask);

    p.grant_for_session(&resource).unwrap();

    let verdict = p.evaluate(&resource, PermissionMode::Default);
    assert_eq!(verdict.decision, Decision::Allow);
    assert!(matches!(verdict.reason, Reason::ExistingGrant { .. }));
}

#[test]
fn a_session_grant_cannot_survive_a_switch_to_plan() {
    let mut p = policy();
    let resource = Resource::command("cargo test");
    p.grant_for_session(&resource).unwrap();

    // Mode is evaluated before session grants, so switching to plan revokes it.
    assert_eq!(p.evaluate(&resource, PermissionMode::Plan).decision, Decision::Deny);
}

#[test]
fn a_session_grant_cannot_override_a_deny_rule() {
    let mut p = policy();
    let resource = Resource::command("rm -rf /");
    // Even if a grant is somehow recorded, deny still wins.
    p.grant_for_session(&resource).unwrap();
    assert_eq!(p.evaluate(&resource, PermissionMode::Default).decision, Decision::Deny);
}

#[test]
fn baseline_denies_protect_git_hooks() {
    let p = Policy::builder()
        .workspace_root("/proj")
        .with_baseline_denies()
        .build()
        .0;
    // Even in bypass, and even though it is inside the workspace.
    let verdict = p.evaluate(&Resource::write_file(".git/hooks/pre-commit"), PermissionMode::Bypass);
    assert_eq!(verdict.decision, Decision::Deny);
}

#[test]
fn each_malformed_rule_says_what_is_wrong() {
    let reason = |text: &str| match Resource::parse(text) {
        Err(PermissionError::MalformedRule { rule, reason }) => {
            assert_eq!(rule, text);
            reason
        }
        other => panic!("{other:?}"),
    };
    assert_eq!(reason("command"), "expected action(target)");
    assert_eq!(reason("command(ls"), "missing closing parenthesis");
    assert_eq!(reason("command()"), "empty target");
    let unknown = Resource::parse(" nonsense (x)").unwrap_err();
    assert_eq!(unknown, PermissionError::UnknownAction("nonsense".to_string()));
    assert_eq!(unknown.to_string(), "unknown permission action \"nonsense\"");
    assert_eq!(
        Resource::parse("a\"b").unwrap_err().to_string(),
        "malformed permission rule \"a\\\"b\": expected action(target)"
    );
}

#[test]
fn a_pattern_that_is_no_expression_covers_only_its_own_text() {
    assert!(matches(Action::Command, "rm [", "rm ["));
    assert!(!matches(Action::Command, "rm [", "rm x"));
}

#[test]
fn a_domain_is_compared_without_case_or_port() {
    assert!(matches(Action::ReadUrl, " Example.COM ", "HTTPS://API.Example.com:8443/x"));
    assert!(!matches(Action::ReadUrl, "example.com", "example.org"));
}

#[test]
fn dots_and_repeated_separators_do_not_hide_a_path() {
    assert!(matches(Action::ReadFile, "/proj//src/./", "/proj/src/main.rs"));
    assert!(!matches(Action::ReadFile, "./proj", "proj/src"));
    assert!(matches(Action::ReadFile, "/", "relative/anything"));
}

#[test]
fn the_narrowest_scope_is_cited_and_the_last_of_equals() {
    let p = Policy::builder()
        .deny("command(ls)", Scope::Project)
        .deny("command(l.)", Scope::Project)
        .deny("command(.*)", Scope::User)
        .build()
        .0;
    match p.evaluate(&Resource::command("ls"), PermissionMode::Bypass).reason {
        Reason::Rule { source, scope } => {
            assert_eq!(source, "command(l.)");
            assert_eq!(scope, Scope::Project);
        }
        other => panic!("{other:?}"),
    }
}

#[test]
fn a_malformed_rule_is_reported_and_the_rest_are_kept() {
    let (p, errors) = Policy::builder().allow("nope", Scope::User).allow("mcp(a/b)", Scope::User).build();
    assert_eq!(p.rule_count(), 1);
    assert_eq!(errors.len(), 1);
    assert_eq!(Policy::builder().with_baseline_denies().build().0.rule_count(), 4);
}

#[test]
fn a_resource_without_a_target_cannot_be_granted() {
    let mut p = Policy::default();
    assert!(p.grant_for_session(&Resource::command("")).is_err());
    assert_eq!(p.rule_count(), 0);
    p.grant_for_session(&Resource::mcp("s", "t")).unwrap();
    assert_eq!(p.rule_count(), 1);
    assert_eq!(
        p.evaluate(&Resource::mcp("s", "t"), PermissionMode::Default).decision,
        Decision::Allow
    );
}

#[test]
fn every_mode_is_inherited_by_subagents() {
    for mode in [
        PermissionMode::Default,
        PermissionMode::Plan,
        PermissionMode::AcceptEdits,
        PermissionMode::Bypass,
    ] {
        assert!(mode.inherited_by_subagents());
    }
}

#[test]
fn the_baseline_holds_below_every_workspace_root() {
    // The second root is named after the baseline.
    let p = Policy::builder()
        .workspace_root("/proj")
        .with_baseline_denies()
        .workspace_root("/other/")
        .allow("write_file(*)", Scope::User)
        .build()
        .0;
    for mode in [PermissionMode::Default, PermissionMode::AcceptEdits, PermissionMode::Bypass] {
        let write = |path: &str| p.evaluate(&Resource::write_file(path), mode).decision;
        let read = |path: &str| p.evaluate(&Resource::read_file(path), mode).decision;
        assert_eq!(write("/proj/.git/hooks/pre-commit"), Decision::Deny);
        assert_eq!(write("/proj/.octane/config.toml"), Decision::Deny);
        assert_eq!(write("/other/.git"), Decision::Deny);
        assert_eq!(write("/proj\\.git\\config"), Decision::Deny);
        assert_eq!(read("/proj/.env"), Decision::Deny);
        assert_eq!(write("/proj/.gitignore"), Decision::Allow);
        assert_eq!(read("/proj/.git/config"), Decision::Allow);
    }
    let verdict = p.evaluate(&Resource::write_file("/proj/.git/x"), PermissionMode::Default);
    assert!(matches!(
        verdict.reason,
        Reason::Rule { source, scope: Scope::Managed } if source == "write_file(/proj/.git)"
    ));
    // Four denials of relative paths, three for each root, and the one allowed.
    assert_eq!(p.rule_count(), 11);
}

#[test]
fn a_grant_below_a_shielded_directory_does_not_lift_the_denial() {
    let mut p = Policy::builder().workspace_root("/proj").with_baseline_denies().build().0;
    let hook = Resource::write_file("/proj/.git/hooks/pre-commit");
    p.grant_for_session(&hook).unwrap();
    assert_eq!(p.evaluate(&hook, PermissionMode::Default).decision, Decision::Deny);
}

#[test]
fn a_grant_is_taken_literally() {
    for target in ["echo a+b", "ls *.rs", "echo (", "grep a.b x", "*"] {
        let mut p = Policy::default();
        let granted = Resource::command(target);
        p.grant_for_session(&granted).unwrap();
        let decide = |cmd: &str| {
            p.evaluate(&Resource::command(cmd), PermissionMode::Default).decision
        };
        assert_eq!(decide(target), Decision::Allow, "{target}");
        assert_eq!(decide("grep axb x"), Decision::Ask, "{target}");
        assert_eq!(decide("echo aab"), Decision::Ask, "{target}");
    }
}

#[test]
fn a_granted_command_stands_for_its_words() {
    let mut p = Policy::default();
    p.grant_for_session(&Resource::command("cargo test")).unwrap();
    let decide = |cmd: &str| p.evaluate(&Resource::command(cmd), PermissionMode::Default).decision;
    assert_eq!(decide("cargo  test"), Decision::Allow);
    assert_eq!(decide(" cargo\ttest "), Decision::Allow);
    assert_eq!(decide("cargotest"), Decision::Ask);
    assert_eq!(decide("cargo test --all"), Decision::Ask);
    assert_eq!(decide("cargo"), Decision::Ask);
}

#[test]
fn a_granted_url_is_remembered() {
    let mut p = Policy::default();
    let page = Resource::new(Action::ReadUrl, "https://docs.rs/serde?q=1");
    p.grant_for_session(&page).unwrap();
    let decide = |p: &Policy, url: &str| {
        p.evaluate(&Resource::new(Action::ReadUrl, url), PermissionMode::Default).decision
    };
    assert_eq!(decide(&p, "https://docs.rs/serde?q=1"), Decision::Allow);
    assert_eq!(decide(&p, "https://docs.rs/other"), Decision::Ask);
    // A bare host stands for its subdomains, as in a rule.
    p.grant_for_session(&Resource::new(Action::ReadUrl, "docs.rs")).unwrap();
    assert_eq!(decide(&p, "https://www.docs.rs/other"), Decision::Allow);
}

#[test]
fn the_host_is_read_out_of_the_authority_alone() {
    let covers = |url: &str| {
        RuleMatcher::compile(Action::ReadUrl, "google.com")
            .matches(&Resource::new(Action::ReadUrl, url))
    };
    assert!(covers("https://google.com?q=x"));
    assert!(covers("https://google.com#top"));
    assert!(covers("https://u@google.com/"));
    assert!(covers("https://u:p@mail.google.com:8443/a?b#c"));
    assert!(!covers("https://google.com:x@evil.tld/"));
    assert!(!covers("https://google.com@evil.tld"));
    assert!(!covers("https://evil.tld\\@google.com"));
    assert!(!covers("https://evil.tld/?google.com"));
    assert!(!covers("https://evil.tld#.google.com"));
    assert!(!covers("https://evil.tld?x@google.com"));
}

#[test]
fn every_action_is_read_back_from_its_name() {
    for action in [
        Action::ReadFile,
        Action::WriteFile,
        Action::ReadUrl,
        Action::ExecuteUrl,
        Action::Command,
        Action::Unsandboxed,
        Action::Mcp,
    ] {
        assert_eq!(action.as_str().parse::<Action>().unwrap(), action);
    }
    assert_eq!(
        "nope".parse::<Action>().unwrap_err(),
        PermissionError::UnknownAction("nope".to_string())
    );
}

#[test]
fn a_host_is_compared_without_case() {
    let covers = |pattern: &str, url: &str| {
        RuleMatcher::compile(Action::ReadUrl, pattern).matches(&Resource::new(Action::ReadUrl, url))
    };
    assert!(covers("Google.COM", "HTTPS://MAIL.google.Com/"));
    assert!(covers("B\u{dc}CHER.example", "https://b\u{fc}cher.EXAMPLE/"));
    assert!(!covers("google.com", "https://go0gle.com"));
}
