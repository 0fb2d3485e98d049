//! Configuration: settings, their editor, and agent definitions.

use octane::config::agent::{
    builtin_agents, discover_agents, is_agent_file, load, split_definition, AgentDefinition,
    AgentError, AgentMode, AgentScope, Frontmatter,
};
use octane::config::edit::{catalogue, current, target, Applies, EditError, Editable, Value};
use octane::config::roots;
use octane::config::settings::{
    Layer, Permissions, Settings, SettingsError, Thinking, SETTINGS_FILE, TEMPLATE,
};
use octane::permission::PermissionMode;

fn texts(value: Option<&toml::Value>) -> Vec<String> {
    value
        .and_then(toml::Value::as_array)
        .map(|list| list.iter().filter_map(toml::Value::as_str).map(str::to_owned).collect())
        .unwrap_or_default()
}

fn mode(name: &str) -> Option<PermissionMode> {
    match name {
        "default" => Some(PermissionMode::Default),
        "plan" => Some(PermissionMode::Plan),
        "accept-edits" => Some(PermissionMode::AcceptEdits),
        "bypass" => Some(PermissionMode::Bypass),
        _ => None,
    }
}

fn thinking(name: &str) -> Option<Thinking> {
    match name {
        "auto" => Some(Thinking::Auto),
        "off" => Some(Thinking::Off),
        "low" => Some(Thinking::Low),
        "medium" => Some(Thinking::Medium),
        "high" => Some(Thinking::High),
        other => other.parse().ok().map(Thinking::Tokens),
    }
}

/// A settings file, as a reader of TOML hands it over.
fn parse(text: &str) -> Result<Settings, String> {
    let table: toml::Table = text.parse().map_err(|error: toml::de::Error| error.to_string())?;
    let string = |key: &str| table.get(key).and_then(toml::Value::as_str).map(str::to_owned);
    let boolean = |key: &str| table.get(key).and_then(toml::Value::as_bool);
    let rules = table.get("permissions");
    Ok(Settings {
        model: string("model"),
        faster_model: string("faster-model"),
        mode: string("mode").as_deref().and_then(mode),
        thinking: string("thinking").as_deref().and_then(thinking),
        show_reasoning: boolean("show-reasoning"),
        sandbox: boolean("sandbox"),
        sandbox_network: boolean("sandbox-network"),
        ascii: boolean("ascii"),
        theme: string("theme"),
        permissions: Permissions {
            allow: texts(rules.and_then(|rules| rules.get("allow"))),
            ask: texts(rules.and_then(|rules| rules.get("ask"))),
            deny: texts(rules.and_then(|rules| rules.get("deny"))),
        },
    })
}

fn layer(text: &str) -> Layer {
    match parse(text) {
        Ok(settings) => Layer::Loaded(settings),
        Err(source) => Layer::Malformed { path: "/r/settings.toml".into(), source },
    }
}

fn find<'a>(catalogue: &'a [Editable], key: &str) -> &'a Editable {
    catalogue.iter().find(|editable| editable.key == key).expect(key)
}

#[test]
fn the_project_root_comes_last_so_it_wins() {
    let roots = roots(Some("/home/me"), "/repo");
    assert_eq!(roots.last().unwrap(), "/repo/.octane");
    assert_eq!(roots[0], "/home/me/.octane");
    assert_eq!(octane::config::roots(None, "/repo"), vec!["/repo/.octane".to_string()]);
}

#[test]
fn a_project_file_overrides_field_by_field() {
    let user = parse("model = \"user/model\"\nthinking = \"high\"").unwrap();
    let project = parse("model = \"project/model\"").unwrap();

    let merged = user.merge(project);
    assert_eq!(merged.model.as_deref(), Some("project/model"));
    // The user's setting survives, which whole-file replacement would lose.
    assert_eq!(merged.thinking, Some(Thinking::High));
}

#[test]
fn permission_rules_accumulate_rather_than_replace() {
    let user = parse("[permissions]\ndeny = [\"command(sudo)\"]").unwrap();
    let project = parse("[permissions]\ndeny = [\"command(rm -rf /)\"]").unwrap();

    let merged = user.merge(project);
    // A project adding one deny must not drop the user's.
    assert_eq!(merged.permissions.deny.len(), 2);
    assert_eq!(merged.permissions.deny[0], "command(sudo)");
    assert!(!merged.permissions.is_empty());
    assert!(Permissions::default().is_empty());
}

#[test]
fn loading_merges_roots_in_order() {
    let (settings, errors) = Settings::load(vec![
        layer("model = \"from-user\"\nthinking = \"low\""),
        layer("model = \"from-project\""),
    ]);
    assert!(errors.is_empty());
    assert_eq!(settings.model.as_deref(), Some("from-project"));
    assert_eq!(settings.thinking, Some(Thinking::Low));
}

#[test]
fn a_missing_file_is_not_an_error() {
    let (settings, errors) = Settings::load(vec![Layer::Missing]);
    assert!(errors.is_empty());
    assert_eq!(settings, Settings::default());
}

#[test]
fn a_malformed_file_is_reported_and_skipped() {
    let (settings, errors) = Settings::load(vec![
        layer("this is not = = toml"),
        layer("model = \"still-loaded\""),
        Layer::Unreadable { path: "/r/settings.toml".into(), source: "denied".into() },
    ]);
    // One bad file must not stop a session.
    assert_eq!(settings.model.as_deref(), Some("still-loaded"));
    assert_eq!(errors.len(), 2);
    assert!(matches!(errors[0], SettingsError::Parse { .. }));
    assert_eq!(errors[1].to_string(), "/r/settings.toml: denied");
}

#[test]
fn the_template_parses_and_changes_nothing() {
    // Everything commented out, so the file documents the options without
    // taking effect by existing.
    let settings = parse(TEMPLATE).unwrap();
    assert_eq!(settings, Settings::default());
    assert!(TEMPLATE.parse::<toml::Table>().unwrap().is_empty());
}

#[test]
fn merging_associates_and_nothing_is_neutral() {
    let a = || parse("model = \"a\"\nascii = true\n[permissions]\nallow = [\"command(ls)\"]").unwrap();
    let b = || parse("mode = \"plan\"\n[permissions]\nallow = [\"command(pwd)\"]").unwrap();
    let c = || parse("model = \"c\"").unwrap();
    assert_eq!(a().merge(b()).merge(c()), a().merge(b().merge(c())));
    assert_eq!(Settings::default().merge(a()), a());
    assert_eq!(a().merge(Settings::default()), a());
    assert_eq!(a().clone(), a());
}

#[test]
fn levels_are_spelled_as_a_file_spells_them() {
    assert_eq!(Thinking::default().label(), "auto");
    assert_eq!(Thinking::Off.label(), "off");
    assert!(Thinking::Off.is_off());
    assert!(!Thinking::Low.is_off());
    assert_eq!(Thinking::Medium.label(), "medium");
    assert_eq!(Thinking::Tokens(2048).label(), "2048");
}

#[test]
fn an_edit_keeps_every_comment_in_the_file() {
    // The whole reason for editing the document. The template is entirely comments, so
    // a struct round-trip would leave the user with a one-line file and no
    // record of what else exists.
    let after = octane::config::edit::set("/r/settings.toml", Some(TEMPLATE), "thinking", &Value::text("high")).unwrap();
    assert!(after.contains("# octane settings."), "the header comment survived");
    assert!(after.contains("# model        = "), "commented-out settings survived");
    assert!(after.contains("thinking = \"high\""), "the edit landed");
}

#[test]
fn an_edit_replaces_rather_than_appends() {
    let before = "thinking = \"low\"\nascii = true\n";
    let after = octane::config::edit::set("/r/settings.toml", Some(before), "thinking", &Value::text("high")).unwrap();
    assert_eq!(after.matches("thinking").count(), 1, "one key, not two");
    assert!(after.contains("ascii = true"), "the untouched key survived");
    assert_eq!(after, "thinking = \"high\"\nascii = true\n");
}

#[test]
fn a_new_key_lands_outside_an_existing_table() {
    // The failure this guards: appending text to a file ending in
    // `[permissions]` puts the key inside that table, where it means
    // something else entirely and silently stops applying.
    let before = "[permissions]\ndeny = [\"command(sudo)\"]\n";
    let after = octane::config::edit::set("/r/settings.toml", Some(before), "ascii", &Value::Bool(true)).unwrap();

    let reloaded = parse(&after).unwrap();
    assert_eq!(reloaded.ascii, Some(true));
    assert_eq!(reloaded.permissions.deny, vec!["command(sudo)".to_string()]);
}

#[test]
fn a_missing_file_is_created_from_the_template() {
    let after = octane::config::edit::set("/r/settings.toml", None, "ascii", &Value::Bool(true)).unwrap();
    assert!(after.contains("# octane settings."), "the starter documentation is there");
    assert!(after.contains("ascii = true"));
}

#[test]
fn an_edit_goes_to_the_file_that_already_sets_it() {
    // Otherwise a globally-set value gets shadowed by a project override,
    // and the file the user knows about stops matching what they see.
    let roots = vec!["/t/user".to_string(), "/t/project".to_string()];
    let texts = vec![Some("ascii = true\n".to_string()), Some("thinking = \"low\"\n".to_string())];

    assert_eq!(target(&roots, &texts, "ascii"), "/t/user/settings.toml");
    assert_eq!(target(&roots, &texts, "thinking"), "/t/project/settings.toml");
}

#[test]
fn an_unset_setting_is_written_to_the_project() {
    // The narrower blast radius is the right default for a value with no
    // existing home.
    let roots = vec!["/t/user".to_string(), "/t/project".to_string()];
    let texts = vec![Some("ascii = true\n".to_string()), None];

    assert_eq!(target(&roots, &texts, "mode"), "/t/project/settings.toml");
    assert_eq!(target(&[], &[], "mode"), SETTINGS_FILE);
}

#[test]
fn a_malformed_file_sets_nothing() {
    let roots = vec!["/t/user".to_string(), "/t/project".to_string()];
    let texts = vec![Some("ascii = = true\n".to_string()), None];
    assert_eq!(target(&roots, &texts, "ascii"), "/t/project/settings.toml");
}

#[test]
fn a_malformed_file_is_refused_rather_than_overwritten() {
    // Rewriting it would be the one action that loses the user's work.
    let error = octane::config::edit::set("/r/settings.toml", Some("thinking = = broken\n"), "ascii", &Value::Bool(true))
        .unwrap_err();
    assert!(matches!(error, EditError::Parse { .. }));
    assert!(error
        .to_string()
        .starts_with("/r/settings.toml is not valid TOML, so it cannot be edited safely: "));
}

#[test]
fn an_unreadable_file_is_reported_by_name() {
    let error = EditError::Io { path: "/r/settings.toml".into(), source: "denied".into() };
    assert_eq!(error.to_string(), "/r/settings.toml: denied");
}

#[test]
fn every_offered_choice_round_trips_through_the_parser() {
    // The picker's promise is that it cannot offer an invalid value. That
    // only holds if every catalogue entry parses back into the struct.
    let themes = ["octane".to_string(), "nord".to_string(), "mine".to_string()];
    for editable in catalogue(&["openrouter/flash".to_string()], &themes) {
        for choice in &editable.choices {
            let text = octane::config::edit::set("/r/settings.toml", Some(""), editable.key, &choice.value).unwrap();
            let parsed = parse(&text).unwrap_or_else(|error| {
                panic!("{} = {} is not loadable: {error}", editable.key, choice.value.display())
            });
            assert_eq!(
                current(&parsed, editable.key).as_deref(),
                Some(choice.value.display().as_str()),
                "{} did not round-trip",
                editable.key
            );
        }
    }
}

#[test]
fn the_catalogue_offers_what_there_is_to_choose() {
    let full = catalogue(&["a/b".to_string()], &["octane".to_string()]);
    let keys: Vec<&str> = full.iter().map(|editable| editable.key).collect();
    assert_eq!(
        keys,
        vec!["model", "mode", "thinking", "show-reasoning", "ascii", "theme", "sandbox", "sandbox-network"]
    );
    let bare = catalogue(&[], &[]);
    assert_eq!(bare.len(), 6);
    assert!(!bare.iter().any(|editable| editable.key == "permissions"));
    assert_eq!(find(&full, "mode").applies, Applies::Live);
    assert_eq!(find(&full, "sandbox").applies, Applies::OnRestart);
}

#[test]
fn a_setting_nobody_made_is_worth_its_default() {
    let full = catalogue(&["a/b".to_string()], &["octane".to_string()]);
    let settings = Settings { mode: Some(PermissionMode::Plan), ..Settings::default() };
    assert_eq!(find(&full, "mode").effective(&settings), ("plan".to_string(), true));
    assert_eq!(find(&full, "sandbox").effective(&settings), ("true".to_string(), false));
    assert_eq!(find(&full, "model").effective(&settings), ("unset".to_string(), false));
    assert!(find(&full, "mode").choice("plan").is_some());
    assert!(find(&full, "mode").choice("yolo").is_none());
}

fn head(yaml: &str) -> Result<Frontmatter, String> {
    let value: serde_yaml::Value =
        serde_yaml::from_str(yaml).map_err(|error| error.to_string())?;
    let text = |key: &str| value.get(key).and_then(serde_yaml::Value::as_str).map(str::to_owned);
    Ok(Frontmatter {
        description: text("description").unwrap_or_default(),
        mode: match text("mode").as_deref() {
            Some("primary") => AgentMode::Primary,
            Some("hidden") => AgentMode::Hidden,
            _ => AgentMode::Subagent,
        },
        tools: value
            .get("tools")
            .and_then(serde_yaml::Value::as_sequence)
            .map(|list| {
                list.iter().filter_map(serde_yaml::Value::as_str).map(str::to_owned).collect()
            })
            .unwrap_or_default(),
        model: text("model"),
        mode_override: text("mode-override").as_deref().and_then(mode),
        thinking: text("thinking").as_deref().and_then(thinking),
    })
}

/// What is found of one agent file.
fn agent(root: &str, name: &str, scope: AgentScope, raw: &str) -> Result<AgentDefinition, AgentError> {
    let path = format!("{root}/agents/{name}.md");
    let (yaml, prompt) = split_definition(&path, raw)?;
    let frontmatter = head(&yaml)
        .map_err(|source| AgentError::InvalidFrontmatter { path: path.clone(), source })?;
    load(&path, scope, frontmatter, prompt)
}

fn project(name: &str, raw: &str) -> Result<AgentDefinition, AgentError> {
    agent("/repo/.octane", name, AgentScope::Project, raw)
}

#[test]
fn the_builtins_cover_the_four_specialisms() {
    let agents = builtin_agents();
    let names: Vec<&str> = agents.iter().map(|a| a.name.as_str()).collect();
    for expected in ["research", "test", "code", "critic"] {
        assert!(names.contains(&expected), "missing {expected}");
    }
}

#[test]
fn every_builtin_says_when_to_use_it_not_just_what_it_is() {
    // The description is the only basis the model picks on.
    for agent in builtin_agents() {
        if agent.frontmatter.mode != AgentMode::Subagent {
            continue;
        }
        assert!(
            agent.frontmatter.description.to_lowercase().contains("use "),
            "{} does not say when to reach for it",
            agent.name
        );
    }
}

#[test]
fn read_only_agents_cannot_reach_mutating_tools() {
    let agents = builtin_agents();
    let research = agents.iter().find(|a| a.name == "research").expect("research agent");
    assert!(research.permits_tool("grep"));
    assert!(!research.permits_tool("write"));
    assert!(!research.permits_tool("bash"));

    let critic = agents.iter().find(|a| a.name == "critic").expect("critic agent");
    assert!(!critic.permits_tool("edit"));
}

#[test]
fn subagents_cannot_delegate_further() {
    // Unbounded recursion is spend with no upside.
    for agent in builtin_agents() {
        if agent.frontmatter.mode == AgentMode::Subagent {
            assert!(!agent.can_delegate(), "{} can delegate", agent.name);
        }
    }
}

#[test]
fn a_definition_loads_from_markdown() {
    let (agents, errors) = discover_agents(vec![project(
        "auditor",
        "---\ndescription: Reviews a diff. Use before committing.\nmode: subagent\ntools: [read, grep]\n---\nYou are reviewing.\n",
    )]);
    assert!(errors.is_empty());

    let auditor = agents.get("auditor").unwrap();
    assert_eq!(auditor.scope, AgentScope::Project);
    assert_eq!(auditor.frontmatter.tools, vec!["read", "grep"]);
    assert!(auditor.prompt.starts_with("You are reviewing."));
    assert_eq!(auditor.manifest_entry(), "- auditor: Reviews a diff. Use before committing.");
}

#[test]
fn a_file_overrides_a_builtin_of_the_same_name() {
    let (agents, _) = discover_agents(vec![project(
        "critic",
        "---\ndescription: My own critic. Use always.\n---\nMine.\n",
    )]);
    let critic = agents.get("critic").unwrap();
    assert_eq!(critic.scope, AgentScope::Project);
    assert_eq!(critic.prompt, "Mine.");
}

#[test]
fn a_project_file_beats_a_user_file() {
    let scope = |index: usize| AgentScope::of_root(index, 2);
    let (agents, _) = discover_agents(vec![
        agent("/home/.octane", "shared", scope(0), "---\ndescription: from user. Use it.\n---\nUser.\n"),
        agent("/repo/.octane", "shared", scope(1), "---\ndescription: from project. Use it.\n---\nProject.\n"),
    ]);
    let shared = agents.get("shared").unwrap();
    assert_eq!(shared.prompt, "Project.");
    assert_eq!(shared.scope, AgentScope::Project);
    assert_eq!(scope(0).label(), "user");
    assert_eq!(AgentScope::Builtin.label(), "built-in");
}

#[test]
fn an_empty_description_is_rejected() {
    // An agent the model cannot choose is worse than no agent.
    let (_agents, errors) =
        discover_agents(vec![project("nameless", "---\ndescription: \"\"\n---\nBody.\n")]);
    assert!(matches!(errors.first(), Some(AgentError::NoDescription { .. })));
    assert_eq!(
        errors[0].to_string(),
        "/repo/.octane/agents/nameless.md: description must not be empty — it is how the model picks"
    );
}

#[test]
fn a_malformed_file_is_reported_but_the_rest_still_load() {
    let (agents, errors) = discover_agents(vec![
        project("broken", "no frontmatter here\n"),
        project("fine", "---\ndescription: Works. Use it.\n---\nBody.\n"),
    ]);
    assert!(agents.contains("fine"));
    assert_eq!(errors.len(), 1);
    assert!(errors[0].to_string().contains("broken"));
    assert!(matches!(errors[0], AgentError::MissingFrontmatter { .. }));
}

#[test]
fn a_missing_directory_is_not_an_error() {
    let (agents, errors) = discover_agents(Vec::new());
    assert!(errors.is_empty());
    // ...and the builtins survive.
    assert!(agents.contains("research"));
    assert_eq!(agents.len(), 6);
}

#[test]
fn hidden_agents_are_not_offered() {
    let (agents, _) = discover_agents(vec![project(
        "titler",
        "---\ndescription: Names sessions.\nmode: hidden\n---\nB.\n",
    )]);
    let titler = agents.get("titler").unwrap();
    assert!(!titler.is_offered());
    assert!(agents.get("research").unwrap().is_offered());
}

#[test]
fn a_bad_head_and_an_unreadable_file_say_where() {
    let bad = project("bad", "---\n: [\n---\nBody.\n").unwrap_err();
    assert!(matches!(bad, AgentError::InvalidFrontmatter { .. }));
    assert!(bad.to_string().starts_with("/repo/.octane/agents/bad.md: "));
    let io = AgentError::Io { path: "/a.md".into(), source: "denied".into() };
    assert_eq!(io.to_string(), "/a.md: denied");
    assert!(is_agent_file("/a/b.md"));
    assert!(!is_agent_file("/a/b.json"));
}

#[test]
fn quotes_in_a_row_are_bounded() {
    let quotes = |n: usize| Value::Text(format!("a{}b", "\"".repeat(n)));
    assert!(quotes(255).is_writable());
    assert!(!quotes(256).is_writable());
    assert!(!Value::Text("'".repeat(256)).is_writable());
    assert!(Value::Text("\"'".repeat(300)).is_writable());
    assert!(Value::Bool(true).is_writable());

    for text in ["a\"b", "it's", "two\nlines\r\n", "back\\slash'''\"\"\"", "", "\u{7f}\t\u{0}"] {
        let edited =
            octane::config::edit::set("/s", Some("other = 1 # kept\n[t]\nx = 2\n"), "theme", &Value::Text(text.into()))
                .unwrap();
        let table: toml::Table = toml::from_str(&edited).unwrap();
        assert_eq!(table["theme"].as_str(), Some(text));
        assert_eq!(table["other"].as_integer(), Some(1));
        assert_eq!(table["t"]["x"].as_integer(), Some(2));
        assert!(edited.contains("other = 1 # kept\n"));
    }
}

#[test]
fn a_replaced_value_takes_no_comment_line_with_it() {
    let before = "# top\n\ntheme = \"a\" # beside\n  # indented\r\nother = [\n  # inside\n  1,\n]\n\n# of a table\n[t]\nx = 1\n# at the end";
    for (key, value) in [
        ("theme", Value::text("b")),
        ("ascii", Value::Bool(true)),
        ("model", Value::text("two\nlines")),
    ] {
        let after = octane::config::edit::set("/s", Some(before), key, &value).unwrap();
        for line in before.lines().filter(|line| line.trim_start().starts_with('#')) {
            assert!(after.lines().any(|kept| kept == line), "{key}: {line:?} in {after:?}");
        }
    }
}
