//! The terminal client: what it decides and what it says.

use octane::cli::connect::{
    connect_provider, connect_rows, connected, credential_state, render_connect_list,
    unknown_provider, Credential, Recipe,
};
use octane::cli::dispatch::{
    builtins, Effect, Interactive, Listing, Pending, ShellOutput, UiEvent, WrittenSettings,
    NO_MODEL,
};
use octane::cli::listing::{
    codebase_search_prompt, render_agents, render_mcp, render_models, render_settings,
    render_stats, render_tools, ModelRow, Stats, EXAMPLE_PROVIDER,
};
use octane::cli::opening::{candidates, command_dirs, opening, Findings, Recording};
use octane::cli::policy::{build_policy, describe_reason, gate, no_tool, tool_policy};
use octane::cli::preferences::{
    apply_setting, change_report, choose_value, is_editable, set_thinking, setting_value_picker,
    settings_picker, Live,
};
use octane::cli::servers::{enabled, Attempt, Mcp};
use octane::cli::shell::{
    exit_failed, read_input, shell_approval, shell_failed, shell_input, Expanding, ShellReply,
    ShellStep,
};
use octane::cli::startup::{
    config_dirs, describe_sandbox, doctor, resumed_notice, session_prompt, session_row,
    sessions_dir, starting_mode, starting_model, starting_thinking, starts_contained,
    unknown_theme, with_network, Diagnosis, ModeArg, ModelLine, Network, Sandbox, SessionSummary,
    WritableRoot,
};
use octane::cli::themes::{
    custom_theme, custom_theme_note, discover_themes, is_theme_file, palette_file, resolve_theme,
    role_names, theme_base_picker, theme_choices, theme_name, Resolved, Rgb, ThemeFile, NEW_THEME,
    THEME_BASE,
};
use octane::cli::turns::{
    activity, after_turn, compaction, offered, progress, shortened, subagent, subagent_report,
    summarizers, task_prompt, ModelChoice, SessionUsage, ToolEntry,
};
use octane::commands::command::{Command, CommandFrontmatter};
use octane::commands::discovery::{discover, Found};
use octane::commands::{CommandError, Kind, Registry};
use octane::config::agent::{builtin_agents, AgentDefinition};
use octane::config::edit::{Applies, Value};
use octane::config::settings::{Permissions, Settings, SettingsError, Thinking};
use octane::engine::prompt::ToolSchema;
use octane::engine::turn::TurnOutcome;
use octane::engine::StopReason;
use octane::mcp::client::ToolDescriptor;
use octane::mcp::config::ServerConfig;
use octane::mcp::McpError;
use octane::permission::{Decision, PermissionMode, Policy, Resource, Scope};
use octane::protocol::{
    Event, Item, ItemEvent, ItemId, ItemKind, ItemStatus, Message, Role, ToolCallId, TurnId, Usage,
};
use octane::text_map::TextMap;

fn texts(list: &[&str]) -> Vec<String> {
    list.iter().map(|text| text.to_string()).collect()
}

/// The tools that come with the client, and whether each may change anything.
fn tools() -> Vec<(String, bool)> {
    [
        ("bash", true),
        ("edit", true),
        ("glob", false),
        ("grep", false),
        ("list", false),
        ("read", false),
        ("write", true),
    ]
    .iter()
    .map(|(name, mutating)| (name.to_string(), *mutating))
    .collect()
}

fn summary(preview: Option<&str>) -> SessionSummary {
    SessionSummary {
        id: "ses_0192f0c1d2e3f4a5b6c7d8e9f0a1b2c3".into(),
        timestamp: "2026-07-27T09:41:02.123456789Z".into(),
        cwd: "/tmp/project".into(),
        messages: 7,
        preview: preview.map(Into::into),
    }
}

/// The row is chosen by what was asked in it, and resumed by the same id
/// `octane resume <id>` takes. Keying a row by its path would work until the
/// day the two lookups disagreed about which file an id names.
#[test]
fn a_session_row_is_keyed_by_its_id_and_filterable_by_its_preview() {
    let session = summary(Some("why does the sandbox deny this write"));
    let row = session_row(&session);
    assert!(row.label.contains("sandbox"));
    assert_eq!(row.key, session.id, "the key must be the full id");
    assert_eq!(row.detail, "ses_0192f0c1  /tmp/project");
    assert_eq!(row.state, "7 msg");
}

/// A session someone opened and closed has no preview, and a row with an
/// empty label is one nothing can be filtered or aimed at.
#[test]
fn a_session_with_nothing_asked_in_it_still_has_a_label() {
    let label = session_row(&summary(None)).label;
    assert!(label.contains("2026-07-27 09:41"), "the timestamp anchors the row: {label}");
    assert!(label.len() > 16, "an empty preview must not leave a bare stamp: {label}");
}

#[test]
fn a_seeded_theme_file_reloads_as_the_scheme_it_copied() {
    let colours: Vec<Option<Rgb>> = (0..role_names().len())
        .map(|i| (i % 2 == 0).then_some(Rgb { red: i as u8, green: 0xD6, blue: 0 }))
        .collect();
    let parsed: serde_json::Value = serde_json::from_str(&palette_file(&colours)).unwrap();
    for (role, colour) in role_names().iter().zip(&colours) {
        match colour {
            Some(rgb) => {
                assert_eq!(parsed[role], format!("#{:02x}{:02x}{:02x}", rgb.red, rgb.green, rgb.blue))
            }
            None => assert!(parsed[role].is_null()),
        }
    }

    // The default's copy is all nulls, and null is not "missing a colour" —
    // it is the inheritance that makes an unset role the default's in the first
    // place.
    let bare = palette_file(&vec![None; role_names().len()]);
    assert_eq!(bare.matches("null").count(), role_names().len());
}

/// A picker that can offer a name nothing resolves is a picker that can put
/// the session into the error it exists to prevent.
#[test]
fn every_theme_the_picker_offers_resolves_to_a_theme() {
    let built_in = texts(&["octane", "nord"]);
    let mut customs: TextMap<u8> = TextMap::new();
    customs.insert("mine".to_string(), 1);

    for name in theme_choices(&built_in, &customs) {
        assert!(
            resolve_theme(&name, &built_in, &customs) != Resolved::Nothing,
            "{name} is offered but resolves to nothing"
        );
    }
    assert_eq!(resolve_theme("nope", &built_in, &customs), Resolved::Nothing);
    // And the builder's row is not one of them: it opens a picker, and a
    // file named after it would be written to `theme` as a name.
    assert!(!theme_choices(&built_in, &customs).iter().any(|name| name == NEW_THEME));
}

/// Spot-checks the exact split rather than comparing two derived sets,
/// which would hold even if `is_mutating` inverted and both columns moved
/// together.
#[test]
fn plan_mode_hides_exactly_the_mutating_tools() {
    let listing = render_tools(&tools(), PermissionMode::Plan);
    let (offered, hidden) = listing.split_once("Hidden by").expect("a hidden section");

    for read_only in ["read", "glob", "grep", "list"] {
        assert!(offered.contains(read_only), "{read_only} must stay offered in plan mode");
    }
    for mutating in ["write", "edit", "bash"] {
        assert!(hidden.contains(mutating), "{mutating} must be hidden in plan mode");
        assert!(!offered.contains(mutating), "{mutating} must not also be offered");
    }
}

#[test]
fn every_tool_is_offered_outside_plan_mode() {
    let listing = render_tools(&tools(), PermissionMode::Default);
    assert!(!listing.contains("Hidden by"), "nothing is withheld by default");
    for name in ["read", "write", "edit", "bash", "glob", "grep", "list"] {
        assert!(listing.contains(name), "{name} missing");
    }
    assert!(listing.contains("  bash   offered\n"), "{listing}");
}

/// Every built-in must have a code path. A name offered with no arm in
/// the dispatch falls through to the skill lookup and then to "Unknown
/// command", so the menu offers something that does nothing — and nothing
/// about that fails at compile time.
///
/// The list below is deliberately a second copy: it exists to disagree.
#[test]
fn every_offered_builtin_is_one_the_dispatch_handles() {
    const DISPATCHED: &[&str] = &[
        "thinking", "help", "models", "connect", "cs", "agents", "tools", "stats",
        "settings", "clear", "exit", "mcp",
    ];
    for builtin in builtins() {
        assert!(
            DISPATCHED.contains(&builtin.name),
            "/{} is offered in the menu but has no arm in the dispatch",
            builtin.name,
        );
        let effects = command(&mut session(true), builtin.name, "something");
        assert!(
            !effects.iter().any(|effect| matches!(effect, Effect::Find { .. })),
            "/{} falls through to the skills",
            builtin.name,
        );
    }
    for name in DISPATCHED {
        assert!(
            builtins().iter().any(|builtin| builtin.name == *name),
            "/{name} is dispatched but never offered, so nobody can discover it",
        );
    }
}

/// The registry is what `/` reads from, so a built-in missing from it is a
/// command the user cannot find.
#[test]
fn the_registry_offers_every_builtin() {
    let registry = registry(Vec::new());
    for builtin in builtins() {
        let entry = registry.get(builtin.name).expect(builtin.name);
        assert_eq!(entry.kind, Kind::Builtin);
    }
}

/// Prose built from an indented source literal must not carry the source's
/// indentation into what is sent or shown. `/cs` did: it had been flattened
/// into a single-line literal with the indentation baked in as escapes, so
/// the model received "in one          message" mid-sentence.
#[test]
fn no_generated_prose_carries_source_indentation() {
    let prompt = codebase_search_prompt("where is the sandbox built?");
    for line in prompt.lines() {
        assert!(
            !line.trim_start().contains("  "),
            "a run of spaces survived into the prompt: {line:?}",
        );
    }
    assert!(prompt.contains("in one message so they run concurrently"));
}

/// The transcript renders markdown, so a listing that starts a line with a
/// marker turns into a list, a heading, or a horizontal rule.
#[test]
fn no_listing_line_is_read_as_markdown() {
    let mut listings = vec![
        render_tools(&tools(), PermissionMode::Plan),
        render_tools(&tools(), PermissionMode::Default),
    ];
    listings.push(render_agents(&builtin_agents(), &Vec::new()));

    for listing in listings {
        for line in listing.lines() {
            let trimmed = line.trim_start();
            for marker in ["- ", "* ", "+ ", "> ", "# ", "---", "***", "___", "```", "~~~"] {
                assert!(
                    !trimmed.starts_with(marker),
                    "line would render as markdown: {line:?}"
                );
            }
        }
    }
}

/// The prompt is the whole of what stands between a command file that
/// arrived with the cloned repository and a shell, so it must name the
/// command that would actually run — the same string handed to the shell
/// — and the file asking for it. A prompt that showed anything else would be
/// worse than no prompt, since it would collect a genuine "yes" for
/// something the user never saw.
#[test]
fn the_approval_names_the_command_and_the_file_that_wants_it() {
    let prompt = shell_approval("review", "git diff --cached");

    assert_eq!(
        prompt.resource,
        Resource::command("git diff --cached"),
        "the resource asked about must be the one the policy evaluated",
    );
    assert!(prompt.resource.to_string().contains("git diff --cached"));
    assert!(prompt.summary.contains("/review"), "{}", prompt.summary);
    assert!(prompt.diff.is_none(), "a command has no diff to offer");
}

#[test]
fn the_cache_hit_rate_cannot_exceed_one() {
    // Cached tokens are counted inside the input total by every codec, so a
    // rate above 1 would mean the accounting drifted rather than the cache
    // performing impossibly well.
    let mut usage = SessionUsage::default();
    assert_eq!((usage.cached_input, usage.input), (0, 0));
    let reported = Usage {
        input_tokens: 1_000,
        output_tokens: 10,
        cached_input_tokens: 900,
        reasoning_tokens: 0,
    };
    assert!(usage.holds(&reported));
    usage.add(&reported);
    let rate = usage.cached_input as f64 / usage.input as f64;
    assert!((rate - 0.9).abs() < f64::EPSILON);
    assert_eq!((usage.output, usage.calls), (10, 1));

    let huge = Usage { input_tokens: u64::MAX, ..Usage::default() };
    assert!(!usage.holds(&huge));
}

fn no_level() -> Result<Thinking, String> {
    Err("no such level".into())
}

fn session(has_model: bool) -> Interactive {
    Interactive {
        mode: PermissionMode::Default,
        thinking: Thinking::Auto,
        showing: false,
        history: Vec::new(),
        has_model,
        models: texts(&["a/b"]),
        themes: texts(&["octane", "nord"]),
        settings: Settings::default(),
        pending: Pending::Nothing,
    }
}

fn file_command(name: &str, template: &str) -> Command {
    Command {
        name: name.into(),
        frontmatter: CommandFrontmatter::default(),
        template: template.into(),
        path: format!("/c/{name}.md"),
        is_project_local: true,
    }
}

fn registry(files: Vec<Command>) -> Registry {
    let (commands, errors) = discover(files.into_iter().map(Found::Command).collect());
    Registry::load(&builtins(), commands, errors).0
}

fn send(session: &mut Interactive, event: UiEvent) -> Vec<Effect> {
    assert!(session.awaits(&event));
    session.handle(&registry(vec![file_command("review", "Review $1")]), event)
}

fn command(session: &mut Interactive, name: &str, args: &str) -> Vec<Effect> {
    send(session, UiEvent::Command { name: name.into(), args: args.into(), level: no_level() })
}

fn said(effects: &[Effect]) -> Vec<String> {
    effects
        .iter()
        .filter_map(|effect| match effect {
            Effect::Say(text) => Some(text.clone()),
            Effect::Fail(text) => Some(format!("! {text}")),
            _ => None,
        })
        .collect()
}

#[test]
fn a_prompt_runs_a_turn_and_is_recorded() {
    let mut session = session(true);
    let effects = send(
        &mut session,
        UiEvent::Prompt { text: "look at this".into(), references: texts(&["a.rs", "b.rs"]) },
    );
    assert!(matches!(&effects[0], Effect::Note(ItemKind::UserMessage { text }) if text == "look at this"));
    assert!(matches!(&effects[1], Effect::Attach { reference } if reference == "a.rs"));
    assert!(matches!(&effects[2], Effect::Attach { reference } if reference == "b.rs"));
    assert_eq!(effects.len(), 3);

    let effects = send(
        &mut session,
        UiEvent::Attached(vec![
            (ToolCallId::new(), Ok("fn a() {}".into())),
            (ToolCallId::new(), Err("no such file".into())),
        ]),
    );
    assert!(matches!(
        &effects[0],
        Effect::Note(ItemKind::ToolExecution { name, input, .. })
            if name == "read" && input == "{\"path\":\"a.rs\"}"
    ));
    assert_eq!(said(&effects), vec!["! @b.rs: no such file"]);
    assert!(matches!(effects[2], Effect::RunTurn));
    assert!(matches!(effects[3], Effect::Record));
    assert_eq!(session.history.len(), 1);
    assert_eq!(session.history[0].text_content(), "look at this\n\nfn a() {}");
}

#[test]
fn without_a_model_nothing_runs_and_the_user_is_told() {
    let mut session = session(false);
    send(&mut session, UiEvent::Prompt { text: "hi".into(), references: Vec::new() });
    let effects = send(&mut session, UiEvent::Attached(Vec::new()));
    assert_eq!(said(&effects), vec![format!("! {NO_MODEL}")]);
    assert!(session.history.is_empty());
    assert_eq!(said(&command(&mut session, "stats", "")), vec![NO_MODEL]);
    assert_eq!(said(&command(&mut session, "cs", "where")), vec![format!("! {NO_MODEL}")]);
}

#[test]
fn a_reply_nobody_waits_for_is_not_awaited() {
    let session = session(true);
    assert!(!session.awaits(&UiEvent::Attached(Vec::new())));
    assert!(!session.awaits(&UiEvent::Expanded(Ok("x".into()))));
    assert!(session.awaits(&UiEvent::Interrupt));
}

#[test]
fn a_command_file_expands_and_runs() {
    let mut session = session(true);
    let effects = command(&mut session, "review", "42");
    assert!(matches!(&effects[0], Effect::Note(ItemKind::UserMessage { text }) if text == "/review 42"));
    assert!(matches!(&effects[1], Effect::Expand { name, args } if name == "review" && args == "42"));
    let effects = send(&mut session, UiEvent::Expanded(Ok("Review 42".into())));
    assert!(matches!(effects[0], Effect::RunTurn));
    assert_eq!(session.history[0].text_content(), "Review 42");

    command(&mut session, "review", "");
    let effects = send(&mut session, UiEvent::Expanded(Err("too few".into())));
    assert_eq!(said(&effects), vec!["! too few"]);
    assert_eq!(session.history.len(), 1);
}

#[test]
fn a_codebase_search_needs_a_question() {
    let mut session = session(true);
    let effects = command(&mut session, "cs", "where is SSE parsed");
    assert!(matches!(effects[1], Effect::RunTurn));
    assert_eq!(
        session.history[0].text_content(),
        codebase_search_prompt("where is SSE parsed")
    );
    let effects = command(&mut session, "cs", "  ");
    assert!(matches!(&effects[1], Effect::Find { name } if name == "cs"));
}

#[test]
fn built_ins_do_what_they_say() {
    let mut session = session(true);
    for (name, listing) in [
        ("help", Listing::Help),
        ("models", Listing::Models),
        ("agents", Listing::Agents),
        ("mcp", Listing::Mcp),
        ("tools", Listing::Tools),
        ("stats", Listing::Stats),
    ] {
        let effects = command(&mut session, name, "");
        assert!(matches!(&effects[1], Effect::Show(shown) if *shown == listing), "{name}");
    }
    assert!(matches!(command(&mut session, "connect", "")[1], Effect::OfferProviders));
    assert!(matches!(command(&mut session, "settings", "")[1], Effect::OfferSettings(_)));
    assert!(matches!(command(&mut session, "quit", "")[1], Effect::Leave));
    assert!(matches!(send(&mut session, UiEvent::Exit)[0], Effect::Leave));
    assert!(send(&mut session, UiEvent::Interrupt).is_empty());
}

#[test]
fn clearing_forgets_the_conversation_too() {
    let mut session = session(true);
    session.history.push(Message::text(Role::User, "secret"));
    let effects = command(&mut session, "clear", "");
    assert!(matches!(effects[1], Effect::ClearTranscript));
    assert!(session.history.is_empty());
}

#[test]
fn an_unknown_command_may_be_a_skill() {
    let mut session = session(true);
    let effects = command(&mut session, "deploy", "");
    assert!(matches!(&effects[1], Effect::Find { name } if name == "deploy"));
    let effects = send(&mut session, UiEvent::Found(None));
    assert_eq!(said(&effects), vec!["Unknown command /deploy. Try /help."]);

    command(&mut session, "deploy", "");
    let effects = send(&mut session, UiEvent::Found(Some("how to deploy".into())));
    assert_eq!(said(&effects), vec!["how to deploy"]);
}

#[test]
fn changing_the_mode_changes_what_decides_and_tells_the_model() {
    let mut session = session(true);
    send(&mut session, UiEvent::ModeChanged(PermissionMode::Plan));
    assert_eq!(session.mode, PermissionMode::Plan);
    assert_eq!(session.history.len(), 1);
    send(&mut session, UiEvent::ModeChanged(PermissionMode::Plan));
    assert_eq!(session.history.len(), 1, "no change, no notice");
}

#[test]
fn a_setting_is_chosen_written_and_followed() {
    let mut session = session(true);
    let effects = send(
        &mut session,
        UiEvent::PickedSetting { key: "mode".into(), ellipsis: "...".into() },
    );
    assert!(matches!(&effects[0], Effect::OfferValues { setting, rows } if setting == "mode" && rows.len() == 4));

    let effects = send(
        &mut session,
        UiEvent::PickedValue { setting: "mode".into(), value: "plan".into() },
    );
    assert!(matches!(effects[0], Effect::ClosePickers));
    assert!(matches!(
        &effects[1],
        Effect::Write { key, value: Value::Text(text) } if key == "mode" && text == "plan"
    ));

    let effects = send(
        &mut session,
        UiEvent::Written(Ok(WrittenSettings {
            target: "/r/settings.toml".into(),
            settings: Settings { mode: Some(PermissionMode::Plan), ..Settings::default() },
            errors: Vec::new(),
        })),
    );
    assert!(matches!(effects[0], Effect::Adopt(Live::Mode(PermissionMode::Plan))));
    assert_eq!(said(&effects), vec!["`mode` is now `plan` in /r/settings.toml.\n"]);
    assert_eq!(session.mode, PermissionMode::Plan);
    assert_eq!(session.settings.mode, Some(PermissionMode::Plan));
}

#[test]
fn a_setting_that_cannot_be_changed_says_so() {
    let mut session = session(true);
    let effects = send(
        &mut session,
        UiEvent::PickedSetting { key: "permissions".into(), ellipsis: "...".into() },
    );
    assert!(matches!(effects[0], Effect::ClosePickers));
    assert_eq!(said(&effects), vec!["! permissions is not an editable setting."]);

    let effects = send(
        &mut session,
        UiEvent::PickedValue { setting: "mode".into(), value: "yolo".into() },
    );
    assert_eq!(said(&effects), vec!["! yolo is not a value mode can take"]);

    send(&mut session, UiEvent::PickedValue { setting: "ascii".into(), value: "true".into() });
    let effects = send(&mut session, UiEvent::Written(Err("read-only".into())));
    assert_eq!(said(&effects), vec!["! read-only"]);
}

#[test]
fn a_new_theme_ends_where_picking_one_does() {
    let mut session = session(true);
    let effects = send(
        &mut session,
        UiEvent::PickedValue { setting: "theme".into(), value: NEW_THEME.into() },
    );
    assert!(matches!(effects[0], Effect::OfferThemes));

    let effects = send(
        &mut session,
        UiEvent::PickedValue { setting: THEME_BASE.into(), value: "nord".into() },
    );
    assert!(matches!(&effects[1], Effect::Create { base } if base == "nord"));
    let effects = send(
        &mut session,
        UiEvent::Created {
            outcome: Ok(("nord-custom".into(), "Wrote it.".into())),
            themes: texts(&["octane", "nord", "nord-custom"]),
        },
    );
    assert_eq!(said(&effects), vec!["Wrote it."]);
    assert!(matches!(
        &effects[1],
        Effect::Write { key, value: Value::Text(text) } if key == "theme" && text == "nord-custom"
    ));

    session.pending = Pending::Creating;
    let effects = send(
        &mut session,
        UiEvent::Created { outcome: Err("disk full".into()), themes: Vec::new() },
    );
    assert_eq!(said(&effects), vec!["! disk full"]);
    assert_eq!(session.themes.len(), 3);
}

#[test]
fn a_session_that_is_picked_is_resumed() {
    let mut session = session(true);
    let effects = send(&mut session, UiEvent::PickedSession { key: "ses_1".into() });
    assert!(matches!(&effects[1], Effect::Load { key } if key == "ses_1"));
    let effects =
        send(&mut session, UiEvent::Loaded(Ok(vec![Message::text(Role::User, "earlier")])));
    assert_eq!(said(&effects), vec![resumed_notice(1)]);
    assert_eq!(session.history.len(), 1);

    session.pending = Pending::Loading;
    let effects = send(&mut session, UiEvent::Loaded(Err("gone".into())));
    assert_eq!(said(&effects), vec!["! gone"]);
}

#[test]
fn a_provider_that_is_picked_is_set_up() {
    let mut session = session(true);
    let effects = send(&mut session, UiEvent::PickedProvider { key: "openai".into() });
    assert!(matches!(&effects[1], Effect::Connect { key } if key == "openai"));
    let effects = send(&mut session, UiEvent::Connected(Ok("Wrote it.".into())));
    assert_eq!(said(&effects), vec!["Wrote it.", "Restart octane to use it."]);
    session.pending = Pending::Connecting;
    let effects = send(&mut session, UiEvent::Connected(Err("no".into())));
    assert_eq!(said(&effects), vec!["! no"]);
}

#[test]
fn a_shell_command_is_shown_with_its_result() {
    let mut session = session(true);
    let id = ToolCallId::new();
    let effects = send(&mut session, UiEvent::Shell { id: id.clone(), command: "ls".into() });
    assert!(matches!(&effects[1], Effect::RunShell { input } if *input == shell_input("ls")));

    let effects = send(
        &mut session,
        UiEvent::Ended(Ok(ShellOutput {
            output: "nope".into(),
            metadata: Some("{\"exit_code\":2}".into()),
        })),
    );
    match &effects[0] {
        Effect::Note(ItemKind::ToolResult { call_id, name, title, body, is_error, .. }) => {
            assert_eq!(*call_id, id);
            assert_eq!((name.as_str(), title.as_str(), body.as_str()), ("bash", "ls", "nope"));
            assert!(is_error);
        }
        other => panic!("{other:?}"),
    }

    send(&mut session, UiEvent::Shell { id, command: "ls".into() });
    let effects = send(&mut session, UiEvent::Ended(Err("no sandbox".into())));
    assert!(matches!(
        &effects[0],
        Effect::Note(ItemKind::ToolResult { body, is_error: true, metadata: None, .. })
            if body == "no sandbox"
    ));
}

#[test]
fn thinking_alone_toggles_and_with_a_level_sets() {
    let mut session = session(true);
    let effects = command(&mut session, "thinking", "");
    assert!(session.showing);
    assert!(matches!(effects[1], Effect::Adopt(Live::Reasoning(true))));
    assert!(said(&effects)[0].starts_with("Reasoning is now shown. Effort is auto."));

    let (mut showing, mut thinking) = (true, Thinking::Auto);
    let text = set_thinking(&mut showing, &mut thinking, "low", Ok(Thinking::Low));
    assert_eq!((showing, thinking, text.as_str()), (true, Thinking::Low, "Thinking effort set to low."));
    let text = set_thinking(&mut showing, &mut thinking, "off", Ok(Thinking::Off));
    assert!(text.contains("Not every endpoint honours this."));
    let text = set_thinking(&mut showing, &mut thinking, "much", Err("what?".into()));
    assert_eq!((thinking, text.as_str()), (Thinking::Off, "what?"));
}

#[test]
fn shell_inputs_are_json() {
    assert_eq!(
        shell_input("echo \"hi\""),
        "{\"command\":\"echo \\\"hi\\\"\",\"description\":\"echo \\\"hi\\\"\"}"
    );
    assert_eq!(read_input("a\\b"), "{\"path\":\"a\\\\b\"}");
    let value: serde_json::Value = serde_json::from_str(&shell_input("a\nb")).unwrap();
    assert_eq!(value["command"], "a\nb");
}

#[test]
fn a_command_failed_if_its_exit_code_says_so() {
    assert!(shell_failed(&Some("{\"exit_code\":1}".into())));
    assert!(!shell_failed(&Some("{\"exit_code\":0}".into())));
    assert!(!shell_failed(&Some("{\"exit_code\":-1}".into())));
    assert!(!shell_failed(&Some("{\"lines\":3}".into())));
    assert!(!shell_failed(&Some("not json".into())));
    assert!(!shell_failed(&None));
    assert!(exit_failed(Some(7)));
    assert!(!exit_failed(Some(0)));
    assert!(!exit_failed(None));
}

fn policy(allow: &[&str], ask: &[&str], deny: &[&str]) -> Policy {
    let permissions =
        Permissions { allow: texts(allow), ask: texts(ask), deny: texts(deny) };
    build_policy("/repo", &permissions).0
}

/// Walks a command file to its prompt: what was asked and run, what the user was told,
/// and what is sent.
fn walk(template: &str, policy: &Policy, mode: PermissionMode, yes: bool) -> (Vec<String>, Vec<String>, String) {
    let mut expanding = Expanding::new(&file_command("x", template), "").unwrap();
    let mut told = Vec::new();
    let mut events = Vec::new();
    let mut reply = ShellReply::Begin;
    loop {
        assert!(expanding.expects(&reply));
        reply = match expanding.next(&mut told, policy, mode, reply) {
            ShellStep::Ask(approval) => {
                events.push(format!("ask {}", approval.resource.target));
                ShellReply::Answered(yes)
            }
            ShellStep::Run(command) => {
                events.push(format!("run {command}"));
                ShellReply::Ran(format!("<{command}>"))
            }
            ShellStep::Send(prompt) => return (events, told, prompt),
        };
    }
}

#[test]
fn a_command_file_is_trusted_no_more_than_the_model() {
    let rules = policy(&["command(ls)"], &[], &["command(rm)"]);
    let template = "!`ls` !`pwd` !`rm`";
    let (events, told, prompt) = walk(template, &rules, PermissionMode::Default, true);
    assert_eq!(events, vec!["run ls", "ask pwd", "run pwd"]);
    assert_eq!(told, vec!["/x: `rm` is denied by the permission rules and was not run."]);
    assert!(prompt.contains("[not run: `rm`]"));
    assert!(prompt.contains("<pwd>"));

    let (events, told, _) = walk(template, &rules, PermissionMode::Default, false);
    assert_eq!(events, vec!["run ls", "ask pwd"]);
    assert_eq!(told[0], "/x: `pwd` was not run.");

    let (events, told, _) = walk(template, &rules, PermissionMode::Plan, true);
    assert!(events.is_empty());
    assert_eq!(told.len(), 3);

    let (events, told, prompt) = walk("plain", &rules, PermissionMode::Plan, true);
    assert!(events.is_empty() && told.is_empty());
    assert_eq!(prompt, "plain");
}

#[test]
fn a_command_file_without_its_arguments_is_refused() {
    let error = Expanding::new(&file_command("x", "$1"), "").unwrap_err();
    assert!(matches!(error, CommandError::MissingArguments { expected: 1, actual: 0, .. }));
}

#[test]
fn configured_rules_come_on_top_of_the_baseline() {
    let (policy, errors) = build_policy(
        "/repo",
        &Permissions {
            allow: texts(&["command(git)", "nonsense"]),
            ask: texts(&["command(make)"]),
            deny: texts(&["command(curl)"]),
        },
    );
    assert_eq!(errors.len(), 1);
    let decide = |resource: &Resource| policy.evaluate(resource, PermissionMode::Default).decision;
    assert_eq!(decide(&Resource::command("git")), Decision::Allow);
    assert_eq!(decide(&Resource::command("make")), Decision::Ask);
    assert_eq!(decide(&Resource::command("curl")), Decision::Deny);
    assert_eq!(decide(&Resource::command("sudo")), Decision::Deny);
    assert_eq!(decide(&Resource::write_file("/repo/a.rs")), Decision::Allow);
    assert_eq!(decide(&Resource::write_file("/repo/.git/hooks/pre-commit")), Decision::Deny);
    assert_eq!(decide(&Resource::write_file("/repo/.octane/config.toml")), Decision::Deny);
    assert_eq!(decide(&Resource::read_file("/repo/.env")), Decision::Deny);
    // Seven of the baseline, three of them for the workspace, and three configured.
    assert_eq!(policy.rule_count(), 10);
}

#[test]
fn a_tool_run_by_hand_is_gated_by_the_same_policy() {
    let (policy, errors) = tool_policy("/repo");
    assert!(errors.is_empty());
    let check = |resource: &str, mode| gate(&policy, mode, &texts(&[resource]));
    assert_eq!(check("read_file(/repo/a.rs)", PermissionMode::Default), None);
    assert_eq!(
        check("command(ls)", PermissionMode::Default).unwrap(),
        "command(ls) needs approval, and this subcommand cannot prompt. Add an allow rule, or re-run with --mode accept-edits for file writes."
    );
    assert_eq!(
        check("command(ls)", PermissionMode::Plan).unwrap(),
        "denied: command(ls) (Mode(Plan))"
    );
    assert_eq!(
        check("command(sudo)", PermissionMode::Default).unwrap(),
        "denied: command(sudo) (Rule { source: \"command(sudo)\", scope: Managed })"
    );
    assert_eq!(check("not a resource", PermissionMode::Default), None);
    assert_eq!(check("command(ls)", PermissionMode::Bypass), None);
}

#[test]
fn reasons_read_as_they_are() {
    let rules = Policy::builder().allow("command(ls)", Scope::Session).build().0;
    let verdict = rules.evaluate(&Resource::command("ls"), PermissionMode::Default);
    assert_eq!(
        describe_reason(&verdict.reason),
        format!("{:?}", verdict.reason)
    );
    for (resource, mode) in [
        (Resource::command("rm"), PermissionMode::Default),
        (Resource::command("rm"), PermissionMode::Bypass),
        (Resource::write_file("/elsewhere"), PermissionMode::AcceptEdits),
    ] {
        let reason = rules.evaluate(&resource, mode).reason;
        assert_eq!(describe_reason(&reason), format!("{reason:?}"));
    }
    let inside = tool_policy("/repo").0;
    let reason = inside.evaluate(&Resource::read_file("/repo/a"), PermissionMode::Default).reason;
    assert_eq!(describe_reason(&reason), "WorkspaceDefault");
    assert_eq!(
        no_tool("rod", &texts(&["read", "write"])),
        "no tool named \"rod\". Available: read, write"
    );
}

#[test]
fn the_settings_picker_shows_what_is_in_effect() {
    let settings = Settings { mode: Some(PermissionMode::Plan), ..Settings::default() };
    let rows = settings_picker(&settings, &texts(&["a/b"]), &texts(&["octane"]));
    let state = |key: &str| rows.iter().find(|row| row.key == key).unwrap().state.clone();
    assert_eq!(state("mode"), "plan");
    assert_eq!(state("sandbox"), "true (default)");
    assert_eq!(state("model"), "unset (default)");

    let rows =
        setting_value_picker(&settings, &[], &texts(&["octane"]), "...", "mode").unwrap();
    let plan = rows.iter().find(|row| row.key == "plan").unwrap();
    assert_eq!((plan.chosen, plan.state.as_str()), (Some(true), ""));
    let rows =
        setting_value_picker(&settings, &[], &texts(&["octane"]), "...", "theme").unwrap();
    assert_eq!((rows[0].key.as_str(), rows[0].state.as_str()), ("octane", "default"));
    let door = rows.last().unwrap();
    assert_eq!((door.key.as_str(), door.label.as_str(), door.chosen), (NEW_THEME, "custom...", None));
    assert!(setting_value_picker(&settings, &[], &[], "...", "nope").is_none());
    assert!(is_editable(&[], &[], "mode"));
    assert!(!is_editable(&[], &[], "model"), "there is no model to choose");
}

#[test]
fn a_choice_is_checked_against_what_is_offered() {
    let (value, applies) = choose_value(&[], &[], "sandbox", "false").unwrap();
    assert_eq!((value, applies), (Value::Bool(false), Applies::OnRestart));
    assert_eq!(
        choose_value(&[], &[], "model", "x").unwrap_err(),
        "model is not an editable setting"
    );
    assert_eq!(
        choose_value(&[], &[], "mode", "x").unwrap_err(),
        "x is not a value mode can take"
    );
}

#[test]
fn a_running_session_follows_its_settings() {
    let (mut mode, mut thinking, mut history) =
        (PermissionMode::Default, Thinking::Auto, Vec::new());
    let settings = Settings {
        mode: Some(PermissionMode::AcceptEdits),
        thinking: Some(Thinking::High),
        show_reasoning: Some(true),
        ascii: Some(true),
        theme: Some("nord".into()),
        ..Settings::default()
    };
    let mut apply = |key: &str, settings: &Settings| {
        apply_setting(&mut mode, &mut thinking, &mut history, settings, key)
    };
    assert_eq!(apply("mode", &settings), Live::Mode(PermissionMode::AcceptEdits));
    assert_eq!(apply("thinking", &settings), Live::Nothing);
    assert_eq!(apply("show-reasoning", &settings), Live::Reasoning(true));
    assert_eq!(apply("ascii", &settings), Live::Ascii(true));
    assert_eq!(apply("theme", &settings), Live::Theme(Some("nord".into())));
    assert_eq!(apply("sandbox", &settings), Live::Nothing);
    assert_eq!(apply("ascii", &Settings::default()), Live::Ascii(false));
    assert_eq!((mode, thinking, history.len()), (PermissionMode::AcceptEdits, Thinking::High, 1));
}

#[test]
fn a_change_says_where_it_went_and_when_it_counts() {
    let errors = vec![SettingsError::Parse { path: "/u".into(), source: "bad".into() }];
    assert_eq!(
        change_report("sandbox", "false", "/p", Applies::OnRestart, &errors),
        "`sandbox` is now `false` in /p.\n\nRestart octane for it to take effect.\n\n! /u: bad\n"
    );
    assert_eq!(
        change_report("ascii", "true", "/p", Applies::Live, &Vec::new()),
        "`ascii` is now `true` in /p.\n"
    );
}

fn server(enabled: bool) -> ServerConfig {
    ServerConfig {
        command: Some("npx".into()),
        args: texts(&["-y", "lint"]),
        env: TextMap::new(),
        url: None,
        headers: TextMap::new(),
        enabled,
    }
}

fn descriptor(name: &str) -> ToolDescriptor {
    ToolDescriptor { name: name.into(), description: None, input_schema: "{}".into() }
}

#[test]
fn a_broken_server_spoils_nothing() {
    let mut servers = TextMap::new();
    servers.insert("on".to_string(), server(true));
    servers.insert("off".to_string(), server(false));
    assert_eq!(enabled(&servers), texts(&["on"]));

    let mut mcp = Mcp::new(&vec![McpError::NotInitialized]);
    mcp.connect("bad", Attempt::Failed(McpError::Transport("gone".into())));
    mcp.connect(
        "lint",
        Attempt::Connected {
            listing: Ok(vec![descriptor("check")]),
            instructions: Some("Be gentle.".into()),
        },
    );
    mcp.connect(
        "shy",
        Attempt::Connected {
            listing: Err(McpError::CapabilityUnavailable("tools")),
            instructions: Some("Hello.".into()),
        },
    );
    assert_eq!(mcp.tools.len(), 1);
    assert_eq!(mcp.tools[0].name(), "mcp__lint__check");
    assert_eq!(mcp.clients, texts(&["lint", "shy"]));
    assert_eq!(mcp.instructions, "Be gentle.\n\nHello.");
    assert_eq!(
        mcp.errors,
        texts(&[
            "server is not initialized",
            "mcp bad: transport failure: gone",
            "mcp shy: capability \"tools\" was not negotiated",
        ])
    );
}

fn outcome(stop_reason: StopReason, messages: Vec<Message>) -> TurnOutcome {
    TurnOutcome { stop_reason, messages, steps_taken: 1 }
}

#[test]
fn a_finished_turn_joins_the_conversation() {
    let mut history = vec![Message::text(Role::User, "hi")];
    let done = outcome(StopReason::Completed, vec![Message::text(Role::Assistant, "hello")]);
    let after = after_turn(&mut history, done, None, 3, None);
    assert_eq!((after.error, after.instructions), (None, None));
    assert_eq!(history.len(), 2);

    // A compacted conversation replaces the old one, without the preamble in front.
    let reduced = vec![
        Message::text(Role::System, "rules"),
        Message::text(Role::User, "summary"),
    ];
    let stopped = outcome(StopReason::Interrupted, Vec::new());
    let after = after_turn(&mut history, stopped, Some(reduced), 1, Some("  ".into()));
    assert_eq!(after.error.as_deref(), Some("interrupted"));
    assert_eq!(after.instructions, None, "blank instructions are none");
    assert_eq!(history.len(), 1);
    assert_eq!(history[0].text_content(), "summary");

    let denied = outcome(StopReason::Denied { resource: "command(rm)".into() }, Vec::new());
    let after = after_turn(&mut history, denied, None, 1, Some("use trash".into()));
    assert_eq!(after.error.as_deref(), Some("stopped: you denied command(rm)"));
    assert_eq!(after.instructions.as_deref(), Some("use trash"));
    assert_eq!(history.last().unwrap().text_content(), "use trash");
}

fn item_event(kind: ItemKind) -> Event {
    Event::Item(ItemEvent::Completed {
        turn_id: TurnId::new(),
        item: Item { id: ItemId::new(), kind, status: ItemStatus::Completed },
    })
}

fn execution(name: &str, input: &str) -> ItemKind {
    ItemKind::ToolExecution { call_id: ToolCallId::new(), name: name.into(), input: input.into() }
}

#[test]
fn the_activity_line_names_what_is_running() {
    let running = item_event(execution("bash", "{}"));
    assert_eq!(activity(&running, "cargo test").as_deref(), Some("bash cargo test"));
    let done = item_event(ItemKind::ToolResult {
        call_id: ToolCallId::new(),
        name: "bash".into(),
        title: String::new(),
        metadata: None,
        body: String::new(),
        is_error: false,
    });
    assert_eq!(activity(&done, "").as_deref(), Some("Thinking"));
    assert_eq!(activity(&item_event(ItemKind::AgentMessage { text: "x".into() }), ""), None);
    assert_eq!(activity(&Event::Usage(Usage::default()), ""), None);
}

fn entry(name: &str, mutating: bool) -> ToolEntry {
    ToolEntry {
        schema: ToolSchema {
            name: name.into(),
            description: String::new(),
            input_schema: "{}".into(),
        },
        mutating,
    }
}

#[test]
fn a_model_is_shown_only_the_tools_it_can_use() {
    let names = |mode, allowed: &[&str]| -> Vec<String> {
        let tools = vec![entry("write", true), entry("read", false), entry("glob", false)];
        offered(tools, mode, &texts(allowed)).into_iter().map(|tool| tool.name).collect()
    };
    assert_eq!(names(PermissionMode::Default, &[]), texts(&["glob", "read", "write"]));
    assert_eq!(names(PermissionMode::Plan, &[]), texts(&["glob", "read"]));
    assert_eq!(names(PermissionMode::Default, &["write"]), texts(&["write"]));
    assert_eq!(names(PermissionMode::Plan, &["write"]), Vec::<String>::new());
}

fn definition(name: &str) -> AgentDefinition {
    builtin_agents().into_iter().find(|agent| agent.name == name).unwrap()
}

#[test]
fn a_delegated_agent_runs_as_its_definition_says() {
    let research = definition("research");
    let agent = subagent(&research, PermissionMode::AcceptEdits);
    assert_eq!(agent.name, "research");
    assert_eq!(agent.mode, PermissionMode::AcceptEdits);
    assert!(agent.permits_tool("grep"));
    assert!(!agent.permits_tool("write"));

    let mut planner = definition("code");
    planner.frontmatter.mode_override = Some(PermissionMode::Plan);
    assert_eq!(subagent(&planner, PermissionMode::Bypass).mode, PermissionMode::Plan);

    let messages = task_prompt(&research, "/repo", "find it");
    assert_eq!(messages.len(), 3);
    assert_eq!(messages[0].text_content(), research.prompt);
    assert_eq!(messages[1].text_content(), "Working directory: /repo");
    assert_eq!(messages[2].text_content(), "find it");
    let bare = task_prompt(&definition("build"), "/repo", "go");
    assert_eq!(bare[0].text_content(), "You are the build subagent.");
}

#[test]
fn only_a_delegated_agents_tool_calls_are_shown() {
    let shown = progress(&item_event(execution("grep", "{\"a\":1}")), "research").unwrap();
    match shown {
        Event::Item(ItemEvent::Completed { item, .. }) => match item.kind {
            ItemKind::ToolExecution { name, input, .. } => {
                assert_eq!((name.as_str(), input.as_str()), ("research:grep", "{\"a\":1}"));
            }
            other => panic!("{other:?}"),
        },
        other => panic!("{other:?}"),
    }
    let prose = item_event(ItemKind::AgentMessage { text: "private".into() });
    assert!(progress(&prose, "research").is_none());
}

#[test]
fn a_delegated_agent_reports_its_last_word() {
    let done = outcome(
        StopReason::Completed,
        vec![
            Message::text(Role::Assistant, "looking"),
            Message::text(Role::Assistant, "found it"),
            Message::text(Role::User, "results"),
        ],
    );
    assert_eq!(subagent_report(&done).unwrap(), "found it");
    assert_eq!(subagent_report(&outcome(StopReason::Completed, Vec::new())).unwrap(), "");
    let stopped = outcome(StopReason::StepLimit { limit: 5 }, Vec::new());
    assert_eq!(subagent_report(&stopped).unwrap_err(), "stopped after 5 steps");
}

#[test]
fn opening_says_what_is_wrong_before_anything_else() {
    let effects = opening(Findings {
        connecting: Some("a/b: no key".into()),
        settings: vec![SettingsError::Io { path: "/s".into(), source: "denied".into() }],
        providers: texts(&["p"]),
        servers: texts(&["m"]),
        themes: texts(&["t"]),
        sessions: vec![session_row(&summary(None))],
        resumed: 2,
        selecting: Some("no model".into()),
        commands: vec![CommandError::Unknown("x".into())],
    });
    assert!(matches!(&effects[5], Effect::OfferSessions(rows) if rows.len() == 1));
    assert_eq!(
        said(&effects),
        vec![
            "! a/b: no key".to_string(),
            "! /s: denied".into(),
            "! p".into(),
            "! m".into(),
            "! t".into(),
            resumed_notice(2),
            "! no model. Run `octane models` to see what is configured.".into(),
            "! unknown command /x".into(),
        ]
    );
}

#[test]
fn a_skill_is_offered_unless_a_command_has_its_name() {
    let commands = registry(vec![file_command("review", "Review $1")]);
    let skills = vec![
        ("clear".to_string(), "never this one".to_string()),
        ("deploy".to_string(), "ship it".to_string()),
    ];
    let offered = candidates(&commands, &skills);
    assert_eq!(offered.len(), builtins().len() + 2);
    assert!(offered.iter().any(|c| c.value == "/review" && c.detail == "a project command"));
    let last = offered.last().unwrap();
    assert_eq!((last.value.as_str(), last.detail.as_str()), ("/deploy", "ship it"));
    assert_eq!(offered.iter().filter(|c| c.value == "/clear").count(), 1);
}

#[test]
fn the_last_directory_is_the_projects() {
    let dirs = command_dirs(config_dirs(&texts(&["/u", "/p"]), "commands"));
    assert_eq!(
        dirs,
        vec![("/u/commands".to_string(), false), ("/p/commands".to_string(), true)]
    );
}

#[test]
fn a_record_that_cannot_be_opened_is_tried_again() {
    let mut recording = Recording::new();
    let told = recording.record(Err("no space".into()), Ok(()));
    assert_eq!(told.as_deref(), Some("not recording this session: no space"));
    assert!(!recording.open);
    assert_eq!(recording.record(Ok(()), Ok(())), None);
    assert!(recording.open);
    let told = recording.record(Ok(()), Err("no space".into()));
    assert_eq!(told.as_deref(), Some("could not record the session: no space"));
}

#[test]
fn flags_come_before_settings() {
    assert_eq!(starting_mode(ModeArg::Default, Some(PermissionMode::Plan)), PermissionMode::Plan);
    assert_eq!(starting_mode(ModeArg::AcceptEdits, Some(PermissionMode::Plan)), PermissionMode::AcceptEdits);
    assert_eq!(starting_mode(ModeArg::Default, None), PermissionMode::Default);
    assert_eq!(starting_model(Some("a".into()), Some("b".into())).as_deref(), Some("a"));
    assert_eq!(starting_model(None, Some("b".into())).as_deref(), Some("b"));
    assert_eq!(starting_thinking(&Settings::default(), Some(Thinking::Low)), Thinking::Low);
    assert_eq!(starting_thinking(&Settings::default(), None), Thinking::Auto);
    assert!(starts_contained(false, None));
    assert!(!starts_contained(true, Some(true)));
    assert!(!starts_contained(false, Some(false)));
}

fn sandbox() -> Sandbox {
    Sandbox::WorkspaceWrite {
        writable_roots: vec![WritableRoot {
            path: "/repo".into(),
            read_only_subpaths: texts(&["/repo/.git"]),
        }],
        network: Network::Denied,
    }
}

#[test]
fn the_model_is_told_what_the_sandbox_permits() {
    let text = describe_sandbox(&sandbox());
    assert!(text.starts_with("Commands run confined. Writable: /repo. "));
    assert!(text.contains("Network is Denied."));
    let open = with_network(sandbox(), Some(true));
    assert!(describe_sandbox(&open).contains("Network is Allowed."));
    assert!(describe_sandbox(&with_network(sandbox(), None)).contains("Network is Denied."));
    assert!(describe_sandbox(&Sandbox::DangerFullAccess).contains("unconfined"));
    assert!(describe_sandbox(&Sandbox::ExternalSandbox).contains("external sandbox"));
    assert_eq!(
        describe_sandbox(&Sandbox::ReadOnly { network: Network::Allowed }),
        "Commands run read-only; no path is writable. Network is Allowed."
    );

    let prompt = session_prompt(&sandbox(), "/repo", "linux", "", "");
    assert_eq!(prompt.preamble_len(), 3);
    assert!(prompt.memory.is_none());
    assert_eq!(session_prompt(&sandbox(), "/repo", "linux", "m", "i").preamble_len(), 5);
}

#[test]
fn the_report_names_what_a_session_would_use() {
    let mut servers = TextMap::new();
    servers.insert("lint".to_string(), server(false));
    let sandbox = sandbox();
    let report = doctor(&Diagnosis {
        version: "0.1.0",
        workspace: "/repo",
        model: ModelLine::Default { reference: "a/b".into() },
        faster: Some(Err(("c/d".into(), "unknown".into()))),
        mode: PermissionMode::Plan,
        sandbox: &sandbox,
        servers: &servers,
        errors: &vec![McpError::NotInitialized],
    });
    for line in [
        "octane 0.1.0\n",
        "workspace     /repo\n",
        "model         a/b (default)\n",
        "faster        c/d  — unknown\n",
        "mode          plan\n",
        "  containment  workspace-write\n",
        "  network      Denied\n",
        "  writable     /repo\n",
        "    read-only  /repo/.git\n",
        "npx -y lint  (disabled)\n",
        "  ! server is not initialized\n",
        "OCTANE.local.md\n",
    ] {
        assert!(report.contains(line), "{line:?} missing from {report}");
    }
    let bare = doctor(&Diagnosis {
        version: "0.1.0",
        workspace: "/repo",
        model: ModelLine::Nothing,
        faster: None,
        mode: PermissionMode::Default,
        sandbox: &Sandbox::DangerFullAccess,
        servers: &TextMap::new(),
        errors: &Vec::new(),
    });
    assert!(bare.contains("model         <none configured>\n"));
    assert!(bare.contains("NONE — commands run unconfined"));
    assert!(bare.contains("  <none configured>          .octane/mcp.json\n"));
    assert!(!bare.contains("faster"));
}

#[test]
fn sessions_live_under_the_users_root() {
    assert_eq!(sessions_dir(&texts(&["/home/.octane", "/repo/.octane"]), "/repo"), "/home/.octane/sessions");
    assert_eq!(sessions_dir(&Vec::new(), "/repo"), "/repo/.octane/sessions");
    assert_eq!(
        unknown_theme("x"),
        "`theme = \"x\"` names no built-in or discovered theme; using the default."
    );
}

fn recipe(key: &str, name: &str, ready: bool) -> Recipe {
    Recipe {
        key: key.into(),
        name: name.into(),
        help_url: format!("https://{key}.test"),
        note: Some("beta".into()),
        credential: Credential::ApiKey { env_var: "KEY".into() },
        ready,
    }
}

#[test]
fn providers_that_are_ready_come_first() {
    let recipes =
        vec![recipe("z", "Zed", false), recipe("m", "Mid", true), recipe("a", "Abe", true)];
    let rows = connect_rows(&recipes);
    let keys: Vec<&str> = rows.iter().map(|row| row.key.as_str()).collect();
    assert_eq!(keys, vec!["a", "m", "z"]);
    assert_eq!(rows[0].state, "KEY is set");
    assert_eq!(rows[2].state, "needs KEY");
    let open = Recipe { credential: Credential::Nothing, ..recipe("o", "Open", true) };
    assert_eq!(credential_state(&open), "ready");
    let file = Recipe { credential: Credential::TokenFile, ..recipe("f", "File", false) };
    assert_eq!(credential_state(&file), "needs a token file");

    let list = render_connect_list(&recipes);
    assert!(list.contains("  z            Zed                    needs KEY\n"), "{list}");
    assert_eq!(
        unknown_provider("q"),
        "unknown provider \"q\". Run `octane connect` to see what is available."
    );
}

#[test]
fn setting_a_provider_up_says_what_remains() {
    let models = vec![("big".to_string(), "Big One".to_string())];
    let text = connected(&recipe("z", "Zed", false), "/p/z.json", &models);
    assert!(text.starts_with("Wrote /p/z.json\n\n  z/big          Big One\n"), "{text}");
    assert!(text.contains("    export KEY=...        # https://z.test\n"));
    assert!(text.ends_with("\n  Note: beta\n"));
    let said = connect_provider(&recipe("z", "Zed", true), "/p/z.json", &models);
    assert_eq!(
        said,
        "Wrote `/p/z.json`\n\n- `z/big` — Big One\n\n`KEY` is set.\n\n> beta\n"
    );
}

#[test]
fn the_models_are_listed_by_provider() {
    assert!(render_models(&Vec::new(), &Vec::new(), &Vec::new()).ends_with(EXAMPLE_PROVIDER));
    let row = |provider: &str, name: &str| ModelRow {
        provider: provider.into(),
        reference: format!("{provider}/{name}"),
        display_name: name.into(),
        context_window: 200_000,
        api: "google".into(),
    };
    let text = render_models(
        &texts(&["bad file"]),
        &vec![("corp".to_string(), "KEY is not set".to_string())],
        &vec![row("a", "x"), row("a", "y"), row("b", "z")],
    );
    assert!(text.starts_with("  ! bad file\n\nnot available\n  corp "), "{text}");
    assert_eq!(text.matches("\na\n").count(), 1);
    assert_eq!(text.matches("\nb\n").count(), 1);
    assert!(text.contains(" 200k ctx  google\n"));
}

#[test]
fn listings_say_what_there_is() {
    let mut servers = TextMap::new();
    servers.insert("lint".to_string(), server(true));
    let text = render_mcp(&servers, &Vec::new(), &texts(&["mcp__lint__check"]));
    assert!(text.contains("lint"), "{text}");
    assert!(text.contains("check"), "{text}");

    let text = render_settings(
        &texts(&["bad"]),
        "mode = \"plan\"\n",
        &vec![("/u/settings.toml".to_string(), true), ("/p/s".to_string(), false)],
    );
    assert_eq!(
        text,
        "  ! bad\n\nResolved settings\n\n  mode = \"plan\"\n\nFiles, later overriding earlier\n\n  /u/settings.toml   present\n  /p/s               absent\n"
    );
    assert!(render_settings(&Vec::new(), " ", &Vec::new()).starts_with("Nothing configured;"));

    let stats = render_stats(&Stats {
        model: "a/b".into(),
        calls: 3,
        input: "1,000".into(),
        cached: "900".into(),
        output: "10".into(),
        reasoning: "0".into(),
        used: "5".into(),
        window: "10".into(),
        used_percent: "50".into(),
        hit_rate: "90".into(),
        cost: "0.01".into(),
    });
    assert!(stats.contains("  model calls      3\n"));
    assert!(stats.contains("  in use           5 of 10 (50%)\n"));
    assert!(stats.contains("  hit rate         90%\n"));
}

#[test]
fn themes_come_from_files_that_redefine_nothing() {
    let built_in = texts(&["octane", "nord"]);
    let file = |path: &str, palette: Result<u8, String>| ThemeFile { path: path.into(), palette };
    let (themes, errors) = discover_themes(
        vec![
            file("/u/themes/mine.json", Ok(1)),
            file("/p/themes/mine.json", Ok(2)),
            file("/p/themes/nord.json", Ok(3)),
            file("/p/themes/bad.json", Err("no palette".into())),
        ],
        &built_in,
    );
    assert_eq!(themes.get("mine"), Some(&2));
    assert_eq!(themes.len(), 1);
    assert_eq!(
        errors,
        texts(&[
            "/p/themes/nord.json: `nord` is a built-in theme and cannot be redefined; rename the file.",
            "/p/themes/bad.json: no palette",
        ])
    );
    assert!(is_theme_file("/a/b.json"));
    assert!(!is_theme_file("/a/b.toml"));
    assert_eq!(theme_name("/a/b.json").as_deref(), Some("b"));
    let rows = theme_base_picker(&built_in);
    assert_eq!((rows.len(), rows[1].key.as_str(), rows[1].label.as_str()), (2, "nord", "nord"));
}

#[test]
fn a_copied_theme_goes_to_the_project() {
    let roots = texts(&["/home/.octane", "/repo/.octane"]);
    let theme = custom_theme("nord", &texts(&["nord"]), &roots, "/repo").unwrap();
    assert_eq!(theme.name, "nord-custom");
    assert_eq!(theme.path, "/repo/.octane/themes/nord-custom.json");
    assert_eq!(
        custom_theme("x", &texts(&["nord"]), &roots, "/repo").unwrap_err(),
        "x is not a built-in theme"
    );
    assert_eq!(custom_theme_note("/p", "nord", true), "`/p` already exists; leaving it alone.\n");
    assert!(custom_theme_note("/p", "nord", false).starts_with("Wrote `/p`, a copy of `nord`."));
}

#[test]
fn a_prompt_is_compacted_only_where_it_has_to_be() {
    let messages: Vec<Message> = (0..40)
        .map(|i| Message::text(Role::User, &format!("{i} {}", "x".repeat(500))))
        .collect();
    // About five thousand tokens: room in the first window, none in the second.
    assert_eq!(compaction(&messages, 1, &octane::context::Budget::new(20_000, 15_000, 10_000)), None);
    let tight = octane::context::Budget::new(6_000, 4_000, 3_000);
    let plan = compaction(&messages, 1, &tight).unwrap();
    assert_eq!(plan.start, 1);
    assert!(plan.end < messages.len());
    // Nothing is left between the preamble and the end.
    assert_eq!(compaction(&messages, 40, &tight), None);

    let short = octane::context::Summary { text: "they talked".into(), ..Default::default() };
    let after = shortened(&messages, &plan, &short).unwrap();
    assert_eq!(after.len(), 1 + 1 + messages.len() - plan.end);
    assert_eq!(after.first(), messages.first());
    assert_eq!(after.last(), messages.last());

    // A summary longer than what it stands for is discarded.
    let long = octane::context::Summary { text: "y".repeat(100_000), ..Default::default() };
    assert!(shortened(&messages, &plan, &long).is_none());
}

#[test]
fn a_command_is_escaped_in_the_tools_input() {
    assert_eq!(
        octane::cli::shell::read_input("a\"b\\c\n\t\r\u{8}\u{c}\u{1}\u{1f}\u{7f}\u{e9}/"),
        "{\"path\":\"a\\\"b\\\\c\\n\\t\\r\\b\\f\\u0001\\u001f\u{7f}\u{e9}/\"}"
    );
}

#[test]
fn a_summary_is_asked_of_the_configured_model_first() {
    assert_eq!(
        summarizers(Some("p/small".into()), Some("q".into())),
        vec![
            ModelChoice::Named("p/small".into()),
            ModelChoice::Faster(Some("q".into())),
            ModelChoice::Own,
        ]
    );
    // Without a model of its own, a session has only the providers to ask.
    assert_eq!(summarizers(None, None), vec![ModelChoice::Faster(None)]);
}

#[test]
fn help_begins_with_the_input_section() {
    assert!(octane::cli::listing::HELP.starts_with("input\n    /               commands"));
    assert!(octane::cli::listing::HELP.contains("\n\n  editing\n"));
}
