//! What holds of an interactive session: what each event leads to, what is sent, and what
//! is kept.

use vstd::prelude::*;

use crate::cli::dispatch::{
    awaited, built_in, handled, with_files, EffectModel, InteractiveModel, Listing, PendingModel,
    ReadModel, UiModel,
};
use crate::cli::listing::search_text;
use crate::cli::preferences::{
    change_text, choice_made, error_paragraphs, setting_at, setting_rows_of, thinking_of,
    value_rows, LiveModel,
};
use crate::commands::registry::EntryModel;
use crate::config::edit::{
    catalogue_of, choice_of, current_of, display_of, Applies, ChoiceModel, EditableModel,
};
use crate::config::settings::{settings_error_text, SettingsError, SettingsModel, Thinking};
use crate::json::{json_number, json_string};
use crate::permission::PermissionMode;
use crate::protocol::item::KindModel;
use crate::protocol::message::{MessageModel, PartModel, Role};
use crate::text::trim_of;

verus! {

/// Whether a history is another with one more thing said by the user.
pub open spec fn says_next(
    after: Seq<MessageModel>,
    before: Seq<MessageModel>,
    text: Seq<char>,
) -> bool {
    after == before.push(
        MessageModel { role: Role::User, parts: seq![PartModel::Text { text }] },
    )
}

/// What the user typed is shown, and what they referred to is asked for, each reference in
/// its place; nothing else happens until it is there.
pub proof fn law_what_is_referred_to_is_asked_for(
    s: InteractiveModel,
    commands: Map<Seq<char>, EntryModel>,
    text: Seq<char>,
    references: Seq<Seq<char>>,
    i: int,
)
    requires
        0 <= i < references.len(),
    ensures
        ({
            let (after, effects) = handled(s, commands, UiModel::Prompt { text, references });
            &&& after == InteractiveModel {
                pending: PendingModel::Attaching { text, references },
                ..s
            }
            &&& effects.len() == 1 + references.len()
            &&& effects[0] == EffectModel::Note(KindModel::UserMessage { text })
            &&& effects[1 + i] == (EffectModel::Attach { reference: references[i] })
        }),
{
}

/// What the model is sent: the text, and behind it everything that could be read, in its
/// order. What could not be read is said, by its name and the reason.
pub proof fn law_what_could_be_read_is_sent(
    s: InteractiveModel,
    commands: Map<Seq<char>, EntryModel>,
    text: Seq<char>,
    references: Seq<Seq<char>>,
    reads: Seq<(Seq<char>, ReadModel)>,
    i: int,
)
    requires
        s.pending == (PendingModel::Attaching { text, references }),
        references.len() == reads.len(),
        s.has_model,
    ensures
        ({
            let (after, effects) = handled(s, commands, UiModel::Attached(reads));
            &&& says_next(after.history, s.history, with_files(text, reads))
            &&& effects.len() == reads.len() + 2
            &&& effects[reads.len() as int] == EffectModel::RunTurn
            &&& effects[reads.len() as int + 1] == EffectModel::Record
            &&& 0 <= i < reads.len() ==> effects[i] == (match reads[i].1 {
                ReadModel::Contents(_) => EffectModel::Note(
                    KindModel::ToolExecution {
                        call_id: reads[i].0,
                        name: "read"@,
                        input: "{\"path\":"@ + json_string(references[i]) + "}"@,
                    },
                ),
                ReadModel::Failure(error) => EffectModel::Fail(
                    "@"@ + references[i] + ": "@ + error,
                ),
            })
        }),
{
}

/// Texts that are read stand behind the prompt one after another, a blank line before each;
/// what could not be read adds nothing.
pub proof fn law_every_file_is_attached(
    text: Seq<char>,
    a: Seq<(Seq<char>, ReadModel)>,
    b: Seq<(Seq<char>, ReadModel)>,
    id: Seq<char>,
    contents: Seq<char>,
)
    ensures
        with_files(text, a + b) == with_files(with_files(text, a), b),
        with_files(text, seq![(id, ReadModel::Contents(contents))]) == text + "\n\n"@ + contents,
        with_files(text, seq![(id, ReadModel::Failure(contents))]) == text,
        with_files(text, Seq::empty()) == text,
    decreases b.len(),
{
    reveal_with_fuel(with_files, 2);
    let none = Seq::<(Seq<char>, ReadModel)>::empty();
    assert(seq![(id, ReadModel::Contents(contents))].drop_last() =~= none);
    assert(seq![(id, ReadModel::Failure(contents))].drop_last() =~= none);
    if b.len() == 0 {
        assert(a + b =~= a);
    } else {
        law_every_file_is_attached(text, a, b.drop_last(), id, contents);
        assert((a + b).drop_last() =~= a + b.drop_last());
        assert((a + b).last() == b.last());
    }
}

/// A command's prompt is sent as it came out; one that did not come out says why. Without
/// a model nothing is sent, and that is said.
pub proof fn law_a_prompt_is_sent(
    s: InteractiveModel,
    commands: Map<Seq<char>, EntryModel>,
    prompt: Seq<char>,
    error: Seq<char>,
)
    ensures
        ({
            let (after, effects) = handled(s, commands, UiModel::Expanded(Ok(prompt)));
            if s.has_model {
                &&& says_next(after.history, s.history, prompt)
                &&& effects == seq![EffectModel::RunTurn, EffectModel::Record]
            } else {
                &&& after.history == s.history
                &&& effects == seq![
                    EffectModel::Fail("No model is configured. Run `/connect` to set one up."@),
                ]
            }
        }),
        handled(s, commands, UiModel::Expanded(Err(error))) == (
            InteractiveModel { pending: PendingModel::Nothing, ..s },
            seq![EffectModel::Fail(error)],
        ),
{
}

/// A command is shown as it was typed, before anything comes of it; one that a file gives is
/// expanded with its arguments, and a search is sent to the model.
pub proof fn law_a_command_is_shown_and_followed(
    s: InteractiveModel,
    commands: Map<Seq<char>, EntryModel>,
    name: Seq<char>,
    args: Seq<char>,
    level: Result<Thinking, Seq<char>>,
)
    ensures
        ({
            let (after, effects) = handled(s, commands, UiModel::Command { name, args, level });
            let typed = if args.len() == 0 {
                "/"@ + name
            } else {
                "/"@ + name + " "@ + args
            };
            let searches = name == "cs"@ && trim_of(args).len() > 0;
            &&& effects.len() > 1
            &&& effects[0] == EffectModel::Note(KindModel::UserMessage { text: typed })
            &&& searches && s.has_model ==> {
                &&& says_next(after.history, s.history, search_text(args))
                &&& effects[1] == EffectModel::RunTurn
                &&& effects[2] == EffectModel::Record
            }
            &&& !searches && commands.dom().contains(name) && commands[name].kind is Prompt ==> {
                &&& after == InteractiveModel { pending: PendingModel::Expanding, ..s }
                &&& effects.len() == 2
                &&& effects[1] == (EffectModel::Expand { name, args })
            }
        }),
{
}

/// What each command of the client does, and that it changes nothing else: those that list
/// something show it, those that offer something offer it, clearing forgets the
/// conversation alone, and leaving leaves. Any other name is looked up as a skill.
pub proof fn law_each_command_does_its_own(
    s: InteractiveModel,
    args: Seq<char>,
    level: Result<Thinking, Seq<char>>,
    name: Seq<char>,
)
    ensures
        built_in(s, "help"@, args, level) == (s, seq![EffectModel::Show(Listing::Help)]),
        built_in(s, "models"@, args, level) == (s, seq![EffectModel::Show(Listing::Models)]),
        built_in(s, "agents"@, args, level) == (s, seq![EffectModel::Show(Listing::Agents)]),
        built_in(s, "mcp"@, args, level) == (s, seq![EffectModel::Show(Listing::Mcp)]),
        built_in(s, "tools"@, args, level) == (s, seq![EffectModel::Show(Listing::Tools)]),
        s.has_model ==> built_in(s, "stats"@, args, level) == (
            s,
            seq![EffectModel::Show(Listing::Stats)],
        ),
        built_in(s, "connect"@, args, level) == (s, seq![EffectModel::OfferProviders]),
        built_in(s, "exit"@, args, level) == (s, seq![EffectModel::Leave]),
        built_in(s, "quit"@, args, level) == (s, seq![EffectModel::Leave]),
        built_in(s, "clear"@, args, level).0 == (InteractiveModel { history: Seq::empty(), ..s }),
        built_in(s, "settings"@, args, level).0 == s,
        built_in(s, "settings"@, args, level).1.len() == 1,
        built_in(s, "settings"@, args, level).1[0] is OfferSettings,
        ({
            let known = name == "help"@ || name == "models"@ || name == "agents"@ || name == "mcp"@
                || name == "tools"@ || name == "stats"@ || name == "connect"@ || name == "exit"@
                || name == "quit"@ || name == "clear"@ || name == "settings"@ || name
                == "thinking"@;
            !known ==> built_in(s, name, args, level) == (
                InteractiveModel { pending: PendingModel::Finding { name }, ..s },
                seq![EffectModel::Find { skill: name }],
            )
        }),
{
    lemma_names_differ();
}

proof fn lemma_names_differ()
    ensures
        "help"@ != "thinking"@,
        "models"@ != "thinking"@ && "models"@ != "help"@,
        "connect"@ != "thinking"@ && "connect"@ != "help"@ && "connect"@ != "models"@,
        "agents"@ != "thinking"@ && "agents"@ != "help"@ && "agents"@ != "models"@ && "agents"@
            != "connect"@,
        "mcp"@ != "thinking"@ && "mcp"@ != "help"@ && "mcp"@ != "models"@ && "mcp"@ != "connect"@
            && "mcp"@ != "agents"@,
        "tools"@ != "thinking"@ && "tools"@ != "help"@ && "tools"@ != "models"@ && "tools"@
            != "connect"@ && "tools"@ != "agents"@ && "tools"@ != "mcp"@,
        "stats"@ != "thinking"@ && "stats"@ != "help"@ && "stats"@ != "models"@ && "stats"@
            != "connect"@ && "stats"@ != "agents"@ && "stats"@ != "mcp"@ && "stats"@ != "tools"@,
        "settings"@ != "thinking"@ && "settings"@ != "help"@ && "settings"@ != "models"@
            && "settings"@ != "connect"@ && "settings"@ != "agents"@ && "settings"@ != "mcp"@
            && "settings"@ != "tools"@ && "settings"@ != "stats"@,
        "clear"@ != "thinking"@ && "clear"@ != "help"@ && "clear"@ != "models"@ && "clear"@
            != "connect"@ && "clear"@ != "agents"@ && "clear"@ != "mcp"@ && "clear"@ != "tools"@
            && "clear"@ != "stats"@ && "clear"@ != "settings"@,
        "exit"@ != "thinking"@ && "exit"@ != "help"@ && "exit"@ != "models"@ && "exit"@
            != "connect"@ && "exit"@ != "agents"@ && "exit"@ != "mcp"@ && "exit"@ != "tools"@
            && "exit"@ != "stats"@ && "exit"@ != "settings"@ && "exit"@ != "clear"@,
        "quit"@ != "thinking"@ && "quit"@ != "help"@ && "quit"@ != "models"@ && "quit"@
            != "connect"@ && "quit"@ != "agents"@ && "quit"@ != "mcp"@ && "quit"@ != "tools"@
            && "quit"@ != "stats"@ && "quit"@ != "settings"@ && "quit"@ != "clear"@,
{
    reveal_strlit("thinking");
    reveal_strlit("help");
    reveal_strlit("models");
    reveal_strlit("connect");
    reveal_strlit("agents");
    reveal_strlit("mcp");
    reveal_strlit("tools");
    reveal_strlit("stats");
    reveal_strlit("settings");
    reveal_strlit("clear");
    reveal_strlit("exit");
    reveal_strlit("quit");
    assert("thinking"@.len() == 8 && "help"@.len() == 4 && "models"@.len() == 6);
    assert("connect"@.len() == 7 && "agents"@.len() == 6 && "mcp"@.len() == 3);
    assert("tools"@.len() == 5 && "stats"@.len() == 5 && "settings"@.len() == 8);
    assert("clear"@.len() == 5 && "exit"@.len() == 4 && "quit"@.len() == 4);
    assert("thinking"@[0] == 't' && "settings"@[0] == 's' && "models"@[0] == 'm');
    assert("agents"@[0] == 'a' && "tools"@[0] == 't' && "stats"@[0] == 's' && "clear"@[0] == 'c');
    assert("help"@[0] == 'h' && "exit"@[0] == 'e' && "quit"@[0] == 'q');
}

/// What the user runs themselves is shown and run, the very command; what comes of it is
/// shown under it, the output or the error, and neither goes into the conversation.
pub proof fn law_a_shell_command_is_shown_with_its_output(
    s: InteractiveModel,
    commands: Map<Seq<char>, EntryModel>,
    id: Seq<char>,
    command: Seq<char>,
    output: Seq<char>,
    metadata: Option<Seq<char>>,
    error: Seq<char>,
)
    ensures
        ({
            let (after, effects) = handled(s, commands, UiModel::Shell { id, command });
            let input = "{\"command\":"@ + json_string(command) + ",\"description\":"@
                + json_string(command) + "}"@;
            &&& after == InteractiveModel {
                pending: PendingModel::Shelling { id, command },
                ..s
            }
            &&& effects == seq![
                EffectModel::Note(
                    KindModel::ToolExecution { call_id: id, name: "bash"@, input },
                ),
                EffectModel::RunShell { input },
            ]
        }),
        s.pending == (PendingModel::Shelling { id, command }) ==> {
            let (after, effects) = handled(s, commands, UiModel::Ended(Ok((output, metadata))));
            let failed = metadata is Some && json_number(metadata->0, "exit_code"@) is Some
                && json_number(metadata->0, "exit_code"@) != Some(0u64);
            &&& after == InteractiveModel { pending: PendingModel::Nothing, ..s }
            &&& effects == seq![
                EffectModel::Note(
                    KindModel::ToolResult {
                        call_id: id,
                        name: "bash"@,
                        title: command,
                        metadata,
                        body: output,
                        is_error: failed,
                    },
                ),
            ]
        },
        s.pending == (PendingModel::Shelling { id, command }) ==> handled(
            s,
            commands,
            UiModel::Ended(Err(error)),
        ).1 == seq![
            EffectModel::Note(
                KindModel::ToolResult {
                    call_id: id,
                    name: "bash"@,
                    title: command,
                    metadata: None,
                    body: error,
                    is_error: true,
                },
            ),
        ],
{
}

/// A session that is picked is loaded and takes the conversation's place, whole; one that
/// cannot be loaded changes nothing but what is said.
pub proof fn law_a_loaded_session_goes_on(
    s: InteractiveModel,
    commands: Map<Seq<char>, EntryModel>,
    session: Seq<char>,
    history: Seq<MessageModel>,
    error: Seq<char>,
)
    ensures
        handled(s, commands, UiModel::PickedSession { session }) == (
            InteractiveModel { pending: PendingModel::Loading, ..s },
            seq![EffectModel::ClosePickers, EffectModel::Load { session }],
        ),
        handled(s, commands, UiModel::Loaded(Ok(history))).0 == (InteractiveModel {
            history,
            pending: PendingModel::Nothing,
            ..s
        }),
        handled(s, commands, UiModel::Loaded(Err(error))) == (
            InteractiveModel { pending: PendingModel::Nothing, ..s },
            seq![EffectModel::Fail(error)],
        ),
{
}

/// A provider that is picked is connected, and what came of it is said.
pub proof fn law_a_picked_provider_is_connected(
    s: InteractiveModel,
    commands: Map<Seq<char>, EntryModel>,
    provider: Seq<char>,
    report: Seq<char>,
)
    ensures
        handled(s, commands, UiModel::PickedProvider { provider }) == (
            InteractiveModel { pending: PendingModel::Connecting, ..s },
            seq![EffectModel::ClosePickers, EffectModel::Connect { provider }],
        ),
        handled(s, commands, UiModel::Connected(Ok(report))).1[0] == EffectModel::Say(report),
        handled(s, commands, UiModel::Connected(Err(report))).1 == seq![EffectModel::Fail(report)],
        handled(s, commands, UiModel::Connected(Ok(report))).0 == (InteractiveModel {
            pending: PendingModel::Nothing,
            ..s
        }),
{
}

/// Leaving leaves, interrupting does nothing to a session that waits, and a skill that was
/// found is shown, one that was not is named.
pub proof fn law_small_events_do_little(
    s: InteractiveModel,
    commands: Map<Seq<char>, EntryModel>,
    name: Seq<char>,
    body: Seq<char>,
)
    ensures
        handled(s, commands, UiModel::Exit).1 == seq![EffectModel::Leave],
        handled(s, commands, UiModel::Interrupt) == (
            InteractiveModel { pending: PendingModel::Nothing, ..s },
            Seq::<EffectModel>::empty(),
        ),
        s.pending == (PendingModel::Finding { name }) ==> {
            &&& handled(s, commands, UiModel::Found(Some(body))).1 == seq![EffectModel::Say(body)]
            &&& handled(s, commands, UiModel::Found(None)).1 == seq![
                EffectModel::Say("Unknown command /"@ + name + ". Try /help."@),
            ]
            &&& handled(s, commands, UiModel::Found(None)).0.history == s.history
        },
{
}

/// Whether a setting of a key is the first of a catalogue.
pub open spec fn first_of_key(all: Seq<EditableModel>, key: Seq<char>, i: int) -> bool {
    &&& 0 <= i < all.len()
    &&& all[i].key == key
    &&& forall|j: int| 0 <= j < i ==> (#[trigger] all[j]).key != key
}

/// A setting is found by its key, and a key that no setting has is not found.
pub proof fn law_a_setting_is_found_by_its_key(all: Seq<EditableModel>, key: Seq<char>, i: int)
    ensures
        first_of_key(all, key, i) ==> setting_at(all, key) == i,
        (forall|j: int| 0 <= j < all.len() ==> (#[trigger] all[j]).key != key) ==> setting_at(all, key)
            == all.len(),
    decreases all.len(),
{
    if all.len() > 0 && all[0].key != key {
        let rest = all.drop_first();
        law_a_setting_is_found_by_its_key(rest, key, i - 1);
        if first_of_key(all, key, i) {
            assert forall|j: int| 0 <= j < i - 1 implies (#[trigger] rest[j]).key != key by {
                assert(rest[j] == all[j + 1]);
            }
            assert(rest[i - 1] == all[i]);
            assert(first_of_key(rest, key, i - 1));
        }
        if forall|j: int| 0 <= j < all.len() ==> (#[trigger] all[j]).key != key {
            assert forall|j: int| 0 <= j < rest.len() implies (#[trigger] rest[j]).key != key by {
                assert(rest[j] == all[j + 1]);
            }
        }
    }
}

/// A value that is picked is written as it is, under the setting that it was picked for,
/// if it is one that the setting offers; otherwise that is said and nothing is written.
pub proof fn law_the_picked_value_is_written(
    all: Seq<EditableModel>,
    key: Seq<char>,
    value: Seq<char>,
    i: int,
)
    requires
        first_of_key(all, key, i),
    ensures
        match choice_made(all, key, value) {
            Ok((written, applies)) => {
                &&& display_of(written) == value
                &&& applies == all[i].applies
                &&& exists|k: int|
                    0 <= k < all[i].choices.len() && (#[trigger] all[i].choices[k]).value == written
            },
            Err(error) => {
                &&& error == value + " is not a value "@ + key + " can take"@
                &&& forall|k: int|
                    0 <= k < all[i].choices.len() ==> display_of(
                        (#[trigger] all[i].choices[k]).value,
                    ) != value
            },
        },
{
    law_a_setting_is_found_by_its_key(all, key, i);
    lemma_choice(all[i].choices, value);
}

proof fn lemma_choice(choices: Seq<ChoiceModel>, value: Seq<char>)
    ensures
        match choice_of(choices, value) {
            Some(choice) => display_of(choice.value) == value && exists|k: int|
                0 <= k < choices.len() && (#[trigger] choices[k]) == choice,
            None => forall|k: int|
                0 <= k < choices.len() ==> display_of((#[trigger] choices[k]).value) != value,
        },
    decreases choices.len(),
{
    if choices.len() > 0 {
        let rest = choices.drop_first();
        if display_of(choices[0].value) != value {
            lemma_choice(rest, value);
            match choice_of(rest, value) {
                Some(choice) => {
                    let k = choose|k: int| 0 <= k < rest.len() && (#[trigger] rest[k]) == choice;
                    assert(choices[k + 1] == choice);
                },
                None => {
                    assert forall|k: int| 0 <= k < choices.len() implies display_of(
                        (#[trigger] choices[k]).value,
                    ) != value by {
                        if k > 0 {
                            assert(choices[k] == rest[k - 1]);
                        }
                    }
                },
            }
        }
    }
}

/// What was written is in effect at once where it can be: the mode, the effort, the
/// reasoning, the glyphs and the theme become what the settings say, each its own and no
/// other, and the settings are the ones that were read back.
pub proof fn law_a_written_setting_takes_effect(
    s: InteractiveModel,
    commands: Map<Seq<char>, EntryModel>,
    key: Seq<char>,
    value: Seq<char>,
    applies: Applies,
    target: Seq<char>,
    settings: SettingsModel,
    errors: Seq<SettingsError>,
)
    requires
        s.pending == (PendingModel::Writing { key, value, applies }),
    ensures
        ({
            let (after, effects) = handled(
                s,
                commands,
                UiModel::Written(Ok((target, settings, errors))),
            );
            &&& after.settings == settings
            &&& after.models == s.models && after.themes == s.themes && after.has_model
                == s.has_model
            &&& after.mode == (if key == "mode"@ {
                if settings.mode is Some {
                    settings.mode->0
                } else {
                    PermissionMode::Default
                }
            } else {
                s.mode
            })
            &&& after.thinking == (if key == "thinking"@ {
                if settings.thinking is Some {
                    settings.thinking->0
                } else {
                    Thinking::Auto
                }
            } else {
                s.thinking
            })
            &&& after.showing == (if key == "show-reasoning"@ {
                settings.show_reasoning == Some(true)
            } else {
                s.showing
            })
            &&& effects.len() == 2
            &&& effects[0] == EffectModel::Adopt(
                if key == "mode"@ {
                    LiveModel::Mode(after.mode)
                } else if key == "show-reasoning"@ {
                    LiveModel::Reasoning(after.showing)
                } else if key == "ascii"@ {
                    LiveModel::Ascii(settings.ascii == Some(true))
                } else if key == "theme"@ {
                    LiveModel::Theme(settings.theme)
                } else {
                    LiveModel::Nothing
                },
            )
            &&& effects[1] == EffectModel::Say(change_text(key, value, target, applies, errors))
        }),
{
    reveal_strlit("mode");
    reveal_strlit("thinking");
    reveal_strlit("show-reasoning");
    reveal_strlit("ascii");
    reveal_strlit("theme");
    assert("mode"@.len() == 4 && "thinking"@.len() == 8 && "show-reasoning"@.len() == 14);
    assert("ascii"@.len() == 5 && "theme"@.len() == 5 && "ascii"@[0] == 'a' && "theme"@[0] == 't');
}

/// A change is reported with the setting, its value and the file; that it needs a restart,
/// if it does; and every file that cannot be used, in its order.
pub proof fn law_a_change_is_reported(
    key: Seq<char>,
    value: Seq<char>,
    target: Seq<char>,
    a: Seq<SettingsError>,
    b: Seq<SettingsError>,
    error: SettingsError,
)
    ensures
        change_text(key, value, target, Applies::Live, a) == "`"@ + key + "` is now `"@ + value
            + "` in "@ + target + ".\n"@ + error_paragraphs(a),
        change_text(key, value, target, Applies::OnRestart, a) == "`"@ + key + "` is now `"@ + value
            + "` in "@ + target + ".\n"@ + "\nRestart octane for it to take effect.\n"@
            + error_paragraphs(a),
        error_paragraphs(a + b) == error_paragraphs(a) + error_paragraphs(b),
        error_paragraphs(seq![error]) == "\n! "@ + settings_error_text(error) + "\n"@,
    decreases b.len(),
{
    reveal_with_fuel(error_paragraphs, 2);
    let none = Seq::<SettingsError>::empty();
    assert(seq![error].drop_last() =~= none);
    assert(seq![error].last() == error);
    assert(Seq::<char>::empty() + "\n! "@ =~= "\n! "@);
    let head = "`"@ + key + "` is now `"@ + value + "` in "@ + target + ".\n"@;
    assert(head + Seq::<char>::empty() =~= head);
    if b.len() == 0 {
        assert(a + b =~= a);
        assert(error_paragraphs(a) + error_paragraphs(b) =~= error_paragraphs(a));
    } else {
        let rest = b.drop_last();
        law_a_change_is_reported(key, value, target, a, rest, error);
        assert((a + b).drop_last() =~= a + rest);
        assert((a + b).last() == b.last());
        let last = settings_error_text(b.last());
        assert(error_paragraphs(a) + error_paragraphs(rest) + "\n! "@ + last + "\n"@
            =~= error_paragraphs(a) + (error_paragraphs(rest) + "\n! "@ + last + "\n"@));
    }
}

/// `/thinking` alone turns the showing of reasoning round and changes no effort; with a
/// level it sets the effort and shows no more or less; with anything else it says what is
/// wrong and changes nothing.
pub proof fn law_thinking_sets_one_thing(
    showing: bool,
    thinking: Thinking,
    args: Seq<char>,
    level: Thinking,
    error: Seq<char>,
)
    ensures
        trim_of(args).len() == 0 ==> thinking_of(showing, thinking, args, Ok(level)).0 == !showing
            && thinking_of(showing, thinking, args, Ok(level)).1 == thinking,
        trim_of(args).len() > 0 ==> {
            &&& thinking_of(showing, thinking, args, Ok(level)).0 == showing
            &&& thinking_of(showing, thinking, args, Ok(level)).1 == level
            &&& thinking_of(showing, thinking, args, Err(error)) == (showing, thinking, error)
        },
{
}

/// Every setting has its row: its name, what it is, and what is in effect, marked where
/// that is the default.
pub proof fn law_every_setting_has_its_row(
    catalogue: Seq<EditableModel>,
    settings: SettingsModel,
    i: int,
)
    requires
        0 <= i < catalogue.len(),
    ensures
        ({
            let rows = setting_rows_of(catalogue, settings);
            let row = rows[i];
            let set = current_of(settings, catalogue[i].key);
            &&& rows.len() == catalogue.len()
            &&& row.key == catalogue[i].key
            &&& row.label == catalogue[i].label
            &&& row.detail == catalogue[i].detail
            &&& row.chosen is None
            &&& set is Some ==> row.state == set->0
            &&& set is None && catalogue[i].default is Some ==> row.state == display_of(
                catalogue[i].default->0,
            ) + " (default)"@
            &&& set is None && catalogue[i].default is None ==> row.state == "unset"@
                + " (default)"@
        }),
{
}

/// Every value that a setting can take is offered, in its order, and the one in effect is
/// marked; behind the themes stands a row for making one.
pub proof fn law_every_value_is_offered(
    editable: EditableModel,
    settings: SettingsModel,
    ellipsis: Seq<char>,
    i: int,
)
    requires
        0 <= i < editable.choices.len(),
    ensures
        ({
            let rows = value_rows(editable, settings, ellipsis);
            let set = current_of(settings, editable.key);
            &&& rows.len() == editable.choices.len() + (if editable.key == "theme"@ {
                1int
            } else {
                0
            })
            &&& rows[i].key == display_of(editable.choices[i].value)
            &&& rows[i].label == editable.choices[i].label
            &&& rows[i].detail == editable.choices[i].detail
            &&& set is Some ==> rows[i].chosen == Some(rows[i].key == set->0)
            &&& set is None && editable.default is Some ==> rows[i].chosen == Some(
                rows[i].key == display_of(editable.default->0),
            )
        }),
{
}

/// A setting that is picked has its values offered; one that is not there is refused. A
/// value that is picked is written, but for those that lead to a theme of the user's own.
pub proof fn law_picking_leads_on(
    s: InteractiveModel,
    commands: Map<Seq<char>, EntryModel>,
    key: Seq<char>,
    value: Seq<char>,
    ellipsis: Seq<char>,
    i: int,
)
    ensures
        ({
            let all = catalogue_of(s.models, s.themes);
            let (after, effects) = handled(s, commands, UiModel::PickedSetting { key, ellipsis });
            &&& after == InteractiveModel { pending: PendingModel::Nothing, ..s }
            &&& first_of_key(all, key, i) ==> effects == seq![
                EffectModel::OfferValues {
                    setting: key,
                    rows: value_rows(all[i], s.settings, ellipsis),
                },
            ]
            &&& (forall|j: int| 0 <= j < all.len() ==> (#[trigger] all[j]).key != key)
                ==> effects == seq![
                EffectModel::ClosePickers,
                EffectModel::Fail(key + " is not an editable setting."@),
            ]
        }),
        ({
            let all = catalogue_of(s.models, s.themes);
            let (after, effects) = handled(
                s,
                commands,
                UiModel::PickedValue { setting: key, value },
            );
            let made = key == "theme"@ && value == "*new"@;
            let based = key == "theme-base"@;
            &&& made ==> effects == seq![EffectModel::OfferThemes]
            &&& !made && based ==> after.pending is Creating && effects == seq![
                EffectModel::ClosePickers,
                EffectModel::Create { base: value },
            ]
            &&& !made && !based && choice_made(all, key, value) is Ok ==> {
                let (written, applies) = choice_made(all, key, value)->Ok_0;
                &&& after == InteractiveModel {
                    pending: PendingModel::Writing { key, value, applies },
                    ..s
                }
                &&& effects == seq![
                    EffectModel::ClosePickers,
                    EffectModel::Write { key, value: written },
                ]
            }
            &&& !made && !based && choice_made(all, key, value) is Err ==> effects == seq![
                EffectModel::ClosePickers,
                EffectModel::Fail(choice_made(all, key, value)->Err_0),
            ] && after == InteractiveModel { pending: PendingModel::Nothing, ..s }
        }),
{
    let all = catalogue_of(s.models, s.themes);
    law_a_setting_is_found_by_its_key(all, key, i);
    let effects = handled(s, commands, UiModel::PickedValue { setting: key, value }).1;
    if choice_made(all, key, value) is Ok {
        let written = (choice_made(all, key, value)->Ok_0).0;
        if !(key == "theme"@ && value == "*new"@) && key != "theme-base"@ {
            assert(effects =~= seq![
                EffectModel::ClosePickers,
                EffectModel::Write { key, value: written },
            ]);
        }
    } else if !(key == "theme"@ && value == "*new"@) && key != "theme-base"@ {
        assert(effects =~= seq![
            EffectModel::ClosePickers,
            EffectModel::Fail(choice_made(all, key, value)->Err_0),
        ]);
    }
}

/// Whether an event answers something that was asked for.
pub open spec fn is_an_answer(event: UiModel) -> bool {
    event is Connected || event is Loaded || event is Created || event is Written || event
        is Expanded || event is Found || event is Ended || event is Attached
}

/// While something is waited for, nothing but its answer is taken; while nothing is, no
/// answer is.
pub proof fn law_only_what_is_awaited_is_taken(pending: PendingModel, event: UiModel)
    ensures
        awaited(pending, event) ==> (is_an_answer(event) <==> !(pending is Nothing)),
        pending is Nothing && !is_an_answer(event) ==> awaited(pending, event),
        pending is Connecting && event is Connected ==> awaited(pending, event),
        pending is Loading && event is Loaded ==> awaited(pending, event),
        pending is Creating && event is Created ==> awaited(pending, event),
        pending is Writing && event is Written ==> awaited(pending, event),
        pending is Expanding && event is Expanded ==> awaited(pending, event),
        pending is Finding && event is Found ==> awaited(pending, event),
        pending is Shelling && event is Ended ==> awaited(pending, event),
        awaited(pending, event) && event is Expanded ==> pending is Expanding,
        awaited(pending, event) && event is Written ==> pending is Writing,
        awaited(pending, event) && event is Ended ==> pending is Shelling,
        awaited(pending, event) && event is Attached ==> pending is Attaching
            && pending->Attaching_references.len() == event->Attached_0.len(),
{
}

} // verus!
