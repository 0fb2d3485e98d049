//! The interactive session: what each thing the user does leads to.
//!
//! A session takes one event at a time and answers with what has to be done, in
//! order. What it asks for and cannot know, such as a file's contents, comes back as
//! an event of its own.

use vstd::prelude::*;

use crate::cli::listing::{codebase_search_prompt, search_text};
use crate::cli::preferences::{
    apply_setting, change_report, change_text, choice_made, choose_value, live_of, set_thinking,
    setting_at, setting_rows_of, setting_value_picker, settings_picker, switch_mode, thinking_of,
    told_of_mode, value_rows, Live, LiveModel, Running,
};
use crate::cli::shell::{
    failed_of, read_input, read_input_text, shell_failed, shell_input, shell_input_text,
};
use crate::cli::startup::{resumed_notice, resumed_text, Row, RowModel};
use crate::cli::themes::{NEW_THEME, THEME_BASE};
use crate::commands::registry::{
    law_builtins_cannot_be_shadowed, with_builtins, Builtin, EntryModel, Kind, Registry,
};
use crate::config::edit::{catalogue_of, Applies, Value, ValueModel};
use crate::config::settings::{Settings, SettingsError, SettingsModel, Thinking};
use crate::engine::prompt::{mode_switch_text, notice_message};
use crate::permission::mode::label_of;
use crate::permission::PermissionMode;
use crate::protocol::id::ToolCallId;
use crate::protocol::item::{ItemKind, KindModel};
use crate::protocol::message::{text_message, Message, MessageModel, Role};
use crate::text::{same, text_of, trim, trim_of};

verus! {

/// What is said where a model is needed and there is none.
pub const NO_MODEL: &'static str = "No model is configured. Run `/connect` to set one up.";

/// The commands that the client implements in code.
pub open spec fn builtins_of() -> Seq<Builtin> {
    seq![
        (Builtin { name: "help", description: "show the key reference" }),
        (Builtin { name: "models", description: "list configured models" }),
        (Builtin { name: "connect", description: "set up a provider" }),
        (Builtin {
            name: "thinking",
            description: "show or set reasoning: off, low, medium, high",
        }),
        (Builtin {
            name: "cs",
            description: "search the codebase with parallel research agents",
        }),
        (Builtin { name: "agents", description: "list available agents" }),
        (Builtin {
            name: "mcp",
            description: "list MCP servers, their status, and their tools",
        }),
        (Builtin { name: "tools", description: "list the tools the model can call this turn" }),
        (Builtin { name: "stats", description: "token usage, cache hit rate, and cost" }),
        (Builtin { name: "settings", description: "show resolved settings" }),
        (Builtin {
            name: "clear",
            description: "start over: clear the conversation and the screen",
        }),
        (Builtin { name: "exit", description: "quit octane" }),
    ]
}

/// The commands that the client implements in code. They are registered with the
/// files, which is what stops a file from taking one of their names.
pub fn builtins() -> (r: Vec<Builtin>)
    ensures
        r@ == builtins_of(),
{
    let r = vec![
        Builtin { name: "help", description: "show the key reference" },
        Builtin { name: "models", description: "list configured models" },
        Builtin { name: "connect", description: "set up a provider" },
        Builtin { name: "thinking", description: "show or set reasoning: off, low, medium, high" },
        Builtin { name: "cs", description: "search the codebase with parallel research agents" },
        Builtin { name: "agents", description: "list available agents" },
        Builtin { name: "mcp", description: "list MCP servers, their status, and their tools" },
        Builtin { name: "tools", description: "list the tools the model can call this turn" },
        Builtin { name: "stats", description: "token usage, cache hit rate, and cost" },
        Builtin { name: "settings", description: "show resolved settings" },
        Builtin { name: "clear", description: "start over: clear the conversation and the screen" },
        Builtin { name: "exit", description: "quit octane" },
    ];
    assert(r@ =~= builtins_of());
    r
}

/// A listing that is put together and said.
#[derive(Debug, Clone, Copy, PartialEq, Eq, Structural)]
pub enum Listing {
    Help,
    Models,
    Agents,
    Mcp,
    Tools,
    Stats,
}

/// What a session waits for before it can go on.
#[derive(Debug)]
pub enum Pending {
    Nothing,
    /// A provider to be set up.
    Connecting,
    /// A recorded session to be read.
    Loading,
    /// A theme to be copied.
    Creating,
    /// A setting to be written.
    Writing { key: String, value: String, applies: Applies },
    /// A command file to be expanded.
    Expanding,
    /// Files to be read.
    Attaching { text: String, references: Vec<String> },
    /// A skill to be looked for.
    Finding { name: String },
    /// A shell command to end.
    Shelling { id: ToolCallId, command: String },
}

/// What a [`Pending`] is.
pub enum PendingModel {
    Nothing,
    Connecting,
    Loading,
    Creating,
    Writing { key: Seq<char>, value: Seq<char>, applies: Applies },
    Expanding,
    Attaching { text: Seq<char>, references: Seq<Seq<char>> },
    Finding { name: Seq<char> },
    Shelling { id: Seq<char>, command: Seq<char> },
}

impl DeepView for Pending {
    type V = PendingModel;

    open spec fn deep_view(&self) -> PendingModel {
        match *self {
            Pending::Nothing => PendingModel::Nothing,
            Pending::Connecting => PendingModel::Connecting,
            Pending::Loading => PendingModel::Loading,
            Pending::Creating => PendingModel::Creating,
            Pending::Writing { key, value, applies } => PendingModel::Writing {
                key: key@,
                value: value@,
                applies,
            },
            Pending::Expanding => PendingModel::Expanding,
            Pending::Attaching { text, references } => PendingModel::Attaching {
                text: text@,
                references: references.deep_view(),
            },
            Pending::Finding { name } => PendingModel::Finding { name: name@ },
            Pending::Shelling { id, command } => PendingModel::Shelling {
                id: id.deep_view(),
                command: command@,
            },
        }
    }
}

/// An interactive session.
#[derive(Debug)]
pub struct Interactive {
    pub mode: PermissionMode,
    pub thinking: Thinking,
    /// Whether reasoning is shown.
    pub showing: bool,
    pub history: Vec<Message>,
    /// Whether a model is connected.
    pub has_model: bool,
    /// The models that a setting could name.
    pub models: Vec<String>,
    /// The themes that a setting could name.
    pub themes: Vec<String>,
    pub settings: Settings,
    pub pending: Pending,
}

/// What an [`Interactive`] is.
pub struct InteractiveModel {
    pub mode: PermissionMode,
    pub thinking: Thinking,
    pub showing: bool,
    pub history: Seq<MessageModel>,
    pub has_model: bool,
    pub models: Seq<Seq<char>>,
    pub themes: Seq<Seq<char>>,
    pub settings: SettingsModel,
    pub pending: PendingModel,
}

impl DeepView for Interactive {
    type V = InteractiveModel;

    open spec fn deep_view(&self) -> InteractiveModel {
        InteractiveModel {
            mode: self.mode,
            thinking: self.thinking,
            showing: self.showing,
            history: self.history.deep_view(),
            has_model: self.has_model,
            models: self.models.deep_view(),
            themes: self.themes.deep_view(),
            settings: self.settings.deep_view(),
            pending: self.pending.deep_view(),
        }
    }
}

/// A settings file that was written, and what all of them now say.
#[derive(Debug)]
pub struct WrittenSettings {
    /// The file.
    pub target: String,
    pub settings: Settings,
    pub errors: Vec<SettingsError>,
}

/// A shell command that ended: what it printed, and the tool's own account of it.
#[derive(Debug)]
pub struct ShellOutput {
    pub output: String,
    /// JSON text.
    pub metadata: Option<String>,
}

/// Something that happened.
#[derive(Debug)]
pub enum UiEvent {
    PickedProvider { key: String },
    /// What became of setting a provider up.
    Connected(Result<String, String>),
    PickedSession { key: String },
    /// What became of reading a recorded session.
    Loaded(Result<Vec<Message>, String>),
    /// A setting was chosen; the ellipsis is the one the screen can draw.
    PickedSetting { key: String, ellipsis: String },
    PickedValue { setting: String, value: String },
    /// What became of copying a theme: its name and what is said of it. The themes are
    /// those there are now.
    Created { outcome: Result<(String, String), String>, themes: Vec<String> },
    /// What became of writing a setting.
    Written(Result<WrittenSettings, String>),
    Exit,
    Interrupt,
    ModeChanged(PermissionMode),
    /// A command, with its arguments as they would read as a level of thinking.
    Command { name: String, args: String, level: Result<Thinking, String> },
    /// What became of expanding a command file.
    Expanded(Result<String, String>),
    /// The skill that was looked for, if there is one.
    Found(Option<String>),
    /// A shell command, with the id that its call is shown under.
    Shell { id: ToolCallId, command: String },
    /// What became of a shell command.
    Ended(Result<ShellOutput, String>),
    Prompt { text: String, references: Vec<String> },
    /// What became of reading each file, with the id that its call is shown under.
    Attached(Vec<(ToolCallId, Result<String, String>)>),
}

/// What reading a file came to.
pub enum ReadModel {
    Contents(Seq<char>),
    Failure(Seq<char>),
}

/// What a [`UiEvent`] says.
pub enum UiModel {
    PickedProvider { provider: Seq<char> },
    Connected(Result<Seq<char>, Seq<char>>),
    PickedSession { session: Seq<char> },
    Loaded(Result<Seq<MessageModel>, Seq<char>>),
    PickedSetting { key: Seq<char>, ellipsis: Seq<char> },
    PickedValue { setting: Seq<char>, value: Seq<char> },
    Created { outcome: Result<(Seq<char>, Seq<char>), Seq<char>>, themes: Seq<Seq<char>> },
    Written(Result<(Seq<char>, SettingsModel, Seq<SettingsError>), Seq<char>>),
    Exit,
    Interrupt,
    ModeChanged(PermissionMode),
    Command { name: Seq<char>, args: Seq<char>, level: Result<Thinking, Seq<char>> },
    Expanded(Result<Seq<char>, Seq<char>>),
    Found(Option<Seq<char>>),
    Shell { id: Seq<char>, command: Seq<char> },
    Ended(Result<(Seq<char>, Option<Seq<char>>), Seq<char>>),
    Prompt { text: Seq<char>, references: Seq<Seq<char>> },
    Attached(Seq<(Seq<char>, ReadModel)>),
}

/// A result of texts.
pub open spec fn texts_result(r: Result<String, String>) -> Result<Seq<char>, Seq<char>> {
    match r {
        Ok(text) => Ok(text@),
        Err(text) => Err(text@),
    }
}

/// What reading files came to.
pub open spec fn reads_of(replies: Seq<(ToolCallId, Result<String, String>)>) -> Seq<
    (Seq<char>, ReadModel),
> {
    Seq::new(
        replies.len(),
        |i: int|
            (
                replies[i].0.deep_view(),
                match replies[i].1 {
                    Ok(text) => ReadModel::Contents(text@),
                    Err(text) => ReadModel::Failure(text@),
                },
            ),
    )
}

impl DeepView for UiEvent {
    type V = UiModel;

    open spec fn deep_view(&self) -> UiModel {
        match *self {
            UiEvent::PickedProvider { key } => UiModel::PickedProvider { provider: key@ },
            UiEvent::Connected(report) => UiModel::Connected(texts_result(report)),
            UiEvent::PickedSession { key } => UiModel::PickedSession { session: key@ },
            UiEvent::Loaded(Ok(messages)) => UiModel::Loaded(Ok(messages.deep_view())),
            UiEvent::Loaded(Err(error)) => UiModel::Loaded(Err(error@)),
            UiEvent::PickedSetting { key, ellipsis } => UiModel::PickedSetting {
                key: key@,
                ellipsis: ellipsis@,
            },
            UiEvent::PickedValue { setting, value } => UiModel::PickedValue {
                setting: setting@,
                value: value@,
            },
            UiEvent::Created { outcome: Ok((name, note)), themes } => UiModel::Created {
                outcome: Ok((name@, note@)),
                themes: themes.deep_view(),
            },
            UiEvent::Created { outcome: Err(error), themes } => UiModel::Created {
                outcome: Err(error@),
                themes: themes.deep_view(),
            },
            UiEvent::Written(Ok(written)) => UiModel::Written(
                Ok((written.target@, written.settings.deep_view(), written.errors@)),
            ),
            UiEvent::Written(Err(error)) => UiModel::Written(Err(error@)),
            UiEvent::Exit => UiModel::Exit,
            UiEvent::Interrupt => UiModel::Interrupt,
            UiEvent::ModeChanged(mode) => UiModel::ModeChanged(mode),
            UiEvent::Command { name, args, level } => UiModel::Command {
                name: name@,
                args: args@,
                level: match level {
                    Ok(level) => Ok(level),
                    Err(error) => Err(error@),
                },
            },
            UiEvent::Expanded(prompt) => UiModel::Expanded(texts_result(prompt)),
            UiEvent::Found(body) => UiModel::Found(text_of(body)),
            UiEvent::Shell { id, command } => UiModel::Shell {
                id: id.deep_view(),
                command: command@,
            },
            UiEvent::Ended(Ok(shell)) => UiModel::Ended(
                Ok((shell.output@, text_of(shell.metadata))),
            ),
            UiEvent::Ended(Err(error)) => UiModel::Ended(Err(error@)),
            UiEvent::Prompt { text, references } => UiModel::Prompt {
                text: text@,
                references: references.deep_view(),
            },
            UiEvent::Attached(replies) => UiModel::Attached(reads_of(replies@)),
        }
    }
}

/// Something that has to be done.
#[derive(Debug)]
pub enum Effect {
    ClosePickers,
    /// Say something in the transcript.
    Say(String),
    /// Report an error.
    Fail(String),
    /// Show an item in the transcript.
    Note(ItemKind),
    /// Set a provider up.
    Connect { key: String },
    /// Read a recorded session.
    Load { key: String },
    /// Offer the values of a setting.
    OfferValues { setting: String, rows: Vec<Row> },
    /// Offer the themes that can be copied.
    OfferThemes,
    /// Copy a theme.
    Create { base: String },
    /// Write a setting to its file, and read all of them again.
    Write { key: String, value: Value },
    /// Change the screen to match the settings.
    Adopt(Live),
    /// Expand a command file.
    Expand { name: String, args: String },
    /// Read a file.
    Attach { reference: String },
    /// Look for a skill.
    Find { name: String },
    /// Run a command, given as the tool's input.
    RunShell { input: String },
    /// Run a turn on the history.
    RunTurn,
    /// Record the history.
    Record,
    Show(Listing),
    /// Offer the providers.
    OfferProviders,
    /// Offer the settings.
    OfferSettings(Vec<Row>),
    /// Offer the recorded sessions.
    OfferSessions(Vec<Row>),
    ClearTranscript,
    Leave,
}

/// What an [`Effect`] says.
pub enum EffectModel {
    ClosePickers,
    Say(Seq<char>),
    Fail(Seq<char>),
    Note(KindModel),
    Connect { provider: Seq<char> },
    Load { session: Seq<char> },
    OfferValues { setting: Seq<char>, rows: Seq<RowModel> },
    OfferThemes,
    Create { base: Seq<char> },
    Write { key: Seq<char>, value: ValueModel },
    Adopt(LiveModel),
    Expand { name: Seq<char>, args: Seq<char> },
    Attach { reference: Seq<char> },
    Find { skill: Seq<char> },
    RunShell { input: Seq<char> },
    RunTurn,
    Record,
    Show(Listing),
    OfferProviders,
    OfferSettings(Seq<RowModel>),
    OfferSessions(Seq<RowModel>),
    ClearTranscript,
    Leave,
}

impl DeepView for Effect {
    type V = EffectModel;

    open spec fn deep_view(&self) -> EffectModel {
        match *self {
            Effect::ClosePickers => EffectModel::ClosePickers,
            Effect::Say(text) => EffectModel::Say(text@),
            Effect::Fail(text) => EffectModel::Fail(text@),
            Effect::Note(kind) => EffectModel::Note(kind.deep_view()),
            Effect::Connect { key } => EffectModel::Connect { provider: key@ },
            Effect::Load { key } => EffectModel::Load { session: key@ },
            Effect::OfferValues { setting, rows } => EffectModel::OfferValues {
                setting: setting@,
                rows: rows.deep_view(),
            },
            Effect::OfferThemes => EffectModel::OfferThemes,
            Effect::Create { base } => EffectModel::Create { base: base@ },
            Effect::Write { key, value } => EffectModel::Write {
                key: key@,
                value: value.deep_view(),
            },
            Effect::Adopt(live) => EffectModel::Adopt(live.deep_view()),
            Effect::Expand { name, args } => EffectModel::Expand { name: name@, args: args@ },
            Effect::Attach { reference } => EffectModel::Attach { reference: reference@ },
            Effect::Find { name } => EffectModel::Find { skill: name@ },
            Effect::RunShell { input } => EffectModel::RunShell { input: input@ },
            Effect::RunTurn => EffectModel::RunTurn,
            Effect::Record => EffectModel::Record,
            Effect::Show(listing) => EffectModel::Show(listing),
            Effect::OfferProviders => EffectModel::OfferProviders,
            Effect::OfferSettings(rows) => EffectModel::OfferSettings(rows.deep_view()),
            Effect::OfferSessions(rows) => EffectModel::OfferSessions(rows.deep_view()),
            Effect::ClearTranscript => EffectModel::ClearTranscript,
            Effect::Leave => EffectModel::Leave,
        }
    }
}

/// Whether a session waits for an event. What the user does comes when nothing is
/// pending; a reply comes when it is.
pub open spec fn awaited(pending: PendingModel, event: UiModel) -> bool {
    match event {
        UiModel::Connected(_) => pending is Connecting,
        UiModel::Loaded(_) => pending is Loading,
        UiModel::Created { .. } => pending is Creating,
        UiModel::Written(_) => pending is Writing,
        UiModel::Expanded(_) => pending is Expanding,
        UiModel::Found(_) => pending is Finding,
        UiModel::Ended(_) => pending is Shelling,
        UiModel::Attached(replies) => match pending {
            PendingModel::Attaching { references, .. } => replies.len() == references.len(),
            _ => false,
        },
        _ => pending is Nothing,
    }
}

/// A session and what it asks for.
pub type Handled = (InteractiveModel, Seq<EffectModel>);

/// A prompt goes to the model, if there is one.
pub open spec fn submitted(s: InteractiveModel, prompt: Seq<char>) -> Handled {
    if s.has_model {
        (
            InteractiveModel { history: s.history.push(text_message(Role::User, prompt)), ..s },
            seq![EffectModel::RunTurn, EffectModel::Record],
        )
    } else {
        (s, seq![EffectModel::Fail(NO_MODEL@)])
    }
}

/// A setting's value was chosen.
pub open spec fn chosen(s: InteractiveModel, key: Seq<char>, value: Seq<char>) -> Handled {
    match choice_made(catalogue_of(s.models, s.themes), key, value) {
        Err(error) => (s, seq![EffectModel::Fail(error)]),
        Ok((value_to_write, applies)) => (
            InteractiveModel { pending: PendingModel::Writing { key, value, applies }, ..s },
            seq![EffectModel::Write { key, value: value_to_write }],
        ),
    }
}

/// A setting was written: the session follows.
pub open spec fn written(
    s: InteractiveModel,
    key: Seq<char>,
    value: Seq<char>,
    applies: Applies,
    target: Seq<char>,
    settings: SettingsModel,
    errors: Seq<SettingsError>,
) -> Handled {
    let (running, live) = live_of(
        Running { mode: s.mode, thinking: s.thinking, history: s.history },
        settings,
        key,
    );
    (
        InteractiveModel {
            mode: running.mode,
            thinking: running.thinking,
            history: running.history,
            showing: match live {
                LiveModel::Reasoning(shown) => shown,
                _ => s.showing,
            },
            settings,
            ..s
        },
        seq![
            EffectModel::Adopt(live),
            EffectModel::Say(change_text(key, value, target, applies, errors)),
        ],
    )
}

/// A command as it is shown.
pub open spec fn echo_of(name: Seq<char>, args: Seq<char>) -> Seq<char> {
    if args.len() == 0 {
        "/"@ + name
    } else {
        "/"@ + name + " "@ + args
    }
}

/// What a built-in does; any other name may be a skill's.
pub open spec fn built_in(
    s: InteractiveModel,
    name: Seq<char>,
    args: Seq<char>,
    level: Result<Thinking, Seq<char>>,
) -> Handled {
    if name == "thinking"@ {
        let (showing, thinking, text) = thinking_of(s.showing, s.thinking, args, level);
        (
            InteractiveModel { showing, thinking, ..s },
            seq![EffectModel::Adopt(LiveModel::Reasoning(showing)), EffectModel::Say(text)],
        )
    } else if name == "help"@ {
        (s, seq![EffectModel::Show(Listing::Help)])
    } else if name == "models"@ {
        (s, seq![EffectModel::Show(Listing::Models)])
    } else if name == "connect"@ {
        (s, seq![EffectModel::OfferProviders])
    } else if name == "agents"@ {
        (s, seq![EffectModel::Show(Listing::Agents)])
    } else if name == "mcp"@ {
        (s, seq![EffectModel::Show(Listing::Mcp)])
    } else if name == "tools"@ {
        (s, seq![EffectModel::Show(Listing::Tools)])
    } else if name == "stats"@ {
        (
            s,
            seq![
                if s.has_model {
                    EffectModel::Show(Listing::Stats)
                } else {
                    EffectModel::Say(NO_MODEL@)
                },
            ],
        )
    } else if name == "settings"@ {
        (
            s,
            seq![
                EffectModel::OfferSettings(
                    setting_rows_of(catalogue_of(s.models, s.themes), s.settings),
                ),
            ],
        )
    } else if name == "clear"@ {
        (InteractiveModel { history: Seq::empty(), ..s }, seq![EffectModel::ClearTranscript])
    } else if name == "exit"@ || name == "quit"@ {
        (s, seq![EffectModel::Leave])
    } else {
        (
            InteractiveModel { pending: PendingModel::Finding { name }, ..s },
            seq![EffectModel::Find { skill: name }],
        )
    }
}

/// What a command does, besides being shown. A built-in always wins: a file expands
/// to a prompt only under a name that no built-in has.
pub open spec fn commanded(
    s: InteractiveModel,
    commands: Map<Seq<char>, EntryModel>,
    name: Seq<char>,
    args: Seq<char>,
    level: Result<Thinking, Seq<char>>,
) -> Handled {
    if name == "cs"@ && trim_of(args).len() > 0 {
        submitted(s, search_text(args))
    } else if commands.dom().contains(name) && commands[name].kind is Prompt {
        (
            InteractiveModel { pending: PendingModel::Expanding, ..s },
            seq![EffectModel::Expand { name, args }],
        )
    } else {
        built_in(s, name, args, level)
    }
}

/// A prompt with the files that could be read behind it.
pub open spec fn with_files(text: Seq<char>, reads: Seq<(Seq<char>, ReadModel)>) -> Seq<char>
    decreases reads.len(),
{
    if reads.len() == 0 {
        text
    } else {
        let before = with_files(text, reads.drop_last());
        match reads.last().1 {
            ReadModel::Contents(contents) => before + "\n\n"@ + contents,
            ReadModel::Failure(_) => before,
        }
    }
}

/// What is shown of reading a file.
pub open spec fn read_shown(reference: Seq<char>, read: (Seq<char>, ReadModel)) -> EffectModel {
    match read.1 {
        ReadModel::Contents(_) => EffectModel::Note(
            KindModel::ToolExecution {
                call_id: read.0,
                name: "read"@,
                input: read_input_text(reference),
            },
        ),
        ReadModel::Failure(error) => EffectModel::Fail("@"@ + reference + ": "@ + error),
    }
}

/// What is shown of reading files.
pub open spec fn reads_shown(references: Seq<Seq<char>>, reads: Seq<(Seq<char>, ReadModel)>) -> Seq<
    EffectModel,
> {
    Seq::new(reads.len(), |i: int| read_shown(references[i], reads[i]))
}

/// A session after an event, and what it asks for.
pub open spec fn handled(
    before: InteractiveModel,
    commands: Map<Seq<char>, EntryModel>,
    event: UiModel,
) -> Handled {
    let s = InteractiveModel { pending: PendingModel::Nothing, ..before };
    match event {
        UiModel::PickedProvider { provider } => (
            InteractiveModel { pending: PendingModel::Connecting, ..s },
            seq![EffectModel::ClosePickers, EffectModel::Connect { provider }],
        ),
        UiModel::Connected(Ok(report)) => (
            s,
            seq![EffectModel::Say(report), EffectModel::Say("Restart octane to use it."@)],
        ),
        UiModel::Connected(Err(error)) => (s, seq![EffectModel::Fail(error)]),
        UiModel::PickedSession { session } => (
            InteractiveModel { pending: PendingModel::Loading, ..s },
            seq![EffectModel::ClosePickers, EffectModel::Load { session }],
        ),
        UiModel::Loaded(Ok(history)) => (
            InteractiveModel { history, ..s },
            seq![EffectModel::Say(resumed_text(history.len()))],
        ),
        UiModel::Loaded(Err(error)) => (s, seq![EffectModel::Fail(error)]),
        UiModel::PickedSetting { key, ellipsis } => {
            let catalogue = catalogue_of(s.models, s.themes);
            let at = setting_at(catalogue, key);
            (
                s,
                if at < catalogue.len() {
                    seq![
                        EffectModel::OfferValues {
                            setting: key,
                            rows: value_rows(catalogue[at], s.settings, ellipsis),
                        },
                    ]
                } else {
                    seq![
                        EffectModel::ClosePickers,
                        EffectModel::Fail(key + " is not an editable setting."@),
                    ]
                },
            )
        },
        UiModel::PickedValue { setting, value } => if setting == "theme"@ && value == NEW_THEME@ {
            (s, seq![EffectModel::OfferThemes])
        } else if setting == THEME_BASE@ {
            (
                InteractiveModel { pending: PendingModel::Creating, ..s },
                seq![EffectModel::ClosePickers, EffectModel::Create { base: value }],
            )
        } else {
            let (after, effects) = chosen(s, setting, value);
            (after, seq![EffectModel::ClosePickers] + effects)
        },
        UiModel::Created { outcome: Ok((name, note)), themes } => {
            let (after, effects) = chosen(InteractiveModel { themes, ..s }, "theme"@, name);
            (after, seq![EffectModel::Say(note)] + effects)
        },
        UiModel::Created { outcome: Err(error), .. } => (s, seq![EffectModel::Fail(error)]),
        UiModel::Written(Ok((target, settings, errors))) => match before.pending {
            PendingModel::Writing { key, value, applies } => written(
                s,
                key,
                value,
                applies,
                target,
                settings,
                errors,
            ),
            _ => (s, Seq::empty()),
        },
        UiModel::Written(Err(error)) => (s, seq![EffectModel::Fail(error)]),
        UiModel::Exit => (s, seq![EffectModel::Leave]),
        UiModel::Interrupt => (s, Seq::empty()),
        UiModel::ModeChanged(next) => (
            InteractiveModel { mode: next, history: told_of_mode(s.history, s.mode, next), ..s },
            Seq::empty(),
        ),
        UiModel::Command { name, args, level } => {
            let (after, effects) = commanded(s, commands, name, args, level);
            (
                after,
                seq![EffectModel::Note(KindModel::UserMessage { text: echo_of(name, args) })]
                    + effects,
            )
        },
        UiModel::Expanded(Ok(prompt)) => submitted(s, prompt),
        UiModel::Expanded(Err(error)) => (s, seq![EffectModel::Fail(error)]),
        UiModel::Found(body) => match before.pending {
            PendingModel::Finding { name } => (
                s,
                seq![
                    EffectModel::Say(
                        match body {
                            Some(body) => body,
                            None => "Unknown command /"@ + name + ". Try /help."@,
                        },
                    ),
                ],
            ),
            _ => (s, Seq::empty()),
        },
        UiModel::Shell { id, command } => (
            InteractiveModel { pending: PendingModel::Shelling { id, command }, ..s },
            seq![
                EffectModel::Note(
                    KindModel::ToolExecution {
                        call_id: id,
                        name: "bash"@,
                        input: shell_input_text(command),
                    },
                ),
                EffectModel::RunShell { input: shell_input_text(command) },
            ],
        ),
        UiModel::Ended(outcome) => match before.pending {
            PendingModel::Shelling { id, command } => (
                s,
                seq![
                    EffectModel::Note(
                        KindModel::ToolResult {
                            call_id: id,
                            name: "bash"@,
                            title: command,
                            metadata: match outcome {
                                Ok((_, metadata)) => metadata,
                                Err(_) => None,
                            },
                            body: match outcome {
                                Ok((output, _)) => output,
                                Err(error) => error,
                            },
                            is_error: match outcome {
                                Ok((_, metadata)) => failed_of(metadata),
                                Err(_) => true,
                            },
                        },
                    ),
                ],
            ),
            _ => (s, Seq::empty()),
        },
        UiModel::Prompt { text, references } => (
            InteractiveModel { pending: PendingModel::Attaching { text, references }, ..s },
            seq![EffectModel::Note(KindModel::UserMessage { text })] + Seq::new(
                references.len(),
                |i: int| EffectModel::Attach { reference: references[i] },
            ),
        ),
        UiModel::Attached(reads) => match before.pending {
            PendingModel::Attaching { text, references } => {
                let (after, effects) = submitted(s, with_files(text, reads));
                (after, reads_shown(references, reads) + effects)
            },
            _ => (s, Seq::empty()),
        },
    }
}

fn nothing() -> (r: Vec<Effect>)
    ensures
        r.deep_view() == Seq::<EffectModel>::empty(),
{
    let r: Vec<Effect> = Vec::new();
    assert(r.deep_view() =~= Seq::<EffectModel>::empty());
    r
}

fn one(effect: Effect) -> (r: Vec<Effect>)
    ensures
        r.deep_view() == seq![effect.deep_view()],
{
    let r = vec![effect];
    assert(r.deep_view() =~= seq![effect.deep_view()]);
    r
}

fn two(first: Effect, second: Effect) -> (r: Vec<Effect>)
    ensures
        r.deep_view() == seq![first.deep_view(), second.deep_view()],
{
    let r = vec![first, second];
    assert(r.deep_view() =~= seq![first.deep_view(), second.deep_view()]);
    r
}

fn followed(first: Effect, rest: Vec<Effect>) -> (r: Vec<Effect>)
    ensures
        r.deep_view() == seq![first.deep_view()] + rest.deep_view(),
{
    let ghost more = rest.deep_view();
    let mut rest = rest;
    let mut r = vec![first];
    assert(r.deep_view() =~= seq![first.deep_view()]);
    r.append(&mut rest);
    assert(r.deep_view() =~= seq![first.deep_view()] + more);
    r
}

impl Interactive {
    /// Whether the session waits for this event.
    pub fn awaits(&self, event: &UiEvent) -> (r: bool)
        ensures
            r == awaited(self.deep_view().pending, event.deep_view()),
    {
        match event {
            UiEvent::Connected(_) => matches!(self.pending, Pending::Connecting),
            UiEvent::Loaded(_) => matches!(self.pending, Pending::Loading),
            UiEvent::Created { .. } => matches!(self.pending, Pending::Creating),
            UiEvent::Written(_) => matches!(self.pending, Pending::Writing { .. }),
            UiEvent::Expanded(_) => matches!(self.pending, Pending::Expanding),
            UiEvent::Found(_) => matches!(self.pending, Pending::Finding { .. }),
            UiEvent::Ended(_) => matches!(self.pending, Pending::Shelling { .. }),
            UiEvent::Attached(replies) => match &self.pending {
                Pending::Attaching { references, .. } => replies.len() == references.len(),
                _ => false,
            },
            _ => matches!(self.pending, Pending::Nothing),
        }
    }

    /// Takes an event and says what has to be done, in order.
    pub fn handle(&mut self, commands: &Registry, event: UiEvent) -> (r: Vec<Effect>)
        requires
            awaited(old(self).deep_view().pending, event.deep_view()),
        ensures
            (final(self).deep_view(), r.deep_view()) == handled(
                old(self).deep_view(),
                commands@,
                event.deep_view(),
            ),
    {
        let mut pending = Pending::Nothing;
        std::mem::swap(&mut pending, &mut self.pending);
        let ghost s = self.deep_view();
        match event {
            UiEvent::PickedProvider { key } => {
                self.pending = Pending::Connecting;
                two(Effect::ClosePickers, Effect::Connect { key })
            },
            UiEvent::Connected(Ok(report)) => two(
                Effect::Say(report),
                Effect::Say("Restart octane to use it.".to_owned()),
            ),
            UiEvent::Connected(Err(error)) => one(Effect::Fail(error)),
            UiEvent::PickedSession { key } => {
                self.pending = Pending::Loading;
                two(Effect::ClosePickers, Effect::Load { key })
            },
            UiEvent::Loaded(Ok(messages)) => {
                let count: usize = messages.len();
                self.history = messages;
                assert(self.history.deep_view().len() == count);
                one(Effect::Say(resumed_notice(count)))
            },
            UiEvent::Loaded(Err(error)) => one(Effect::Fail(error)),
            UiEvent::PickedSetting { key, ellipsis } => {
                match setting_value_picker(
                    &self.settings,
                    &self.models,
                    &self.themes,
                    &ellipsis,
                    &key,
                ) {
                    Some(rows) => one(Effect::OfferValues { setting: key, rows }),
                    None => {
                        let mut text = key;
                        text.push_str(" is not an editable setting.");
                        two(Effect::ClosePickers, Effect::Fail(text))
                    },
                }
            },
            UiEvent::PickedValue { setting, value } => {
                if same(&setting, "theme") && same(&value, NEW_THEME) {
                    one(Effect::OfferThemes)
                } else if same(&setting, THEME_BASE) {
                    self.pending = Pending::Creating;
                    two(Effect::ClosePickers, Effect::Create { base: value })
                } else {
                    let effects = self.write_choice(setting, value);
                    followed(Effect::ClosePickers, effects)
                }
            },
            UiEvent::Created { outcome, themes } => match outcome {
                Ok((name, note)) => {
                    self.themes = themes;
                    let effects = self.write_choice("theme".to_owned(), name);
                    followed(Effect::Say(note), effects)
                },
                Err(error) => one(Effect::Fail(error)),
            },
            UiEvent::Written(Ok(written)) => match pending {
                Pending::Writing { key, value, applies } => self.follow(
                    &key,
                    &value,
                    applies,
                    written,
                ),
                _ => nothing(),
            },
            UiEvent::Written(Err(error)) => one(Effect::Fail(error)),
            UiEvent::Exit => one(Effect::Leave),
            UiEvent::Interrupt => nothing(),
            UiEvent::ModeChanged(next) => {
                switch_mode(&mut self.mode, next, &mut self.history);
                nothing()
            },
            UiEvent::Command { name, args, level } => {
                let mut text = "/".to_owned();
                text.push_str(&name);
                if !args.as_str().is_empty() {
                    text.push_str(" ");
                    text.push_str(&args);
                }
                let effects = self.command(commands, name, args, level);
                followed(Effect::Note(ItemKind::UserMessage { text }), effects)
            },
            UiEvent::Expanded(Ok(prompt)) => self.submit(&prompt),
            UiEvent::Expanded(Err(error)) => one(Effect::Fail(error)),
            UiEvent::Found(body) => match pending {
                Pending::Finding { name } => {
                    let text = match body {
                        Some(body) => body,
                        None => {
                            let mut text = "Unknown command /".to_owned();
                            text.push_str(&name);
                            text.push_str(". Try /help.");
                            text
                        },
                    };
                    one(Effect::Say(text))
                },
                _ => nothing(),
            },
            UiEvent::Shell { id, command } => {
                let input = shell_input(&command);
                let kind = ItemKind::ToolExecution {
                    call_id: id.clone(),
                    name: "bash".to_owned(),
                    input: input.clone(),
                };
                self.pending = Pending::Shelling { id, command };
                two(Effect::Note(kind), Effect::RunShell { input })
            },
            UiEvent::Ended(outcome) => match pending {
                Pending::Shelling { id, command } => {
                    let (body, metadata, is_error) = match outcome {
                        Ok(shell) => {
                            let failed: bool = shell_failed(&shell.metadata);
                            (shell.output, shell.metadata, failed)
                        },
                        Err(error) => (error, None, true),
                    };
                    one(
                        Effect::Note(
                            ItemKind::ToolResult {
                                call_id: id,
                                name: "bash".to_owned(),
                                title: command,
                                metadata,
                                body,
                                is_error,
                            },
                        ),
                    )
                },
                _ => nothing(),
            },
            UiEvent::Prompt { text, references } => {
                let ghost wanted = Seq::new(
                    references.deep_view().len(),
                    |i: int| EffectModel::Attach { reference: references.deep_view()[i] },
                );
                let mut effects: Vec<Effect> = Vec::new();
                let mut i: usize = 0;
                assert(effects.deep_view() =~= wanted.take(0));
                while i < references.len()
                    invariant
                        i <= references@.len(),
                        wanted == Seq::new(
                            references.deep_view().len(),
                            |i: int| EffectModel::Attach { reference: references.deep_view()[i] },
                        ),
                        effects.deep_view() == wanted.take(i as int),
                    decreases references@.len() - i,
                {
                    let ghost earlier = effects.deep_view();
                    let effect = Effect::Attach { reference: references[i].clone() };
                    effects.push(effect);
                    assert(references.deep_view()[i as int] == references@[i as int]@);
                    assert(effects.deep_view() =~= earlier.push(effect.deep_view()));
                    assert(effects.deep_view() =~= wanted.take(i + 1));
                    i += 1;
                }
                assert(wanted.take(i as int) =~= wanted);
                let kind = ItemKind::UserMessage { text: text.clone() };
                self.pending = Pending::Attaching { text, references };
                followed(Effect::Note(kind), effects)
            },
            UiEvent::Attached(replies) => match pending {
                Pending::Attaching { text, references } => self.attach(text, references, replies),
                _ => nothing(),
            },
        }
    }

    fn submit(&mut self, prompt: &str) -> (r: Vec<Effect>)
        ensures
            (final(self).deep_view(), r.deep_view()) == submitted(old(self).deep_view(), prompt@),
    {
        if self.has_model {
            let ghost before = self.history.deep_view();
            let message = Message::text(Role::User, prompt);
            self.history.push(message);
            assert(self.history.deep_view() =~= before.push(message.deep_view()));
            two(Effect::RunTurn, Effect::Record)
        } else {
            one(Effect::Fail(NO_MODEL.to_owned()))
        }
    }

    fn write_choice(&mut self, key: String, value: String) -> (r: Vec<Effect>)
        ensures
            (final(self).deep_view(), r.deep_view()) == chosen(
                old(self).deep_view(),
                key@,
                value@,
            ),
    {
        match choose_value(&self.models, &self.themes, &key, &value) {
            Err(error) => one(Effect::Fail(error)),
            Ok((to_write, applies)) => {
                let copy = key.clone();
                self.pending = Pending::Writing { key, value, applies };
                one(Effect::Write { key: copy, value: to_write })
            },
        }
    }

    fn follow(&mut self, key: &str, value: &str, applies: Applies, w: WrittenSettings) -> (r: Vec<
        Effect,
    >)
        ensures
            (final(self).deep_view(), r.deep_view()) == written(
                old(self).deep_view(),
                key@,
                value@,
                applies,
                w.target@,
                w.settings.deep_view(),
                w.errors@,
            ),
    {
        let report = change_report(key, value, &w.target, applies, &w.errors);
        self.settings = w.settings;
        let live = apply_setting(
            &mut self.mode,
            &mut self.thinking,
            &mut self.history,
            &self.settings,
            key,
        );
        match &live {
            Live::Reasoning(shown) => {
                self.showing = *shown;
            },
            _ => {},
        }
        two(Effect::Adopt(live), Effect::Say(report))
    }

    fn command(
        &mut self,
        commands: &Registry,
        name: String,
        args: String,
        level: Result<Thinking, String>,
    ) -> (r: Vec<Effect>)
        ensures
            (final(self).deep_view(), r.deep_view()) == commanded(
                old(self).deep_view(),
                commands@,
                name@,
                args@,
                match level {
                    Ok(level) => Ok(level),
                    Err(error) => Err(error@),
                },
            ),
    {
        if same(&name, "cs") && !trim(&args).as_str().is_empty() {
            return self.submit(&codebase_search_prompt(&args));
        }
        let is_file: bool = match commands.get(&name) {
            Some(entry) => match &entry.kind {
                Kind::Prompt(_) => true,
                Kind::Builtin => false,
            },
            None => false,
        };
        if is_file {
            self.pending = Pending::Expanding;
            return one(Effect::Expand { name, args });
        }
        self.builtin(name, &args, level)
    }

    fn builtin(&mut self, name: String, args: &str, level: Result<Thinking, String>) -> (r: Vec<
        Effect,
    >)
        ensures
            (final(self).deep_view(), r.deep_view()) == built_in(
                old(self).deep_view(),
                name@,
                args@,
                match level {
                    Ok(level) => Ok(level),
                    Err(error) => Err(error@),
                },
            ),
    {
        if same(&name, "thinking") {
            let text = set_thinking(&mut self.showing, &mut self.thinking, args, level);
            two(Effect::Adopt(Live::Reasoning(self.showing)), Effect::Say(text))
        } else if same(&name, "help") {
            one(Effect::Show(Listing::Help))
        } else if same(&name, "models") {
            one(Effect::Show(Listing::Models))
        } else if same(&name, "connect") {
            one(Effect::OfferProviders)
        } else if same(&name, "agents") {
            one(Effect::Show(Listing::Agents))
        } else if same(&name, "mcp") {
            one(Effect::Show(Listing::Mcp))
        } else if same(&name, "tools") {
            one(Effect::Show(Listing::Tools))
        } else if same(&name, "stats") {
            if self.has_model {
                one(Effect::Show(Listing::Stats))
            } else {
                one(Effect::Say(NO_MODEL.to_owned()))
            }
        } else if same(&name, "settings") {
            one(
                Effect::OfferSettings(
                    settings_picker(&self.settings, &self.models, &self.themes),
                ),
            )
        } else if same(&name, "clear") {
            self.history = Vec::new();
            assert(self.history.deep_view() =~= Seq::<MessageModel>::empty());
            one(Effect::ClearTranscript)
        } else if same(&name, "exit") || same(&name, "quit") {
            one(Effect::Leave)
        } else {
            let copy = name.clone();
            self.pending = Pending::Finding { name };
            one(Effect::Find { name: copy })
        }
    }

    fn attach(
        &mut self,
        text: String,
        references: Vec<String>,
        replies: Vec<(ToolCallId, Result<String, String>)>,
    ) -> (r: Vec<Effect>)
        requires
            replies@.len() == references@.len(),
        ensures
            ({
                let reads = reads_of(replies@);
                let (after, effects) = submitted(
                    old(self).deep_view(),
                    with_files(text@, reads),
                );
                &&& final(self).deep_view() == after
                &&& r.deep_view() == reads_shown(references.deep_view(), reads) + effects
            }),
    {
        let ghost reads = reads_of(replies@);
        let ghost shown = reads_shown(references.deep_view(), reads);
        let ghost start = text@;
        let mut prompt = text;
        let mut effects: Vec<Effect> = Vec::new();
        let mut i: usize = 0;
        assert(effects.deep_view() =~= shown.take(0));
        assert(reads.take(0) =~= Seq::<(Seq<char>, ReadModel)>::empty());
        while i < replies.len()
            invariant
                i <= replies@.len() == references@.len(),
                reads == reads_of(replies@),
                shown == reads_shown(references.deep_view(), reads),
                prompt@ == with_files(start, reads.take(i as int)),
                effects.deep_view() == shown.take(i as int),
            decreases replies@.len() - i,
        {
            let ghost earlier = effects.deep_view();
            assert(reads.take(i + 1).drop_last() =~= reads.take(i as int));
            assert(reads.take(i + 1).last() == reads[i as int]);
            assert(references.deep_view()[i as int] == references@[i as int]@);
            let effect = match &replies[i].1 {
                Ok(contents) => {
                    prompt.push_str("\n\n");
                    prompt.push_str(contents);
                    Effect::Note(
                        ItemKind::ToolExecution {
                            call_id: replies[i].0.clone(),
                            name: "read".to_owned(),
                            input: read_input(&references[i]),
                        },
                    )
                },
                Err(error) => {
                    let mut said = "@".to_owned();
                    said.push_str(&references[i]);
                    said.push_str(": ");
                    said.push_str(error);
                    Effect::Fail(said)
                },
            };
            effects.push(effect);
            assert(effect.deep_view() == shown[i as int]);
            assert(effects.deep_view() =~= earlier.push(effect.deep_view()));
            assert(effects.deep_view() =~= shown.take(i + 1));
            i += 1;
        }
        assert(reads.take(i as int) =~= reads);
        assert(shown.take(i as int) =~= shown);
        let mut more = self.submit(&prompt);
        let ghost tail = more.deep_view();
        effects.append(&mut more);
        assert(effects.deep_view() =~= shown + tail);
        effects
    }
}

/// Whether effects start a turn.
pub open spec fn runs_a_turn(effects: Seq<EffectModel>) -> bool {
    effects.contains(EffectModel::RunTurn)
}

/// A turn runs only where there is a model, and only after the user has said
/// something: their message is the last of the history. It is recorded after it ran.
pub proof fn law_a_turn_needs_a_model(
    s: InteractiveModel,
    commands: Map<Seq<char>, EntryModel>,
    event: UiModel,
)
    requires
        runs_a_turn(handled(s, commands, event).1),
    ensures
        s.has_model,
        ({
            let (after, effects) = handled(s, commands, event);
            &&& after.history.len() == s.history.len() + 1
            &&& after.history.drop_last() == s.history
            &&& after.history.last().role == Role::User
            &&& effects.last() == EffectModel::Record
        }),
{
    let (after, effects) = handled(s, commands, event);
    let i = choose|i: int| 0 <= i < effects.len() && effects[i] == EffectModel::RunTurn;
    match event {
        UiModel::Attached(reads) => match s.pending {
            PendingModel::Attaching { text, references } => {
                let shown = reads_shown(references, reads);
                if i < shown.len() {
                    assert(effects[i] == shown[i]);
                }
            },
            _ => {},
        },
        UiModel::Prompt { text, references } => {
            if i > 0 {
                assert(effects[i] == EffectModel::Attach { reference: references[i - 1] });
            }
        },
        _ => {},
    }
    assert(after.history.drop_last() =~= s.history);
}

/// No file can take a built-in's name: whatever files there are, such a name never
/// expands one. It does what the client's own code does.
pub proof fn law_built_ins_win(
    s: InteractiveModel,
    files: Map<Seq<char>, EntryModel>,
    i: int,
    args: Seq<char>,
    level: Result<Thinking, Seq<char>>,
)
    requires
        0 <= i < builtins_of().len(),
    ensures
        ({
            let n = builtins_of().len() as int;
            let name = builtins_of()[i].name@;
            commanded(s, with_builtins(files, builtins_of(), n), name, args, level) == if name
                == "cs"@ && trim_of(args).len() > 0 {
                submitted(s, search_text(args))
            } else {
                built_in(s, name, args, level)
            }
        }),
{
    law_builtins_cannot_be_shadowed(files, builtins_of(), builtins_of().len() as int, i);
}

/// Every command that the menu offers does something: none of them falls through to
/// the search for a skill, but for a codebase search that does not say for what.
pub proof fn law_every_offered_command_is_handled(
    s: InteractiveModel,
    commands: Map<Seq<char>, EntryModel>,
    i: int,
    args: Seq<char>,
    level: Result<Thinking, Seq<char>>,
)
    requires
        0 <= i < builtins_of().len(),
        builtins_of()[i].name@ == "cs"@ ==> trim_of(args).len() > 0,
    ensures
        ({
            let name = builtins_of()[i].name@;
            commanded(s, commands, name, args, level).1[0] != (EffectModel::Find { skill: name })
        }),
{
    let name = builtins_of()[i].name@;
    assert(name == "help"@ || name == "models"@ || name == "connect"@ || name == "thinking"@
        || name == "cs"@ || name == "agents"@ || name == "mcp"@ || name == "tools"@ || name
        == "stats"@ || name == "settings"@ || name == "clear"@ || name == "exit"@);
}

/// Clearing forgets the conversation, not only the screen.
pub proof fn law_clearing_forgets(
    s: InteractiveModel,
    args: Seq<char>,
    level: Result<Thinking, Seq<char>>,
)
    ensures
        built_in(s, "clear"@, args, level).0.history.len() == 0,
        built_in(s, "clear"@, args, level).1 == seq![EffectModel::ClearTranscript],
{
    reveal_strlit("clear");
    reveal_strlit("thinking");
    reveal_strlit("help");
    reveal_strlit("models");
    reveal_strlit("connect");
    reveal_strlit("agents");
    reveal_strlit("mcp");
    reveal_strlit("tools");
    reveal_strlit("stats");
    reveal_strlit("settings");
    assert("clear"@[1] == 'l');
    assert("agents"@.len() == 6);
    assert("tools"@[0] == 't');
    assert("stats"@[0] == 's');
}

/// The mode that decides is the mode on the screen: after the user changed it the
/// session is in it, and the model was told if that is a change.
pub proof fn law_the_shown_mode_decides(
    s: InteractiveModel,
    commands: Map<Seq<char>, EntryModel>,
    next: PermissionMode,
)
    ensures
        ({
            let after = handled(s, commands, UiModel::ModeChanged(next)).0;
            &&& after.mode == next
            &&& s.mode != next ==> after.history == s.history.push(
                notice_message(mode_switch_text(label_of(s.mode), label_of(next))),
            )
            &&& s.mode == next ==> after.history == s.history
        }),
{
}

/// What was said stays: only reading a recorded session or clearing takes a message
/// away.
pub proof fn law_the_history_is_kept(
    s: InteractiveModel,
    commands: Map<Seq<char>, EntryModel>,
    event: UiModel,
)
    requires
        !(event is Loaded),
        event is Command ==> event->name != "clear"@,
    ensures
        s.history.is_prefix_of(handled(s, commands, event).0.history),
{
    let after = handled(s, commands, event).0.history;
    assert(s.history =~= after.subrange(0, s.history.len() as int));
}

} // verus!
