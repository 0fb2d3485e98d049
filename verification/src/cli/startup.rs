//! What a session starts with: flags over settings, where things live, and a report
//! of it all.

use vstd::prelude::*;

use crate::config::settings::{Settings, Thinking};
use crate::engine::prompt::{PromptAssembler, PromptModel, BASE_INSTRUCTIONS};
use crate::mcp::config::{ConfigModel, ServerConfig};
use crate::mcp::{error_text, McpError, McpErrorModel};
use crate::paths;
use crate::paths::joined;
use crate::permission::mode::label_of;
use crate::permission::PermissionMode;
use crate::text::{decimal, decimal_of, join, join_of, pad, pad_of, replace_char, slice_of, trim_of};
use crate::text_map::TextMap;

verus! {

/// Where recorded sessions live under a config root.
pub const SESSIONS_DIR: &'static str = "sessions";

/// The permission mode as a flag says it.
#[derive(Debug, Clone, Copy, PartialEq, Eq, Structural)]
pub enum ModeArg {
    Default,
    Plan,
    AcceptEdits,
    /// Skips prompts. Deny rules and the sandbox still apply.
    Bypass,
}

/// The mode a flag asks for.
pub open spec fn mode_of(arg: ModeArg) -> PermissionMode {
    match arg {
        ModeArg::Default => PermissionMode::Default,
        ModeArg::Plan => PermissionMode::Plan,
        ModeArg::AcceptEdits => PermissionMode::AcceptEdits,
        ModeArg::Bypass => PermissionMode::Bypass,
    }
}

impl From<ModeArg> for PermissionMode {
    fn from(arg: ModeArg) -> (r: Self) {
        match arg {
            ModeArg::Default => PermissionMode::Default,
            ModeArg::Plan => PermissionMode::Plan,
            ModeArg::AcceptEdits => PermissionMode::AcceptEdits,
            ModeArg::Bypass => PermissionMode::Bypass,
        }
    }
}

impl vstd::std_specs::convert::FromSpecImpl<ModeArg> for PermissionMode {
    open spec fn obeys_from_spec() -> bool {
        true
    }

    open spec fn from_spec(arg: ModeArg) -> Self {
        mode_of(arg)
    }
}

/// The mode a session starts in. A flag at its default cannot be told from one that
/// was not given, so the settings win only then.
pub fn starting_mode(flag: ModeArg, configured: Option<PermissionMode>) -> (r: PermissionMode)
    ensures
        r == (if flag is Default && configured is Some {
            configured->0
        } else {
            mode_of(flag)
        }),
{
    match (flag, configured) {
        (ModeArg::Default, Some(configured)) => configured,
        (flag, _) => PermissionMode::from(flag),
    }
}

/// The model a session starts with: a flag is a deliberate one-off, a file a
/// standing preference.
pub fn starting_model(flag: Option<String>, configured: Option<String>) -> (r: Option<String>)
    ensures
        r == (if flag is Some {
            flag
        } else {
            configured
        }),
{
    if flag.is_some() {
        flag
    } else {
        configured
    }
}

/// How hard the model reasons at first: what the settings say, else what the model's
/// own configuration says, else the default.
pub fn starting_thinking(settings: &Settings, model: Option<Thinking>) -> (r: Thinking)
    ensures
        r == (if settings.thinking is Some {
            settings.thinking->0
        } else if model is Some {
            model->0
        } else {
            Thinking::Auto
        }),
{
    match settings.thinking {
        Some(thinking) => thinking,
        None => match model {
            Some(thinking) => thinking,
            None => Thinking::default(),
        },
    }
}

/// Whether commands run contained.
pub fn starts_contained(no_sandbox: bool, configured: Option<bool>) -> (r: bool)
    ensures
        r == (!no_sandbox && (configured is Some ==> configured->0)),
{
    !no_sandbox && match configured {
        Some(contained) => contained,
        None => true,
    }
}

/// Whether contained commands reach the network.
#[derive(Debug, Clone, Copy, PartialEq, Eq, Structural)]
pub enum Network {
    Denied,
    Allowed,
}

/// How a network policy reads.
pub open spec fn network_text(network: Network) -> Seq<char> {
    match network {
        Network::Denied => "Denied"@,
        Network::Allowed => "Allowed"@,
    }
}

fn network_name(network: Network) -> (r: &'static str)
    ensures
        r@ == network_text(network),
{
    match network {
        Network::Denied => "Denied",
        Network::Allowed => "Allowed",
    }
}

/// A directory that commands may write to.
#[derive(Debug)]
pub struct WritableRoot {
    pub path: String,
    /// What below it stays read-only.
    pub read_only_subpaths: Vec<String>,
}

/// What a [`WritableRoot`] is.
pub struct RootModel {
    pub path: Seq<char>,
    pub read_only_subpaths: Seq<Seq<char>>,
}

impl DeepView for WritableRoot {
    type V = RootModel;

    open spec fn deep_view(&self) -> RootModel {
        RootModel { path: self.path@, read_only_subpaths: self.read_only_subpaths.deep_view() }
    }
}

/// What commands can reach.
#[derive(Debug)]
pub enum Sandbox {
    DangerFullAccess,
    /// Contained by the host.
    ExternalSandbox,
    ReadOnly { network: Network },
    WorkspaceWrite { writable_roots: Vec<WritableRoot>, network: Network },
}

/// What a [`Sandbox`] is.
pub enum SandboxModel {
    DangerFullAccess,
    ExternalSandbox,
    ReadOnly { network: Network },
    WorkspaceWrite { writable_roots: Seq<RootModel>, network: Network },
}

impl DeepView for Sandbox {
    type V = SandboxModel;

    open spec fn deep_view(&self) -> SandboxModel {
        match *self {
            Sandbox::DangerFullAccess => SandboxModel::DangerFullAccess,
            Sandbox::ExternalSandbox => SandboxModel::ExternalSandbox,
            Sandbox::ReadOnly { network } => SandboxModel::ReadOnly { network },
            Sandbox::WorkspaceWrite { writable_roots, network } => SandboxModel::WorkspaceWrite {
                writable_roots: writable_roots.deep_view(),
                network,
            },
        }
    }
}

/// A sandbox as the settings want its network. Only a sandbox around the workspace
/// can be opened: it denies the network unless somebody asks for it.
pub fn with_network(sandbox: Sandbox, allowed: Option<bool>) -> (r: Sandbox)
    ensures
        r.deep_view() == (match sandbox.deep_view() {
            SandboxModel::WorkspaceWrite { writable_roots, network } => if allowed == Some(true) {
                SandboxModel::WorkspaceWrite { writable_roots, network: Network::Allowed }
            } else {
                sandbox.deep_view()
            },
            other => other,
        }),
{
    let open: bool = match allowed {
        Some(open) => open,
        None => false,
    };
    match sandbox {
        Sandbox::WorkspaceWrite { writable_roots, network } => Sandbox::WorkspaceWrite {
            writable_roots,
            network: if open {
                Network::Allowed
            } else {
                network
            },
        },
        other => other,
    }
}

/// The paths of roots.
pub open spec fn root_paths(roots: Seq<RootModel>) -> Seq<Seq<char>> {
    Seq::new(roots.len(), |i: int| roots[i].path)
}

fn paths_of(roots: &Vec<WritableRoot>) -> (r: Vec<String>)
    ensures
        r.deep_view() == root_paths(roots.deep_view()),
{
    let ghost all = root_paths(roots.deep_view());
    let mut r: Vec<String> = Vec::new();
    let mut i: usize = 0;
    while i < roots.len()
        invariant
            i <= roots@.len(),
            all == root_paths(roots.deep_view()),
            r.deep_view() == all.take(i as int),
        decreases roots@.len() - i,
    {
        let ghost before = r.deep_view();
        r.push(roots[i].path.clone());
        assert(all[i as int] == roots@[i as int].path@);
        assert(r.deep_view() =~= before.push(all[i as int]));
        assert(r.deep_view() =~= all.take(i + 1));
        i += 1;
    }
    assert(all.take(i as int) =~= all);
    r
}

/// What the model is told of the sandbox.
pub open spec fn sandbox_text(sandbox: SandboxModel) -> Seq<char> {
    match sandbox {
        SandboxModel::DangerFullAccess => {
            "Commands run unconfined. Nothing constrains what they can reach."@
        },
        SandboxModel::ExternalSandbox => {
            "Commands run inside an external sandbox managed by the host."@
        },
        SandboxModel::ReadOnly { network } => {
            "Commands run read-only; no path is writable. Network is "@ + network_text(network)
                + "."@
        },
        SandboxModel::WorkspaceWrite { writable_roots, network } => {
            "Commands run confined. Writable: "@ + join_of(root_paths(writable_roots), ", "@)
                + ". Everything else, including `.git/` and `.octane/` inside those roots, is read-only. Network is "@
                + network_text(network)
                + ". A denial is the sandbox, not a broken command — do not work around it."@
        },
    }
}

/// What the sandbox permits, in a sentence the model can act on: one that does not
/// know it is confined takes a denial for a broken command.
pub fn describe_sandbox(sandbox: &Sandbox) -> (r: String)
    ensures
        r@ == sandbox_text(sandbox.deep_view()),
{
    match sandbox {
        Sandbox::DangerFullAccess => {
            "Commands run unconfined. Nothing constrains what they can reach.".to_owned()
        },
        Sandbox::ExternalSandbox => {
            "Commands run inside an external sandbox managed by the host.".to_owned()
        },
        Sandbox::ReadOnly { network } => {
            let mut r = "Commands run read-only; no path is writable. Network is ".to_owned();
            r.push_str(network_name(*network));
            r.push_str(".");
            r
        },
        Sandbox::WorkspaceWrite { writable_roots, network } => {
            let mut r = "Commands run confined. Writable: ".to_owned();
            r.push_str(&join(&paths_of(writable_roots), ", "));
            r.push_str(". Everything else, including `.git/` and `.octane/` inside those roots, is read-only. Network is ");
            r.push_str(network_name(*network));
            r.push_str(". A denial is the sandbox, not a broken command — do not work around it.");
            r
        },
    }
}

/// What the model is told of where it runs.
pub open spec fn environment_text(workspace: Seq<char>, platform: Seq<char>) -> Seq<char> {
    "Working directory: "@ + workspace + "\nPlatform: "@ + platform
        + "\nThis is a snapshot taken at session start."@
}

/// A session's prompt. It is made once: changing it later would change the cached
/// prefix of every turn.
pub fn session_prompt(
    sandbox: &Sandbox,
    workspace: &str,
    platform: &str,
    memory: &str,
    mcp_instructions: &str,
) -> (r: PromptAssembler)
    ensures
        r.deep_view() == (PromptModel {
            base_instructions: BASE_INSTRUCTIONS@,
            environment: Some(environment_text(workspace@, platform@)),
            sandbox_description: Some(sandbox_text(sandbox.deep_view())),
            skill_manifest: None,
            memory: if memory@.len() == 0 {
                None
            } else {
                Some(memory@)
            },
            mcp_instructions: if trim_of(mcp_instructions@).len() == 0 {
                None
            } else {
                Some(mcp_instructions@)
            },
        }),
{
    let mut environment = "Working directory: ".to_owned();
    environment.push_str(workspace);
    environment.push_str("\nPlatform: ");
    environment.push_str(platform);
    environment.push_str("\nThis is a snapshot taken at session start.");
    let assembler = PromptAssembler::new(BASE_INSTRUCTIONS).sandbox(&describe_sandbox(sandbox)).environment(
        &environment,
    );
    let assembler = if memory.is_empty() {
        assembler
    } else {
        assembler.memory(memory)
    };
    assembler.mcp_instructions(mcp_instructions)
}

/// Where recorded sessions live: under the first root, which is the user's, since a
/// conversation is not a directory's.
pub fn sessions_dir(roots: &Vec<String>, workspace: &str) -> (r: String)
    ensures
        r@ == joined(
            if roots@.len() > 0 {
                roots@[0]@
            } else {
                joined(workspace@, ".octane"@)
            },
            SESSIONS_DIR@,
        ),
{
    if roots.len() > 0 {
        paths::join(&roots[0], SESSIONS_DIR)
    } else {
        paths::join(&paths::join(workspace, ".octane"), SESSIONS_DIR)
    }
}

/// A directory below each of the roots, in the same order.
pub open spec fn below_roots(roots: Seq<Seq<char>>, sub: Seq<char>) -> Seq<Seq<char>> {
    Seq::new(roots.len(), |i: int| joined(roots[i], sub))
}

/// Config subdirectories, least specific first, so that the project's wins.
pub fn config_dirs(roots: &Vec<String>, sub: &str) -> (r: Vec<String>)
    ensures
        r.deep_view() == below_roots(roots.deep_view(), sub@),
{
    let ghost all = below_roots(roots.deep_view(), sub@);
    let mut r: Vec<String> = Vec::new();
    let mut i: usize = 0;
    while i < roots.len()
        invariant
            i <= roots@.len(),
            all == below_roots(roots.deep_view(), sub@),
            r.deep_view() == all.take(i as int),
        decreases roots@.len() - i,
    {
        let ghost before = r.deep_view();
        r.push(paths::join(&roots[i], sub));
        assert(all[i as int] == joined(roots@[i as int]@, sub@));
        assert(r.deep_view() =~= before.push(all[i as int]));
        assert(r.deep_view() =~= all.take(i + 1));
        i += 1;
    }
    assert(all.take(i as int) =~= all);
    r
}

/// What is said on resuming.
pub open spec fn resumed_text(count: nat) -> Seq<char> {
    "Resumed with "@ + decimal_of(count)
        + " earlier message(s). The transcript starts fresh; the model still has them."@
}

/// Said on resuming: the transcript starts empty though the model has the
/// conversation.
pub fn resumed_notice(count: usize) -> (r: String)
    ensures
        r@ == resumed_text(count as nat),
{
    let mut r = "Resumed with ".to_owned();
    r.push_str(&decimal(count as u64));
    r.push_str(" earlier message(s). The transcript starts fresh; the model still has them.");
    r
}

/// What is said of a theme that nothing defines.
pub open spec fn unknown_theme_text(name: Seq<char>) -> Seq<char> {
    "`theme = \""@ + name
        + "\"` names no built-in or discovered theme; using the default."@
}

/// Said of a theme that nothing defines: a typo that quietly did nothing would not be
/// found.
pub fn unknown_theme(name: &str) -> (r: String)
    ensures
        r@ == unknown_theme_text(name@),
{
    let mut r = "`theme = \"".to_owned();
    r.push_str(name);
    r.push_str("\"` names no built-in or discovered theme; using the default.");
    r
}

/// A row of a picker.
#[derive(Debug, PartialEq, Eq)]
pub struct Row {
    /// What choosing the row gives.
    pub key: String,
    pub label: String,
    pub detail: String,
    /// What stands at the row's end.
    pub state: String,
    /// For a row of which one is in effect: whether this is the one.
    pub chosen: Option<bool>,
}

/// What a [`Row`] is.
pub struct RowModel {
    pub key: Seq<char>,
    pub label: Seq<char>,
    pub detail: Seq<char>,
    pub state: Seq<char>,
    pub chosen: Option<bool>,
}

impl DeepView for Row {
    type V = RowModel;

    open spec fn deep_view(&self) -> RowModel {
        RowModel {
            key: self.key@,
            label: self.label@,
            detail: self.detail@,
            state: self.state@,
            chosen: self.chosen,
        }
    }
}

/// A recorded session. What was asked in it and where come cut to the columns there
/// are for them.
#[derive(Debug)]
pub struct SessionSummary {
    pub id: String,
    /// When it began, in RFC 3339.
    pub timestamp: String,
    pub cwd: String,
    pub messages: usize,
    pub preview: Option<String>,
}

/// The first `n` characters of a text.
pub open spec fn first_chars(text: Seq<char>, n: int) -> Seq<char> {
    if text.len() <= n {
        text
    } else {
        text.take(n)
    }
}

fn take_chars(text: &str, n: usize) -> (r: String)
    ensures
        r@ == first_chars(text@, n as int),
{
    let chars = crate::text::chars_of(text);
    if chars.len() <= n {
        text.to_owned()
    } else {
        let r = slice_of(&chars, 0, n);
        assert(r@ =~= text@.take(n as int));
        r
    }
}

/// A text with one character in another's place.
pub open spec fn with_char(text: Seq<char>, from: char, to: char) -> Seq<char> {
    Seq::new(
        text.len(),
        |i: int|
            if text[i] == from {
                to
            } else {
                text[i]
            },
    )
}

/// The row of a session: to the minute, and what was asked, since that is what
/// somebody looks for; keyed by the whole id.
pub open spec fn session_row_of(session: SessionSummary) -> RowModel {
    RowModel {
        key: session.id@,
        label: with_char(first_chars(session.timestamp@, 16), 'T', ' ') + "  "@ + (
        match session.preview {
            Some(text) => text@,
            None => "(nothing was asked)"@,
        }),
        detail: first_chars(session.id@, 12) + "  "@ + session.cwd@,
        state: decimal_of(session.messages as nat) + " msg"@,
        chosen: None,
    }
}

/// The row of a recorded session in the picker.
pub fn session_row(session: &SessionSummary) -> (r: Row)
    ensures
        r.deep_view() == session_row_of(*session),
{
    let mut label = replace_char(&take_chars(&session.timestamp, 16), 'T', ' ');
    assert(label@ =~= with_char(first_chars(session.timestamp@, 16), 'T', ' '));
    label.push_str("  ");
    match &session.preview {
        Some(text) => {
            label.push_str(text);
        },
        None => {
            label.push_str("(nothing was asked)");
        },
    }
    let mut detail = take_chars(&session.id, 12);
    detail.push_str("  ");
    detail.push_str(&session.cwd);
    let mut state = decimal(session.messages as u64);
    state.push_str(" msg");
    Row { key: session.id.clone(), label, detail, state, chosen: None }
}

/// What a model reference resolved to.
#[derive(Debug)]
pub enum ModelLine {
    /// A model that was asked for.
    Resolved { reference: String, model_id: String, api: String },
    /// One that was asked for and cannot be had.
    Failed { reference: String, error: String },
    /// The default.
    Default { reference: String },
    /// There is none.
    Nothing,
}

/// How the model stands in the report.
pub open spec fn model_line_text(line: ModelLine) -> Seq<char> {
    match line {
        ModelLine::Resolved { reference, model_id, api } => "model         "@ + reference@ + "  ("@
            + model_id@ + ", "@ + api@ + ")\n"@,
        ModelLine::Failed { reference, error } => "model         "@ + reference@ + "  — "@ + error@
            + "\n"@,
        ModelLine::Default { reference } => "model         "@ + reference@ + " (default)\n"@,
        ModelLine::Nothing => "model         <none configured>\n"@,
    }
}

/// How the faster model stands in the report: a typo in it would otherwise only show
/// when a turn needs it.
pub open spec fn faster_line_text(line: Option<Result<String, (String, String)>>) -> Seq<char> {
    match line {
        None => Seq::empty(),
        Some(Ok(reference)) => "faster        "@ + reference@ + " (compaction)\n"@,
        Some(Err((reference, error))) => "faster        "@ + reference@ + "  — "@ + error@ + "\n"@,
    }
}

/// The carve-outs of a root.
pub open spec fn carved_text(subpaths: Seq<Seq<char>>) -> Seq<char>
    decreases subpaths.len(),
{
    if subpaths.len() == 0 {
        Seq::empty()
    } else {
        carved_text(subpaths.drop_last()) + "    read-only  "@ + subpaths.last() + "\n"@
    }
}

/// The writable roots, each with what stays read-only below it.
pub open spec fn roots_text(roots: Seq<RootModel>) -> Seq<char>
    decreases roots.len(),
{
    if roots.len() == 0 {
        Seq::empty()
    } else {
        roots_text(roots.drop_last()) + "  writable     "@ + roots.last().path + "\n"@
            + carved_text(roots.last().read_only_subpaths)
    }
}

/// What the report says of containment.
pub open spec fn containment_text(sandbox: SandboxModel) -> Seq<char> {
    match sandbox {
        SandboxModel::DangerFullAccess => "  containment  NONE — commands run unconfined\n"@,
        SandboxModel::ExternalSandbox => "  containment  external (not double-wrapped)\n"@,
        SandboxModel::ReadOnly { network } => "  containment  read-only\n"@ + "  network      "@
            + network_text(network) + "\n"@,
        SandboxModel::WorkspaceWrite { writable_roots, network } => {
            "  containment  workspace-write\n"@ + "  network      "@ + network_text(network)
                + "\n"@ + roots_text(writable_roots)
        },
    }
}

/// What a server is: a declaration names a command or a url.
pub open spec fn server_target(config: ConfigModel) -> Seq<char> {
    match config.command {
        Some(command) => command,
        None => match config.url {
            Some(url) => url,
            None => Seq::empty(),
        },
    }
}

/// A server's line in the report.
pub open spec fn server_line(name: Seq<char>, config: ConfigModel) -> Seq<char> {
    "  "@ + pad_of(name, 26) + " "@ + server_target(config) + " "@ + join_of(config.args, " "@) + (
    if config.enabled {
        Seq::empty()
    } else {
        "  (disabled)"@
    }) + "\n"@
}

/// The servers' lines.
pub open spec fn server_lines(
    names: Seq<Seq<char>>,
    servers: Map<Seq<char>, ServerConfig>,
    n: int,
) -> Seq<char>
    decreases n,
{
    if n <= 0 {
        Seq::empty()
    } else {
        server_lines(names, servers, n - 1) + server_line(
            names[n - 1],
            servers[names[n - 1]].deep_view(),
        )
    }
}

/// Errors, one a line.
pub open spec fn error_lines(errors: Seq<McpErrorModel>) -> Seq<char>
    decreases errors.len(),
{
    if errors.len() == 0 {
        Seq::empty()
    } else {
        error_lines(errors.drop_last()) + "  ! "@ + error_text(errors.last()) + "\n"@
    }
}

/// What the report says of servers.
pub open spec fn servers_text(servers: TextMap<ServerConfig>, errors: Seq<McpErrorModel>) -> Seq<
    char,
> {
    let none = if servers.keys_of().len() == 0 && errors.len() == 0 {
        "  <none configured>          .octane/mcp.json\n"@
    } else {
        Seq::empty()
    };
    none + server_lines(servers.keys_of(), servers@, servers.keys_of().len() as int) + error_lines(
        errors,
    )
}

/// What the report says of memory.
pub open spec fn memory_text() -> Seq<char> {
    "memory files searched, in load order\n  AGENTS.md\n  OCTANE.md\n  OCTANE.local.md\n"@
}

/// What a report is made of.
#[derive(Debug)]
pub struct Diagnosis<'a> {
    pub version: &'a str,
    pub workspace: &'a str,
    pub model: ModelLine,
    /// The faster model, or the reference that names none and why.
    pub faster: Option<Result<String, (String, String)>>,
    pub mode: PermissionMode,
    pub sandbox: &'a Sandbox,
    pub servers: &'a TextMap<ServerConfig>,
    pub errors: &'a Vec<McpError>,
}

/// The report on how a session would run.
pub open spec fn doctor_text(d: Diagnosis<'_>) -> Seq<char> {
    "octane "@ + d.version@ + "\n\n"@ + "workspace     "@ + d.workspace@ + "\n"@ + model_line_text(
        d.model,
    ) + faster_line_text(d.faster) + "mode          "@ + label_of(d.mode) + "\n\n"@ + "sandbox\n"@
        + containment_text(d.sandbox.deep_view()) + "\n"@ + "mcp servers\n"@ + servers_text(
        *d.servers,
        d.errors.deep_view(),
    ) + "\n"@ + memory_text()
}

fn write_model_line(line: &ModelLine) -> (r: String)
    ensures
        r@ == model_line_text(*line),
{
    match line {
        ModelLine::Resolved { reference, model_id, api } => {
            let mut r = "model         ".to_owned();
            r.push_str(reference);
            r.push_str("  (");
            r.push_str(model_id);
            r.push_str(", ");
            r.push_str(api);
            r.push_str(")\n");
            r
        },
        ModelLine::Failed { reference, error } => {
            let mut r = "model         ".to_owned();
            r.push_str(reference);
            r.push_str("  — ");
            r.push_str(error);
            r.push_str("\n");
            r
        },
        ModelLine::Default { reference } => {
            let mut r = "model         ".to_owned();
            r.push_str(reference);
            r.push_str(" (default)\n");
            r
        },
        ModelLine::Nothing => "model         <none configured>\n".to_owned(),
    }
}

fn write_faster_line(line: &Option<Result<String, (String, String)>>) -> (r: String)
    ensures
        r@ == faster_line_text(*line),
{
    match line {
        None => {
            let r = String::new();
            assert(r@ =~= Seq::<char>::empty());
            r
        },
        Some(Ok(reference)) => {
            let mut r = "faster        ".to_owned();
            r.push_str(reference);
            r.push_str(" (compaction)\n");
            r
        },
        Some(Err((reference, error))) => {
            let mut r = "faster        ".to_owned();
            r.push_str(reference);
            r.push_str("  — ");
            r.push_str(error);
            r.push_str("\n");
            r
        },
    }
}

fn write_carved(subpaths: &Vec<String>) -> (r: String)
    ensures
        r@ == carved_text(subpaths.deep_view()),
{
    let ghost all = subpaths.deep_view();
    let mut out = String::new();
    let mut i: usize = 0;
    while i < subpaths.len()
        invariant
            i <= subpaths@.len(),
            all == subpaths.deep_view(),
            out@ == carved_text(all.take(i as int)),
        decreases subpaths@.len() - i,
    {
        assert(all.take(i + 1).drop_last() =~= all.take(i as int));
        assert(all.take(i + 1).last() == subpaths@[i as int]@);
        out.push_str("    read-only  ");
        out.push_str(&subpaths[i]);
        out.push_str("\n");
        i += 1;
    }
    assert(all.take(i as int) =~= all);
    out
}

fn write_roots(roots: &Vec<WritableRoot>) -> (r: String)
    ensures
        r@ == roots_text(roots.deep_view()),
{
    let ghost all = roots.deep_view();
    let mut out = String::new();
    let mut i: usize = 0;
    while i < roots.len()
        invariant
            i <= roots@.len(),
            all == roots.deep_view(),
            out@ == roots_text(all.take(i as int)),
        decreases roots@.len() - i,
    {
        assert(all.take(i + 1).drop_last() =~= all.take(i as int));
        assert(all.take(i + 1).last() == roots@[i as int].deep_view());
        out.push_str("  writable     ");
        out.push_str(&roots[i].path);
        out.push_str("\n");
        out.push_str(&write_carved(&roots[i].read_only_subpaths));
        i += 1;
    }
    assert(all.take(i as int) =~= all);
    out
}

fn write_containment(sandbox: &Sandbox) -> (r: String)
    ensures
        r@ == containment_text(sandbox.deep_view()),
{
    match sandbox {
        Sandbox::DangerFullAccess => "  containment  NONE — commands run unconfined\n".to_owned(),
        Sandbox::ExternalSandbox => "  containment  external (not double-wrapped)\n".to_owned(),
        Sandbox::ReadOnly { network } => {
            let mut r = "  containment  read-only\n".to_owned();
            r.push_str("  network      ");
            r.push_str(network_name(*network));
            r.push_str("\n");
            r
        },
        Sandbox::WorkspaceWrite { writable_roots, network } => {
            let mut r = "  containment  workspace-write\n".to_owned();
            r.push_str("  network      ");
            r.push_str(network_name(*network));
            r.push_str("\n");
            r.push_str(&write_roots(writable_roots));
            r
        },
    }
}

fn write_server(name: &str, config: &ServerConfig) -> (r: String)
    ensures
        r@ == server_line(name@, config.deep_view()),
{
    let mut r = "  ".to_owned();
    r.push_str(&pad(name, 26));
    r.push_str(" ");
    if let Some(command) = &config.command {
        r.push_str(command);
    } else if let Some(url) = &config.url {
        r.push_str(url);
    }
    assert(r@ =~= "  "@ + pad_of(name@, 26) + " "@ + server_target(config.deep_view()));
    r.push_str(" ");
    r.push_str(&join(&config.args, " "));
    let ghost before = r@;
    if !config.enabled {
        r.push_str("  (disabled)");
    } else {
        assert(before + Seq::<char>::empty() =~= before);
    }
    r.push_str("\n");
    r
}

fn write_errors(errors: &Vec<McpError>) -> (r: String)
    ensures
        r@ == error_lines(errors.deep_view()),
{
    let ghost all = errors.deep_view();
    let mut out = String::new();
    let mut i: usize = 0;
    while i < errors.len()
        invariant
            i <= errors@.len(),
            all == errors.deep_view(),
            out@ == error_lines(all.take(i as int)),
        decreases errors@.len() - i,
    {
        assert(all.take(i + 1).drop_last() =~= all.take(i as int));
        assert(all.take(i + 1).last() == errors@[i as int].deep_view());
        out.push_str("  ! ");
        out.push_str(&errors[i].to_string());
        out.push_str("\n");
        i += 1;
    }
    assert(all.take(i as int) =~= all);
    out
}

fn write_servers(servers: &TextMap<ServerConfig>, errors: &Vec<McpError>) -> (r: String)
    ensures
        r@ == servers_text(*servers, errors.deep_view()),
{
    let ghost names = servers.keys_of();
    let mut out = String::new();
    let n: usize = servers.len();
    assert(errors.deep_view().len() == errors@.len());
    if n == 0 && errors.len() == 0 {
        out.push_str("  <none configured>          .octane/mcp.json\n");
    }
    let ghost none = if names.len() == 0 && errors.deep_view().len() == 0 {
        "  <none configured>          .octane/mcp.json\n"@
    } else {
        Seq::<char>::empty()
    };
    assert(out@ =~= none);
    let mut i: usize = 0;
    assert(out@ =~= none + server_lines(names, servers@, 0));
    while i < n
        invariant
            i <= n == names.len(),
            names == servers.keys_of(),
            out@ == none + server_lines(names, servers@, i as int),
        decreases n - i,
    {
        let ghost before = out@;
        let (name, config) = servers.at(i);
        out.push_str(&write_server(name, config));
        assert(out@ =~= none + server_lines(names, servers@, i + 1));
        i += 1;
    }
    out.push_str(&write_errors(errors));
    out
}

/// The report on how a session would run: "what can it write to?" should be
/// answerable without starting one.
pub fn doctor(d: &Diagnosis<'_>) -> (r: String)
    ensures
        r@ == doctor_text(*d),
{
    let mut out = "octane ".to_owned();
    out.push_str(d.version);
    out.push_str("\n\n");
    out.push_str("workspace     ");
    out.push_str(d.workspace);
    out.push_str("\n");
    out.push_str(&write_model_line(&d.model));
    out.push_str(&write_faster_line(&d.faster));
    out.push_str("mode          ");
    out.push_str(d.mode.label());
    out.push_str("\n\n");
    out.push_str("sandbox\n");
    out.push_str(&write_containment(d.sandbox));
    out.push_str("\n");
    out.push_str("mcp servers\n");
    out.push_str(&write_servers(d.servers, d.errors));
    out.push_str("\n");
    out.push_str(
        "memory files searched, in load order\n  AGENTS.md\n  OCTANE.md\n  OCTANE.local.md\n",
    );
    out
}

} // verus!
