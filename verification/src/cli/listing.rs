//! What the client lists: models, servers, agents, settings, tools, usage.
//!
//! A listing stands in a transcript that renders markdown, so its rows are indented
//! and never begin with a marker.

use vstd::prelude::*;

use crate::config::agent::{scope_label, AgentDefinition, AgentMode, AgentModel};
use crate::mcp::config::{ConfigModel, ServerConfig};
use crate::order::{key_fn, sort, sorted_by_key, Keyed};
use crate::permission::mode::label_of;
use crate::permission::PermissionMode;
use crate::text::{
    begins, byte_len, bytes_of, chars_of, decimal, decimal_of, find_from, find_of, lines, lines_of,
    pad, pad_beyond, pad_of, same, slice_of, strip_prefix, trim, trim_of,
};
use crate::text_map::TextMap;

verus! {

/// What `/help` shows.
pub const HELP: &'static str = "input\n    /               commands, with completion\n                    built in, plus .octane/commands/*.md and skills\n    @path           attach a file, with fuzzy completion\n    !command        run a shell command\n    tab             accept a completion\n    shift+enter     newline (the box grows)\n    alt+enter       newline, on terminals without shift+enter\n    \\ then enter    newline, anywhere\n\n  editing\n    alt/ctrl+←/→    move by word\n    ctrl+w          delete the word before the caret\n    alt+d           delete the word after it\n    ctrl+u          kill to the start of the line\n    ctrl+k          kill to the end of it\n    ctrl+y          put the last kill back\n    ctrl+z          undo          ctrl+shift+z  redo\n    up/down         earlier prompts, from the first line\n\n  transcript\n    pageup/pagedn   scroll\n    shift+up/down   scroll a little\n    ctrl+home/end   jump to top or bottom\n    mouse wheel     scroll\n\n  session\n    shift+tab       cycle permission mode\n    esc             interrupt while working\n    ctrl+c          exit";

/// A provider file to start from.
pub const EXAMPLE_PROVIDER: &'static str = "{\n  \"api\": \"openai-completion\",\n  \"baseUrl\": \"https://openrouter.ai/api/v1\",\n  \"auth\": { \"type\": \"apiKey\", \"value\": \"${OPENROUTER_API_KEY}\" },\n  \"defaults\": { \"primary\": \"sonnet\", \"faster\": \"haiku\" },\n  \"models\": {\n    \"sonnet\": { \"id\": \"anthropic/sonnet-4.5\", \"contextWindow\": 200000 },\n    \"haiku\":  { \"id\": \"anthropic/haiku-4.5\" }\n  }\n}\n";

/// What went wrong, one a line, with a blank line behind.
pub open spec fn errors_block(errors: Seq<Seq<char>>) -> Seq<char> {
    if errors.len() == 0 {
        Seq::empty()
    } else {
        errors_text(errors) + "\n"@
    }
}

/// What went wrong, one a line.
pub open spec fn errors_text(errors: Seq<Seq<char>>) -> Seq<char>
    decreases errors.len(),
{
    if errors.len() == 0 {
        Seq::empty()
    } else {
        errors_text(errors.drop_last()) + "  ! "@ + errors.last() + "\n"@
    }
}

fn write_errors(errors: &Vec<String>) -> (r: String)
    ensures
        r@ == errors_block(errors.deep_view()),
{
    let ghost all = errors.deep_view();
    let mut out = String::new();
    let mut i: usize = 0;
    assert(out@ =~= Seq::<char>::empty());
    assert(all.len() == errors@.len());
    while i < errors.len()
        invariant
            i <= errors@.len(),
            all == errors.deep_view(),
            out@ == errors_text(all.take(i as int)),
        decreases errors@.len() - i,
    {
        assert(all.take(i + 1).drop_last() =~= all.take(i as int));
        assert(all.take(i + 1).last() == errors@[i as int]@);
        out.push_str("  ! ");
        out.push_str(&errors[i]);
        out.push_str("\n");
        i += 1;
    }
    assert(all.take(i as int) =~= all);
    if errors.len() > 0 {
        out.push_str("\n");
    }
    out
}

/// A configured model.
#[derive(Debug)]
pub struct ModelRow {
    pub provider: String,
    /// What `--model` takes.
    pub reference: String,
    pub display_name: String,
    pub context_window: u64,
    pub api: String,
}

/// What a [`ModelRow`] is.
pub struct ModelRowModel {
    pub provider: Seq<char>,
    pub reference: Seq<char>,
    pub display_name: Seq<char>,
    pub context_window: u64,
    pub api: Seq<char>,
}

impl DeepView for ModelRow {
    type V = ModelRowModel;

    open spec fn deep_view(&self) -> ModelRowModel {
        ModelRowModel {
            provider: self.provider@,
            reference: self.reference@,
            display_name: self.display_name@,
            context_window: self.context_window,
            api: self.api@,
        }
    }
}

/// The providers that cannot be used, each with why.
pub open spec fn unavailable_text(unavailable: Seq<(Seq<char>, Seq<char>)>) -> Seq<char>
    decreases unavailable.len(),
{
    if unavailable.len() == 0 {
        Seq::empty()
    } else {
        unavailable_text(unavailable.drop_last()) + "  "@ + pad_of(unavailable.last().0, 28) + " "@
            + unavailable.last().1 + "\n"@
    }
}

/// The models, a heading wherever the provider changes.
pub open spec fn model_rows(models: Seq<ModelRowModel>) -> Seq<char>
    decreases models.len(),
{
    if models.len() == 0 {
        Seq::empty()
    } else {
        let model = models.last();
        let last_provider = if models.len() == 1 {
            Seq::empty()
        } else {
            models[models.len() - 2].provider
        };
        model_rows(models.drop_last()) + (if model.provider != last_provider {
            "\n"@ + model.provider + "\n"@
        } else {
            Seq::empty()
        }) + "  "@ + pad_of(model.reference, 28) + " "@ + pad_of(model.display_name, 28) + " "@
            + decimal_of((model.context_window / 1000) as nat) + "k ctx  "@ + model.api + "\n"@
    }
}

/// What is said where no provider is configured.
pub open spec fn no_providers_text() -> Seq<char> {
    "No providers are configured.\n\nSet an API key (ANTHROPIC_API_KEY, OPENAI_API_KEY, GEMINI_API_KEY),\nor drop a provider file in .octane/providers/<name>.json:\n\n"@
        + EXAMPLE_PROVIDER@
}

/// The models, and the providers that cannot be used.
pub open spec fn models_text(
    errors: Seq<Seq<char>>,
    unavailable: Seq<(Seq<char>, Seq<char>)>,
    models: Seq<ModelRowModel>,
) -> Seq<char> {
    let missing = if unavailable.len() == 0 {
        Seq::empty()
    } else {
        "not available\n"@ + unavailable_text(unavailable) + "\n"@
    };
    errors_block(errors) + missing + (if models.len() == 0 && unavailable.len() == 0 {
        no_providers_text()
    } else {
        model_rows(models)
    })
}

fn write_unavailable(unavailable: &Vec<(String, String)>) -> (r: String)
    ensures
        r@ == unavailable_text(unavailable.deep_view()),
{
    let ghost all = unavailable.deep_view();
    let mut out = String::new();
    let mut i: usize = 0;
    while i < unavailable.len()
        invariant
            i <= unavailable@.len(),
            all == unavailable.deep_view(),
            out@ == unavailable_text(all.take(i as int)),
        decreases unavailable@.len() - i,
    {
        assert(all.take(i + 1).drop_last() =~= all.take(i as int));
        assert(all.take(i + 1).last() == unavailable@[i as int].deep_view());
        out.push_str("  ");
        out.push_str(&pad(&unavailable[i].0, 28));
        out.push_str(" ");
        out.push_str(&unavailable[i].1);
        out.push_str("\n");
        i += 1;
    }
    assert(all.take(i as int) =~= all);
    out
}

fn write_models(models: &Vec<ModelRow>) -> (r: String)
    ensures
        r@ == model_rows(models.deep_view()),
{
    let ghost all = models.deep_view();
    let mut out = String::new();
    let mut i: usize = 0;
    let mut provider = String::new();
    assert(provider@ =~= Seq::<char>::empty());
    while i < models.len()
        invariant
            i <= models@.len(),
            all == models.deep_view(),
            provider@ == (if i == 0 {
                Seq::empty()
            } else {
                all[i - 1].provider
            }),
            out@ == model_rows(all.take(i as int)),
        decreases models@.len() - i,
    {
        let model = &models[i];
        let ghost before = out@;
        let ghost next = all.take(i + 1);
        assert(next.drop_last() =~= all.take(i as int));
        assert(next.last() == model.deep_view());
        if i > 0 {
            assert(next[next.len() - 2] == all[i - 1]);
        }
        if !same(&model.provider, &provider) {
            provider = model.provider.clone();
            out.push_str("\n");
            out.push_str(&provider);
            out.push_str("\n");
        }
        assert(out@ =~= before + (if model.provider@ != (if i == 0 {
            Seq::empty()
        } else {
            all[i - 1].provider
        }) {
            "\n"@ + model.provider@ + "\n"@
        } else {
            Seq::empty()
        }));
        out.push_str("  ");
        out.push_str(&pad(&model.reference, 28));
        out.push_str(" ");
        out.push_str(&pad(&model.display_name, 28));
        out.push_str(" ");
        out.push_str(&decimal(model.context_window / 1000));
        out.push_str("k ctx  ");
        out.push_str(&model.api);
        out.push_str("\n");
        i += 1;
    }
    assert(all.take(i as int) =~= all);
    out
}

/// Lists the models. A provider that cannot be used is listed with why: one that
/// silently vanishes costs an hour.
pub fn render_models(
    errors: &Vec<String>,
    unavailable: &Vec<(String, String)>,
    models: &Vec<ModelRow>,
) -> (r: String)
    ensures
        r@ == models_text(errors.deep_view(), unavailable.deep_view(), models.deep_view()),
{
    let mut out = write_errors(errors);
    let ghost first = out@;
    assert(unavailable.deep_view().len() == unavailable@.len());
    assert(models.deep_view().len() == models@.len());
    let ghost missing = if unavailable.deep_view().len() == 0 {
        Seq::<char>::empty()
    } else {
        "not available\n"@ + unavailable_text(unavailable.deep_view()) + "\n"@
    };
    if unavailable.len() > 0 {
        out.push_str("not available\n");
        out.push_str(&write_unavailable(unavailable));
        out.push_str("\n");
    }
    assert(out@ =~= first + missing);
    if models.len() == 0 && unavailable.len() == 0 {
        out.push_str(
            "No providers are configured.\n\nSet an API key (ANTHROPIC_API_KEY, OPENAI_API_KEY, GEMINI_API_KEY),\nor drop a provider file in .octane/providers/<name>.json:\n\n",
        );
        out.push_str(EXAMPLE_PROVIDER);
        assert(out@ =~= first + missing + no_providers_text());
        return out;
    }
    out.push_str(&write_models(models));
    out
}

/// The name of the tools of a server, without what they all begin with.
pub open spec fn tools_of(tools: Seq<Seq<char>>, prefix: Seq<char>) -> Seq<Seq<char>>
    decreases tools.len(),
{
    if tools.len() == 0 {
        Seq::empty()
    } else if begins(tools.last(), prefix) {
        tools_of(tools.drop_last(), prefix).push(tools.last().skip(prefix.len() as int))
    } else {
        tools_of(tools.drop_last(), prefix)
    }
}

fn server_tools(tools: &Vec<String>, prefix: &str) -> (r: Vec<String>)
    ensures
        r.deep_view() == tools_of(tools.deep_view(), prefix@),
{
    let ghost all = tools.deep_view();
    let mut r: Vec<String> = Vec::new();
    let mut i: usize = 0;
    assert(r.deep_view() =~= Seq::<Seq<char>>::empty());
    while i < tools.len()
        invariant
            i <= tools@.len(),
            all == tools.deep_view(),
            r.deep_view() == tools_of(all.take(i as int), prefix@),
        decreases tools@.len() - i,
    {
        let ghost before = r.deep_view();
        assert(all.take(i + 1).drop_last() =~= all.take(i as int));
        assert(all.take(i + 1).last() == tools@[i as int]@);
        if let Some(name) = strip_prefix(&tools[i], prefix) {
            r.push(name);
            assert(r.deep_view() =~= before.push(name@));
        }
        i += 1;
    }
    assert(all.take(i as int) =~= all);
    r
}

/// How a server stands.
pub open spec fn server_state(enabled: bool, tools: nat) -> Seq<char> {
    if !enabled {
        "disabled"@
    } else if tools == 0 {
        "no tools"@
    } else if tools == 1 {
        "1 tool"@
    } else {
        decimal_of(tools) + " tools"@
    }
}

/// Names, one a line, below what they belong to.
pub open spec fn names_text(names: Seq<Seq<char>>) -> Seq<char>
    decreases names.len(),
{
    if names.len() == 0 {
        Seq::empty()
    } else {
        names_text(names.drop_last()) + "      "@ + names.last() + "\n"@
    }
}

/// A server with its tools.
pub open spec fn server_text(name: Seq<char>, config: ConfigModel, tools: Seq<Seq<char>>) -> Seq<
    char,
> {
    let own = tools_of(tools, "mcp__"@ + name + "__"@);
    "  "@ + pad_of(name, 16) + " "@ + pad_of(server_state(config.enabled, own.len()), 10) + " "@
        + crate::cli::startup::server_target(config) + "\n"@ + names_text(own)
}

/// The first `n` servers with their tools.
pub open spec fn servers_list(
    names: Seq<Seq<char>>,
    servers: Map<Seq<char>, ServerConfig>,
    tools: Seq<Seq<char>>,
    n: int,
) -> Seq<char>
    decreases n,
{
    if n <= 0 {
        Seq::empty()
    } else {
        servers_list(names, servers, tools, n - 1) + server_text(
            names[n - 1],
            servers[names[n - 1]].deep_view(),
            tools,
        )
    }
}

/// What is connected, and what it brought.
pub open spec fn mcp_text(
    servers: TextMap<ServerConfig>,
    errors: Seq<Seq<char>>,
    tools: Seq<Seq<char>>,
) -> Seq<char> {
    errors_block(errors) + (if servers.keys_of().len() == 0 {
        "No MCP servers are configured.\n\n  Declare one in .octane/mcp.json\n"@
    } else {
        servers_list(servers.keys_of(), servers@, tools, servers.keys_of().len() as int)
    })
}

fn write_names(names: &Vec<String>) -> (r: String)
    ensures
        r@ == names_text(names.deep_view()),
{
    let ghost all = names.deep_view();
    let mut out = String::new();
    let mut i: usize = 0;
    while i < names.len()
        invariant
            i <= names@.len(),
            all == names.deep_view(),
            out@ == names_text(all.take(i as int)),
        decreases names@.len() - i,
    {
        assert(all.take(i + 1).drop_last() =~= all.take(i as int));
        assert(all.take(i + 1).last() == names@[i as int]@);
        out.push_str("      ");
        out.push_str(&names[i]);
        out.push_str("\n");
        i += 1;
    }
    assert(all.take(i as int) =~= all);
    out
}

fn write_server(name: &str, config: &ServerConfig, tools: &Vec<String>) -> (r: String)
    ensures
        r@ == server_text(name@, config.deep_view(), tools.deep_view()),
{
    let mut prefix = "mcp__".to_owned();
    prefix.push_str(name);
    prefix.push_str("__");
    let own = server_tools(tools, &prefix);
    assert(own.deep_view().len() == own@.len());
    let state = if !config.enabled {
        "disabled".to_owned()
    } else if own.len() == 0 {
        "no tools".to_owned()
    } else if own.len() == 1 {
        "1 tool".to_owned()
    } else {
        let mut state = decimal(own.len() as u64);
        state.push_str(" tools");
        state
    };
    let mut r = "  ".to_owned();
    r.push_str(&pad(name, 16));
    r.push_str(" ");
    r.push_str(&pad(&state, 10));
    r.push_str(" ");
    let ghost before = r@;
    if let Some(command) = &config.command {
        r.push_str(command);
    } else if let Some(url) = &config.url {
        r.push_str(url);
    }
    assert(r@ =~= before + crate::cli::startup::server_target(config.deep_view()));
    r.push_str("\n");
    r.push_str(&write_names(&own));
    r
}

/// Lists the servers, each with the tools it brought. One that failed is listed with
/// why rather than left out.
pub fn render_mcp(
    servers: &TextMap<ServerConfig>,
    errors: &Vec<String>,
    tools: &Vec<String>,
) -> (r: String)
    ensures
        r@ == mcp_text(*servers, errors.deep_view(), tools.deep_view()),
{
    let ghost names = servers.keys_of();
    let mut out = write_errors(errors);
    let ghost first = out@;
    let n: usize = servers.len();
    if n == 0 {
        out.push_str("No MCP servers are configured.\n\n  Declare one in .octane/mcp.json\n");
        return out;
    }
    let mut i: usize = 0;
    assert(first + servers_list(names, servers@, tools.deep_view(), 0) =~= first);
    while i < n
        invariant
            i <= n == names.len(),
            names == servers.keys_of(),
            out@ == first + servers_list(names, servers@, tools.deep_view(), i as int),
        decreases n - i,
    {
        let (name, config) = servers.at(i);
        out.push_str(&write_server(name, config, tools));
        assert(out@ =~= first + servers_list(names, servers@, tools.deep_view(), i + 1));
        i += 1;
    }
    out
}

/// The first sentence of a description: the rest says when to use the agent, which is
/// for the model.
pub open spec fn first_sentence(description: Seq<char>) -> Seq<char> {
    let n = find_of(description, '.');
    trim_of(
        if n < description.len() {
            description.take(n + 1)
        } else {
            description
        },
    )
}

fn summarize(description: &str) -> (r: String)
    ensures
        r@ == first_sentence(description@),
{
    let chars = chars_of(description);
    let n = find_from(&chars, '.', 0);
    assert(chars@.skip(0) =~= description@);
    if n < chars.len() {
        let sentence = slice_of(&chars, 0, n + 1);
        assert(sentence@ =~= description@.take(n + 1));
        trim(&sentence)
    } else {
        trim(description)
    }
}

/// An agent's line.
pub open spec fn agent_line(agent: AgentModel) -> Seq<char> {
    "  "@ + pad_of(agent.name, 10) + " "@ + pad_of(scope_label(agent.scope), 10) + " "@
        + first_sentence(agent.frontmatter.description) + "\n"@
}

/// The lines of agents.
pub open spec fn agent_lines(agents: Seq<AgentModel>) -> Seq<char>
    decreases agents.len(),
{
    if agents.len() == 0 {
        Seq::empty()
    } else {
        agent_lines(agents.drop_last()) + agent_line(agents.last())
    }
}

/// The agents of a mode.
pub open spec fn of_mode(agents: Seq<AgentModel>, mode: AgentMode) -> Seq<AgentModel>
    decreases agents.len(),
{
    if agents.len() == 0 {
        agents
    } else if agents.last().frontmatter.mode == mode {
        of_mode(agents.drop_last(), mode).push(agents.last())
    } else {
        of_mode(agents.drop_last(), mode)
    }
}

/// The name by which agents are put in order.
pub open spec fn agent_key() -> spec_fn(AgentModel) -> Seq<char> {
    |agent: AgentModel| agent.name
}

/// The agents of a mode under a heading, by name; nothing where there are none.
pub open spec fn agent_section(agents: Seq<AgentModel>, mode: AgentMode, heading: Seq<char>) -> Seq<
    char,
> {
    let section = sorted_by_key(of_mode(agents, mode), agent_key());
    if section.len() == 0 {
        Seq::empty()
    } else {
        "\n"@ + heading + "\n"@ + agent_lines(section)
    }
}

/// What can be delegated to, and where each came from.
pub open spec fn agents_text(agents: Seq<AgentModel>, errors: Seq<Seq<char>>) -> Seq<char> {
    errors_block(errors) + agent_section(agents, AgentMode::Primary, "primary"@) + agent_section(
        agents,
        AgentMode::Subagent,
        "subagents"@,
    ) + "\n  Define your own in .octane/agents/<name>.md\n"@
}

/// An agent by its name, for sorting.
pub struct NamedAgent {
    pub agent: AgentDefinition,
}

impl Keyed for NamedAgent {
    open spec fn key_of(&self) -> Seq<char> {
        self.agent.name@
    }

    fn key(&self) -> (r: &str) {
        &self.agent.name
    }
}

/// What the agents of a list are.
pub open spec fn named_models(agents: Seq<NamedAgent>) -> Seq<AgentModel> {
    Seq::new(agents.len(), |i: int| agents[i].agent.deep_view())
}

fn pick_mode(agents: &Vec<AgentDefinition>, mode: AgentMode) -> (r: Vec<NamedAgent>)
    ensures
        named_models(r@) == of_mode(agents.deep_view(), mode),
{
    let ghost all = agents.deep_view();
    let mut r: Vec<NamedAgent> = Vec::new();
    let mut i: usize = 0;
    assert(named_models(r@) =~= Seq::<AgentModel>::empty());
    while i < agents.len()
        invariant
            i <= agents@.len(),
            all == agents.deep_view(),
            named_models(r@) == of_mode(all.take(i as int), mode),
        decreases agents@.len() - i,
    {
        let ghost before = named_models(r@);
        assert(all.take(i + 1).drop_last() =~= all.take(i as int));
        assert(all.take(i + 1).last() == agents@[i as int].deep_view());
        if agents[i].frontmatter.mode == mode {
            let copy = agents[i].clone();
            r.push(NamedAgent { agent: copy });
            assert(named_models(r@) =~= before.push(copy.deep_view()));
        }
        i += 1;
    }
    assert(all.take(i as int) =~= all);
    r
}

fn write_agents(agents: &Vec<NamedAgent>) -> (r: String)
    ensures
        r@ == agent_lines(named_models(agents@)),
{
    let ghost all = named_models(agents@);
    let mut out = String::new();
    let mut i: usize = 0;
    while i < agents.len()
        invariant
            i <= agents@.len(),
            all == named_models(agents@),
            out@ == agent_lines(all.take(i as int)),
        decreases agents@.len() - i,
    {
        let agent = &agents[i].agent;
        let ghost before = out@;
        assert(all.take(i + 1).drop_last() =~= all.take(i as int));
        assert(all.take(i + 1).last() == agent.deep_view());
        out.push_str("  ");
        out.push_str(&pad(&agent.name, 10));
        out.push_str(" ");
        out.push_str(&pad(agent.scope.label(), 10));
        out.push_str(" ");
        out.push_str(&summarize(&agent.frontmatter.description));
        out.push_str("\n");
        assert(out@ =~= before + agent_line(agent.deep_view()));
        i += 1;
    }
    assert(all.take(i as int) =~= all);
    out
}

fn write_section(agents: &Vec<AgentDefinition>, mode: AgentMode, heading: &str) -> (r: String)
    ensures
        r@ == agent_section(agents.deep_view(), mode, heading@),
{
    let picked = pick_mode(agents, mode);
    let ghost found = picked@;
    let sorted = sort(picked);
    proof {
        crate::order::lemma_sorted_map(
            found,
            |a: NamedAgent| a.agent.deep_view(),
            key_fn::<NamedAgent>(),
            agent_key(),
        );
        assert(named_models(found) =~= found.map_values(|a: NamedAgent| a.agent.deep_view()));
        assert(named_models(sorted@) =~= sorted@.map_values(
            |a: NamedAgent| a.agent.deep_view(),
        ));
    }
    assert(named_models(sorted@) == sorted_by_key(of_mode(agents.deep_view(), mode), agent_key()));
    assert(named_models(sorted@).len() == sorted@.len());
    let mut out = String::new();
    assert(out@ =~= Seq::<char>::empty());
    if sorted.len() > 0 {
        out.push_str("\n");
        out.push_str(heading);
        out.push_str("\n");
        out.push_str(&write_agents(&sorted));
    }
    out
}

/// Lists the agents, the primary ones first and each by name. Hidden ones are not
/// shown.
pub fn render_agents(agents: &Vec<AgentDefinition>, errors: &Vec<String>) -> (r: String)
    ensures
        r@ == agents_text(agents.deep_view(), errors.deep_view()),
{
    let mut out = write_errors(errors);
    out.push_str(&write_section(agents, AgentMode::Primary, "primary"));
    out.push_str(&write_section(agents, AgentMode::Subagent, "subagents"));
    out.push_str("\n  Define your own in .octane/agents/<name>.md\n");
    out
}

/// Lines, each indented.
pub open spec fn indented(lines: Seq<Seq<char>>) -> Seq<char>
    decreases lines.len(),
{
    if lines.len() == 0 {
        Seq::empty()
    } else {
        indented(lines.drop_last()) + "  "@ + lines.last() + "\n"@
    }
}

/// The most characters any of some paths has.
pub open spec fn widest(paths: Seq<(Seq<char>, bool)>) -> nat
    decreases paths.len(),
{
    if paths.len() == 0 {
        0
    } else {
        let before = widest(paths.drop_last());
        if paths.last().0.len() > before {
            paths.last().0.len()
        } else {
            before
        }
    }
}

/// Files, and whether they are there.
pub open spec fn files_text(paths: Seq<(Seq<char>, bool)>, column: nat) -> Seq<char>
    decreases paths.len(),
{
    if paths.len() == 0 {
        Seq::empty()
    } else {
        files_text(paths.drop_last(), column) + "  "@ + pad_of(paths.last().0, column) + " "@ + (
        if paths.last().1 {
            "present"@
        } else {
            "absent"@
        }) + "\n"@
    }
}

/// What is configured, and where to change it.
pub open spec fn settings_text(
    errors: Seq<Seq<char>>,
    rendered: Seq<char>,
    paths: Seq<(Seq<char>, bool)>,
) -> Seq<char> {
    errors_block(errors) + (if trim_of(rendered).len() == 0 {
        "Nothing configured; every setting is at its default.\n"@
    } else {
        "Resolved settings\n\n"@ + indented(lines_of(rendered)) + "\n"@
    }) + "Files, later overriding earlier\n\n"@ + files_text(paths, widest(paths) + 2)
}

/// The files of a list.
pub open spec fn file_models(paths: Seq<(String, bool)>) -> Seq<(Seq<char>, bool)> {
    Seq::new(paths.len(), |i: int| (paths[i].0@, paths[i].1))
}

fn write_indented(all: &Vec<String>) -> (r: String)
    ensures
        r@ == indented(all.deep_view()),
{
    let ghost every = all.deep_view();
    let mut out = String::new();
    let mut i: usize = 0;
    while i < all.len()
        invariant
            i <= all@.len(),
            every == all.deep_view(),
            out@ == indented(every.take(i as int)),
        decreases all@.len() - i,
    {
        assert(every.take(i + 1).drop_last() =~= every.take(i as int));
        assert(every.take(i + 1).last() == all@[i as int]@);
        out.push_str("  ");
        out.push_str(&all[i]);
        out.push_str("\n");
        i += 1;
    }
    assert(every.take(i as int) =~= every);
    out
}

/// The character count of a text.
fn char_count(text: &str) -> (r: usize)
    ensures
        r == text@.len(),
{
    chars_of(text).len()
}

fn widest_path(paths: &Vec<(String, bool)>) -> (r: usize)
    ensures
        r == widest(file_models(paths@)),
{
    let ghost all = file_models(paths@);
    let mut r: usize = 0;
    let mut i: usize = 0;
    while i < paths.len()
        invariant
            i <= paths@.len(),
            all == file_models(paths@),
            r == widest(all.take(i as int)),
        decreases paths@.len() - i,
    {
        assert(all.take(i + 1).drop_last() =~= all.take(i as int));
        assert(all.take(i + 1).last() == (paths@[i as int].0@, paths@[i as int].1));
        let n = char_count(&paths[i].0);
        if n > r {
            r = n;
        }
        i += 1;
    }
    assert(all.take(i as int) =~= all);
    r
}

/// Lists the resolved settings, as they were written out, and the files they come
/// from, each with whether it is there.
pub fn render_settings(errors: &Vec<String>, rendered: &str, paths: &Vec<(String, bool)>) -> (r:
    String)
    ensures
        r@ == settings_text(errors.deep_view(), rendered@, file_models(paths@)),
{
    let ghost files = file_models(paths@);
    let mut out = write_errors(errors);
    let ghost first = out@;
    if trim(rendered).as_str().is_empty() {
        out.push_str("Nothing configured; every setting is at its default.\n");
    } else {
        out.push_str("Resolved settings\n\n");
        out.push_str(&write_indented(&lines(rendered)));
        out.push_str("\n");
    }
    assert(out@ =~= first + (if trim_of(rendered@).len() == 0 {
        "Nothing configured; every setting is at its default.\n"@
    } else {
        "Resolved settings\n\n"@ + indented(lines_of(rendered@)) + "\n"@
    }));
    out.push_str("Files, later overriding earlier\n\n");
    let ghost before = out@;
    let column: usize = widest_path(paths);
    let mut i: usize = 0;
    assert(before + files_text(files.take(0), (column + 2) as nat) =~= before);
    while i < paths.len()
        invariant
            i <= paths@.len(),
            files == file_models(paths@),
            column == widest(files),
            out@ == before + files_text(files.take(i as int), (column + 2) as nat),
        decreases paths@.len() - i,
    {
        assert(files.take(i + 1).drop_last() =~= files.take(i as int));
        assert(files.take(i + 1).last() == (paths@[i as int].0@, paths@[i as int].1));
        out.push_str("  ");
        out.push_str(&pad_beyond(&paths[i].0, column));
        out.push_str(" ");
        if paths[i].1 {
            out.push_str("present");
        } else {
            out.push_str("absent");
        }
        out.push_str("\n");
        assert(out@ =~= before + files_text(files.take(i + 1), (column + 2) as nat));
        i += 1;
    }
    assert(files.take(i as int) =~= files);
    out
}

/// A tool by name, and whether it may change anything.
pub open spec fn tool_models(tools: Seq<(String, bool)>) -> Seq<(Seq<char>, bool)> {
    file_models(tools)
}

/// The most bytes any tool's name has, but no less than four, and two more.
pub open spec fn tool_width(tools: Seq<(Seq<char>, bool)>) -> nat {
    longest(tools) + 2
}

/// The most bytes any of some names has, but no less than four.
pub open spec fn longest(tools: Seq<(Seq<char>, bool)>) -> nat
    decreases tools.len(),
{
    if tools.len() == 0 {
        4
    } else {
        let before = longest(tools.drop_last());
        if bytes_of(tools.last().0) > before {
            bytes_of(tools.last().0)
        } else {
            before
        }
    }
}

/// Whether a mode hides a tool: in plan mode what may change anything would only be
/// refused, and a refusal ends the turn.
pub open spec fn hidden_in(mode: PermissionMode, mutating: bool) -> bool {
    mode == PermissionMode::Plan && mutating
}

/// The lines of the tools that are hidden, or of those that are not.
pub open spec fn tool_lines(
    tools: Seq<(Seq<char>, bool)>,
    mode: PermissionMode,
    hidden: bool,
    width: nat,
) -> Seq<char>
    decreases tools.len(),
{
    if tools.len() == 0 {
        Seq::empty()
    } else {
        let before = tool_lines(tools.drop_last(), mode, hidden, width);
        if hidden_in(mode, tools.last().1) == hidden {
            before + "  "@ + pad_of(tools.last().0, width) + (if hidden {
                "mutating\n"@
            } else {
                "offered\n"@
            })
        } else {
            before
        }
    }
}

/// Whether a mode hides any of some tools.
pub open spec fn hides_any(tools: Seq<(Seq<char>, bool)>, mode: PermissionMode) -> bool {
    exists|i: int| 0 <= i < tools.len() && hidden_in(mode, (#[trigger] tools[i]).1)
}

/// What the model can call this turn.
pub open spec fn tools_text(tools: Seq<(Seq<char>, bool)>, mode: PermissionMode) -> Seq<char> {
    let width = tool_width(tools);
    "Tools offered this turn\n\n"@ + tool_lines(tools, mode, false, width) + (if hides_any(
        tools,
        mode,
    ) {
        "\nHidden by "@ + label_of(mode) + " mode, because a denial ends the turn\n\n"@
            + tool_lines(tools, mode, true, width)
    } else {
        Seq::empty()
    })
}

fn longest_name(tools: &Vec<(String, bool)>) -> (r: usize)
    ensures
        r == longest(tool_models(tools@)),
{
    let ghost all = tool_models(tools@);
    let mut r: usize = 4;
    let mut i: usize = 0;
    while i < tools.len()
        invariant
            i <= tools@.len(),
            all == tool_models(tools@),
            r == longest(all.take(i as int)),
        decreases tools@.len() - i,
    {
        assert(all.take(i + 1).drop_last() =~= all.take(i as int));
        assert(all.take(i + 1).last() == (tools@[i as int].0@, tools@[i as int].1));
        let n: usize = byte_len(&tools[i].0);
        if n > r {
            r = n;
        }
        i += 1;
    }
    assert(all.take(i as int) =~= all);
    r
}

fn write_tools(tools: &Vec<(String, bool)>, mode: PermissionMode, hidden: bool, width: usize) -> (r:
    (String, bool))
    ensures
        r.0@ == tool_lines(tool_models(tools@), mode, hidden, (width + 2) as nat),
        r.1 == exists|i: int|
            0 <= i < tools@.len() && hidden_in(mode, (#[trigger] tool_models(tools@)[i]).1),
{
    let ghost all = tool_models(tools@);
    let mut out = String::new();
    let mut any: bool = false;
    let mut i: usize = 0;
    while i < tools.len()
        invariant
            i <= tools@.len(),
            all == tool_models(tools@),
            out@ == tool_lines(all.take(i as int), mode, hidden, (width + 2) as nat),
            any ==> exists|k: int| 0 <= k < i && hidden_in(mode, (#[trigger] all[k]).1),
            !any ==> forall|k: int| 0 <= k < i ==> !hidden_in(mode, (#[trigger] all[k]).1),
        decreases tools@.len() - i,
    {
        assert(all.take(i + 1).drop_last() =~= all.take(i as int));
        assert(all.take(i + 1).last() == all[i as int]);
        assert(all[i as int] == (tools@[i as int].0@, tools@[i as int].1));
        let withheld: bool = mode == PermissionMode::Plan && tools[i].1;
        if withheld {
            any = true;
        }
        if withheld == hidden {
            out.push_str("  ");
            out.push_str(&pad_beyond(&tools[i].0, width));
            if hidden {
                out.push_str("mutating\n");
            } else {
                out.push_str("offered\n");
            }
        }
        i += 1;
    }
    assert(all.take(i as int) =~= all);
    (out, any)
}

/// Lists what the model can call this turn, and what the mode hides from it.
pub fn render_tools(tools: &Vec<(String, bool)>, mode: PermissionMode) -> (r: String)
    ensures
        r@ == tools_text(tool_models(tools@), mode),
{
    let ghost all = tool_models(tools@);
    let width: usize = longest_name(tools);
    let mut out = "Tools offered this turn\n\n".to_owned();
    let (offered, any) = write_tools(tools, mode, false, width);
    out.push_str(&offered);
    let ghost before = out@;
    if any {
        let (hidden, _) = write_tools(tools, mode, true, width);
        out.push_str("\nHidden by ");
        out.push_str(mode.label());
        out.push_str(" mode, because a denial ends the turn\n\n");
        out.push_str(&hidden);
        assert(hides_any(all, mode));
        assert(out@ =~= before + ("\nHidden by "@ + label_of(mode)
            + " mode, because a denial ends the turn\n\n"@ + tool_lines(
            all,
            mode,
            true,
            (width + 2) as nat,
        )));
    } else {
        assert(!hides_any(all, mode));
        assert(before + Seq::<char>::empty() =~= before);
    }
    out
}

/// What a session has used, each number as it is shown.
#[derive(Debug)]
pub struct Stats {
    pub model: String,
    pub calls: u32,
    pub input: String,
    pub cached: String,
    pub output: String,
    pub reasoning: String,
    pub used: String,
    pub window: String,
    pub used_percent: String,
    pub hit_rate: String,
    pub cost: String,
}

/// What a session has used.
pub open spec fn stats_text(s: Stats) -> Seq<char> {
    "Session\n\n  model            "@ + s.model@ + "\n  model calls      "@ + decimal_of(
        s.calls as nat,
    ) + "\n\nTokens\n\n  input            "@ + s.input@ + "\n  of which cached  "@ + s.cached@
        + "\n  output           "@ + s.output@ + "\n  reasoning        "@ + s.reasoning@
        + "\n\nContext\n\n  in use           "@ + s.used@ + " of "@ + s.window@ + " ("@
        + s.used_percent@ + "%)\n\nCache\n\n  hit rate         "@ + s.hit_rate@
        + "%\n  cost             $"@ + s.cost@
        + "\n\n  Delegated work is not counted: a subagent reports usage on\n  its own event stream, which this session never sees.\n"@
}

/// Lists what a session has used.
pub fn render_stats(s: &Stats) -> (r: String)
    ensures
        r@ == stats_text(*s),
{
    let mut out = "Session\n\n  model            ".to_owned();
    out.push_str(&s.model);
    out.push_str("\n  model calls      ");
    out.push_str(&decimal(s.calls as u64));
    out.push_str("\n\nTokens\n\n  input            ");
    out.push_str(&s.input);
    out.push_str("\n  of which cached  ");
    out.push_str(&s.cached);
    out.push_str("\n  output           ");
    out.push_str(&s.output);
    out.push_str("\n  reasoning        ");
    out.push_str(&s.reasoning);
    out.push_str("\n\nContext\n\n  in use           ");
    out.push_str(&s.used);
    out.push_str(" of ");
    out.push_str(&s.window);
    out.push_str(" (");
    out.push_str(&s.used_percent);
    out.push_str("%)\n\nCache\n\n  hit rate         ");
    out.push_str(&s.hit_rate);
    out.push_str("%\n  cost             $");
    out.push_str(&s.cost);
    out.push_str(
        "\n\n  Delegated work is not counted: a subagent reports usage on\n  its own event stream, which this session never sees.\n",
    );
    out
}

/// What a codebase search asks for.
pub open spec fn search_text(query: Seq<char>) -> Seq<char> {
    "Find everything relevant to this in the codebase, then explain it:\n\n"@ + query
        + "\n\nUse the `task` tool with the `research` agent, and launch several in one message so they run concurrently. Give each a different angle — by symbol name, by file or directory, by the concept described in prose, by tests that exercise it. A single search finds only what you already knew to look for; the useful misses are where something is named differently.\n\nThen synthesise. Report:\n- where the thing lives, as `path:line`\n- how the pieces relate, not a list of what each file contains\n- anything that looks like it should be involved but is not\n\nIf it is genuinely absent, say so plainly rather than reporting the nearest match as though it were the answer."@
}

/// The prompt that `/cs` stands for: searching several ways at once finds what is
/// named differently.
pub fn codebase_search_prompt(query: &str) -> (r: String)
    ensures
        r@ == search_text(query@),
{
    let mut r = "Find everything relevant to this in the codebase, then explain it:\n\n".to_owned();
    r.push_str(query);
    r.push_str("\n\nUse the `task` tool with the `research` agent, and launch several in one message so they run concurrently. Give each a different angle — by symbol name, by file or directory, by the concept described in prose, by tests that exercise it. A single search finds only what you already knew to look for; the useful misses are where something is named differently.\n\nThen synthesise. Report:\n- where the thing lives, as `path:line`\n- how the pieces relate, not a list of what each file contains\n- anything that looks like it should be involved but is not\n\nIf it is genuinely absent, say so plainly rather than reporting the nearest match as though it were the answer.");
    r
}

/// The lines of some tools.
pub open spec fn tool_rows(tools: Seq<(Seq<char>, bool)>, hidden: bool, width: nat) -> Seq<char>
    decreases tools.len(),
{
    if tools.len() == 0 {
        Seq::empty()
    } else {
        tool_rows(tools.drop_last(), hidden, width) + "  "@ + pad_of(tools.last().0, width) + (
        if hidden {
            "mutating\n"@
        } else {
            "offered\n"@
        })
    }
}

proof fn lemma_lines_are_rows(
    tools: Seq<(Seq<char>, bool)>,
    mode: PermissionMode,
    hidden: bool,
    width: nat,
)
    ensures
        tool_lines(tools, mode, hidden, width) == tool_rows(
            tools.filter(|tool: (Seq<char>, bool)| hidden_in(mode, tool.1) == hidden),
            hidden,
            width,
        ),
    decreases tools.len(),
{
    let kept = |tool: (Seq<char>, bool)| hidden_in(mode, tool.1) == hidden;
    reveal(Seq::filter);
    if tools.len() > 0 {
        lemma_lines_are_rows(tools.drop_last(), mode, hidden, width);
        let before = tools.drop_last().filter(kept);
        assert(tools.drop_last().filter(kept).push(tools.last()).drop_last() =~= before);
    }
}

/// Outside plan mode every tool is offered and nothing is hidden.
pub proof fn law_only_plan_hides_tools(tools: Seq<(Seq<char>, bool)>, mode: PermissionMode)
    requires
        mode != PermissionMode::Plan,
    ensures
        tools_text(tools, mode) == "Tools offered this turn\n\n"@ + tool_rows(
            tools,
            false,
            tool_width(tools),
        ),
{
    lemma_lines_are_rows(tools, mode, false, tool_width(tools));
    let kept = |tool: (Seq<char>, bool)| hidden_in(mode, tool.1) == false;
    lemma_all_kept(tools, kept);
    assert(!hides_any(tools, mode));
    assert(tools_text(tools, mode) =~= "Tools offered this turn\n\n"@ + tool_rows(
        tools,
        false,
        tool_width(tools),
    ));
}

proof fn lemma_all_kept<A>(list: Seq<A>, kept: spec_fn(A) -> bool)
    requires
        forall|i: int| 0 <= i < list.len() ==> kept(#[trigger] list[i]),
    ensures
        list.filter(kept) == list,
    decreases list.len(),
{
    reveal(Seq::filter);
    if list.len() > 0 {
        assert forall|i: int| 0 <= i < list.drop_last().len() implies kept(
            #[trigger] list.drop_last()[i],
        ) by {
            assert(kept(list[i]));
        }
        lemma_all_kept(list.drop_last(), kept);
        assert(list.drop_last().push(list.last()) =~= list);
    } else {
        assert(list.filter(kept) =~= list);
    }
}

/// A tool is either offered or hidden, never both: in plan mode the lines of the hidden
/// are those of the tools that may change something, and the lines of the offered those
/// of all the others.
pub proof fn law_plan_hides_what_mutates(tools: Seq<(Seq<char>, bool)>, width: nat)
    ensures
        tool_lines(tools, PermissionMode::Plan, false, width) == tool_rows(
            tools.filter(|tool: (Seq<char>, bool)| !tool.1),
            false,
            width,
        ),
        tool_lines(tools, PermissionMode::Plan, true, width) == tool_rows(
            tools.filter(|tool: (Seq<char>, bool)| tool.1),
            true,
            width,
        ),
{
    lemma_lines_are_rows(tools, PermissionMode::Plan, false, width);
    lemma_lines_are_rows(tools, PermissionMode::Plan, true, width);
    assert((|tool: (Seq<char>, bool)| hidden_in(PermissionMode::Plan, tool.1) == false) =~= (|
        tool: (Seq<char>, bool),
    | !tool.1));
    assert((|tool: (Seq<char>, bool)| hidden_in(PermissionMode::Plan, tool.1) == true) =~= (|
        tool: (Seq<char>, bool),
    | tool.1));
}

} // verus!
