//! Agent definitions: markdown with YAML frontmatter, one file per agent.
//!
//! The description is what a delegating model sees, and the only basis on which it
//! picks.

use vstd::prelude::*;

use crate::config::settings::Thinking;
use crate::engine::agent::permits;
use crate::paths;
use crate::paths::{file_name_of, stem_of};
use crate::permission::PermissionMode;
use crate::text::{
    among, begins, copy_texts, split_once_text, split_once_text_of, strip_prefix, text_of, trim,
    trim_of, trim_start_char, trim_start_char_of,
};
use crate::text_map::TextMap;

verus! {

/// Directory name under each configuration root.
pub const AGENTS_DIR: &'static str = "agents";

/// Where a definition came from.
#[derive(Debug, Clone, Copy, PartialEq, Eq, Structural, PartialOrd, Ord)]
pub enum AgentScope {
    /// Compiled in. A file of the same name overrides it.
    Builtin,
    /// The user's.
    User,
    /// The project's.
    Project,
}

/// The name of a scope.
pub open spec fn scope_label(scope: AgentScope) -> Seq<char> {
    match scope {
        AgentScope::Builtin => "built-in"@,
        AgentScope::User => "user"@,
        AgentScope::Project => "project"@,
    }
}

impl AgentScope {
    pub fn label(self) -> (r: &'static str)
        ensures
            r@ == scope_label(self),
    {
        match self {
            AgentScope::Builtin => "built-in",
            AgentScope::User => "user",
            AgentScope::Project => "project",
        }
    }

    /// The scope of root `index` of `count`: the last root is the project's.
    pub fn of_root(index: usize, count: usize) -> (r: Self)
        requires
            index < count,
        ensures
            r == if index + 1 == count {
                AgentScope::Project
            } else {
                AgentScope::User
            },
    {
        if index == count - 1 {
            AgentScope::Project
        } else {
            AgentScope::User
        }
    }
}

/// How an agent may be used.
#[derive(Debug, Clone, Copy, PartialEq, Eq, Structural)]
pub enum AgentMode {
    /// Selectable by the user, and may delegate.
    Primary,
    /// Invoked for a task. May not delegate further.
    Subagent,
    /// Internal. Never offered.
    Hidden,
}

impl Default for AgentMode {
    fn default() -> (r: Self)
        ensures
            r == AgentMode::Subagent,
    {
        AgentMode::Subagent
    }
}

/// The head of an agent file.
#[derive(Debug, PartialEq, Eq)]
pub struct Frontmatter {
    /// What this agent is for.
    pub description: String,
    pub mode: AgentMode,
    /// Tool names this agent may use. Empty means all.
    pub tools: Vec<String>,
    /// `provider/model`, in place of the session's.
    pub model: Option<String>,
    pub mode_override: Option<PermissionMode>,
    pub thinking: Option<Thinking>,
}

/// What a [`Frontmatter`] holds.
pub struct FrontmatterModel {
    pub description: Seq<char>,
    pub mode: AgentMode,
    pub tools: Seq<Seq<char>>,
    pub model: Option<Seq<char>>,
    pub mode_override: Option<PermissionMode>,
    pub thinking: Option<Thinking>,
}

impl DeepView for Frontmatter {
    type V = FrontmatterModel;

    open spec fn deep_view(&self) -> FrontmatterModel {
        FrontmatterModel {
            description: self.description@,
            mode: self.mode,
            tools: self.tools.deep_view(),
            model: text_of(self.model),
            mode_override: self.mode_override,
            thinking: self.thinking,
        }
    }
}

impl Default for Frontmatter {
    fn default() -> (r: Self)
        ensures
            r.deep_view() == (FrontmatterModel {
                description: Seq::empty(),
                mode: AgentMode::Subagent,
                tools: Seq::empty(),
                model: None,
                mode_override: None,
                thinking: None,
            }),
    {
        let r = Frontmatter {
            description: String::new(),
            mode: AgentMode::Subagent,
            tools: Vec::new(),
            model: None,
            mode_override: None,
            thinking: None,
        };
        assert(r.tools.deep_view() =~= Seq::<Seq<char>>::empty());
        r
    }
}

impl Clone for Frontmatter {
    fn clone(&self) -> (r: Self)
        ensures
            r.deep_view() == self.deep_view(),
    {
        Frontmatter {
            description: self.description.clone(),
            mode: self.mode,
            tools: copy_texts(&self.tools),
            model: self.model.clone(),
            mode_override: self.mode_override,
            thinking: self.thinking,
        }
    }
}

/// An agent, from a file or built in.
#[derive(Debug, PartialEq, Eq)]
pub struct AgentDefinition {
    pub name: String,
    pub scope: AgentScope,
    pub frontmatter: Frontmatter,
    /// The system prompt.
    pub prompt: String,
    /// `None` for built-ins.
    pub path: Option<String>,
}

/// What an [`AgentDefinition`] is.
pub struct AgentModel {
    pub name: Seq<char>,
    pub scope: AgentScope,
    pub frontmatter: FrontmatterModel,
    pub prompt: Seq<char>,
    pub path: Option<Seq<char>>,
}

impl DeepView for AgentDefinition {
    type V = AgentModel;

    open spec fn deep_view(&self) -> AgentModel {
        AgentModel {
            name: self.name@,
            scope: self.scope,
            frontmatter: self.frontmatter.deep_view(),
            prompt: self.prompt@,
            path: text_of(self.path),
        }
    }
}

impl Clone for AgentDefinition {
    fn clone(&self) -> (r: Self)
        ensures
            r.deep_view() == self.deep_view(),
    {
        AgentDefinition {
            name: self.name.clone(),
            scope: self.scope,
            frontmatter: self.frontmatter.clone(),
            prompt: self.prompt.clone(),
            path: self.path.clone(),
        }
    }
}

/// The line that a delegating model sees.
pub open spec fn manifest_of(agent: AgentModel) -> Seq<char> {
    "- "@ + agent.name + ": "@ + agent.frontmatter.description
}

impl AgentDefinition {
    /// The line that a delegating model sees.
    pub fn manifest_entry(&self) -> (r: String)
        ensures
            r@ == manifest_of(self.deep_view()),
    {
        let mut r = "- ".to_owned();
        r.push_str(&self.name);
        r.push_str(": ");
        r.push_str(&self.frontmatter.description);
        r
    }

    /// Whether the agent may use a tool.
    pub fn permits_tool(&self, tool: &str) -> (r: bool)
        ensures
            r == permits(self.deep_view().frontmatter.tools, tool@),
    {
        self.frontmatter.tools.len() == 0 || among(&self.frontmatter.tools, tool)
    }

    /// Whether the agent may itself delegate. Subagents may not: recursion without
    /// bound is spend without a return.
    pub fn can_delegate(&self) -> (r: bool)
        ensures
            r == (self.frontmatter.mode == AgentMode::Primary),
    {
        self.frontmatter.mode == AgentMode::Primary
    }

    /// Whether the agent is shown at all.
    pub fn is_offered(&self) -> (r: bool)
        ensures
            r == (self.frontmatter.mode != AgentMode::Hidden),
    {
        self.frontmatter.mode != AgentMode::Hidden
    }
}

/// What is wrong with an agent file.
#[derive(Debug, PartialEq, Eq)]
pub enum AgentError {
    Io { path: String, source: String },
    MissingFrontmatter { path: String },
    InvalidFrontmatter { path: String, source: String },
    NoDescription { path: String },
}

impl AgentError {
    /// The message shown for the error.
    pub fn to_string(&self) -> (r: String)
        ensures
            r@ == match *self {
                AgentError::Io { path, source } => path@ + ": "@ + source@,
                AgentError::MissingFrontmatter { path } => path@
                    + ": missing YAML frontmatter delimited by ---"@,
                AgentError::InvalidFrontmatter { path, source } => path@ + ": "@ + source@,
                AgentError::NoDescription { path } => path@
                    + ": description must not be empty — it is how the model picks"@,
            },
    {
        match self {
            AgentError::Io { path, source } => {
                let mut r = path.clone();
                r.push_str(": ");
                r.push_str(source);
                r
            },
            AgentError::MissingFrontmatter { path } => {
                let mut r = path.clone();
                r.push_str(": missing YAML frontmatter delimited by ---");
                r
            },
            AgentError::InvalidFrontmatter { path, source } => {
                let mut r = path.clone();
                r.push_str(": ");
                r.push_str(source);
                r
            },
            AgentError::NoDescription { path } => {
                let mut r = path.clone();
                r.push_str(": description must not be empty — it is how the model picks");
                r
            },
        }
    }
}

/// Whether a file holds an agent: its name ends in `.md`.
pub fn is_agent_file(path: &str) -> (r: bool)
    ensures
        r == paths::extension_is(path@, "md"@),
{
    paths::has_extension_named(path, "md")
}

/// How an agent file comes apart into YAML and prompt, if it has frontmatter.
pub open spec fn definition_parts(raw: Seq<char>) -> Option<(Seq<char>, Seq<char>)> {
    if begins(raw, "---"@) {
        match split_once_text_of(raw.skip(3), "\n---"@) {
            Some((yaml, body)) => Some((yaml, trim_of(trim_start_char_of(body, '-')))),
            None => None,
        }
    } else {
        None
    }
}

/// Takes an agent file apart. Unlike a command, an agent needs frontmatter: the
/// description is in it.
pub fn split_definition(path: &str, raw: &str) -> (r: Result<(String, String), AgentError>)
    ensures
        match r {
            Ok((yaml, prompt)) => definition_parts(raw@) == Some((yaml@, prompt@)),
            Err(AgentError::MissingFrontmatter { path: p }) => definition_parts(raw@) is None && p@
                == path@,
            Err(_) => false,
        },
{
    proof {
        reveal_strlit("---");
    }
    match strip_prefix(raw, "---") {
        Some(rest) => match split_once_text(&rest, "\n---") {
            Some((yaml, body)) => Ok((yaml, trim(&trim_start_char(&body, '-')))),
            None => Err(AgentError::MissingFrontmatter { path: path.to_owned() }),
        },
        None => Err(AgentError::MissingFrontmatter { path: path.to_owned() }),
    }
}

/// The name an agent has from its file: the file name without its extension.
pub open spec fn agent_name(path: Seq<char>) -> Seq<char> {
    match file_name_of(path) {
        Some(name) => stem_of(name),
        None => Seq::empty(),
    }
}

/// Builds a definition from its file: where it is, its head as read, its prompt.
/// A description that says nothing is refused.
pub fn load(path: &str, scope: AgentScope, frontmatter: Frontmatter, prompt: String) -> (r: Result<
    AgentDefinition,
    AgentError,
>)
    ensures
        match r {
            Ok(agent) => trim_of(frontmatter.description@).len() > 0 && agent.deep_view() == (
            AgentModel {
                name: agent_name(path@),
                scope,
                frontmatter: frontmatter.deep_view(),
                prompt: prompt@,
                path: Some(path@),
            }),
            Err(AgentError::NoDescription { path: p }) => trim_of(frontmatter.description@).len()
                == 0 && p@ == path@,
            Err(_) => false,
        },
{
    if trim(&frontmatter.description).as_str().is_empty() {
        return Err(AgentError::NoDescription { path: path.to_owned() });
    }
    let name = match paths::file_name(path) {
        Some(name) => paths::split_extension(&name).0,
        None => String::new(),
    };
    Ok(AgentDefinition { name, scope, frontmatter, prompt, path: Some(path.to_owned()) })
}

/// A built-in agent.
pub open spec fn builtin_of(
    name: Seq<char>,
    description: Seq<char>,
    mode: AgentMode,
    tools: Seq<Seq<char>>,
    prompt: Seq<char>,
) -> AgentModel {
    AgentModel {
        name,
        scope: AgentScope::Builtin,
        frontmatter: FrontmatterModel {
            description,
            mode,
            tools,
            model: None,
            mode_override: None,
            thinking: None,
        },
        prompt,
        path: None,
    }
}

fn builtin(name: &str, description: &str, mode: AgentMode, tools: Vec<String>, prompt: &str) -> (r:
    AgentDefinition)
    ensures
        r.deep_view() == builtin_of(name@, description@, mode, tools.deep_view(), prompt@),
{
    AgentDefinition {
        name: name.to_owned(),
        scope: AgentScope::Builtin,
        frontmatter: Frontmatter {
            description: description.to_owned(),
            mode,
            tools,
            model: None,
            mode_override: None,
            thinking: None,
        },
        prompt: prompt.to_owned(),
        path: None,
    }
}

/// Tools that read and change nothing.
pub open spec fn read_only_tools() -> Seq<Seq<char>> {
    seq!["read"@, "grep"@, "glob"@, "list"@]
}

/// Tools that also write and run.
pub open spec fn working_tools() -> Seq<Seq<char>> {
    seq!["read"@, "write"@, "edit"@, "grep"@, "glob"@, "list"@, "bash"@]
}

fn read_only() -> (r: Vec<String>)
    ensures
        r.deep_view() == read_only_tools(),
{
    let mut r: Vec<String> = Vec::new();
    r.push("read".to_owned());
    r.push("grep".to_owned());
    r.push("glob".to_owned());
    r.push("list".to_owned());
    assert(r.deep_view() =~= read_only_tools());
    r
}

fn working() -> (r: Vec<String>)
    ensures
        r.deep_view() == working_tools(),
{
    let mut r: Vec<String> = Vec::new();
    r.push("read".to_owned());
    r.push("write".to_owned());
    r.push("edit".to_owned());
    r.push("grep".to_owned());
    r.push("glob".to_owned());
    r.push("list".to_owned());
    r.push("bash".to_owned());
    assert(r.deep_view() =~= working_tools());
    r
}

/// The built-in agent `build`.
pub open spec fn build_agent() -> AgentModel {
    builtin_of(
        "build"@,
        "Implements changes. Full tool access."@,
        AgentMode::Primary,
        Seq::empty(),
        ""@,
    )
}

/// The built-in agent `plan`.
pub open spec fn plan_agent() -> AgentModel {
    builtin_of(
        "plan"@,
        "Investigates and plans without changing anything."@,
        AgentMode::Primary,
        read_only_tools(),
        ""@,
    )
}

/// The built-in agent `research`.
pub open spec fn research_agent() -> AgentModel {
    builtin_of(
        "research"@,
        "Explores unfamiliar code or a broad question and reports findings. Read-only. Use when locating or understanding something would fill the main context with search output."@,
        AgentMode::Subagent,
        read_only_tools(),
        "You are researching, not changing anything.\n\nFind what was asked for and report it. Cite file paths and line numbers so the caller can go straight there. Say plainly when something is not present rather than reporting the nearest match as if it were the answer — a confident wrong location costs more than an honest miss.\n\nReturn findings, not a narration of your search."@,
    )
}

/// The built-in agent `test`.
pub open spec fn test_agent() -> AgentModel {
    builtin_of(
        "test"@,
        "Writes and runs tests for a change, and reports what actually failed. Use after implementing something, or to reproduce a reported bug."@,
        AgentMode::Subagent,
        working_tools(),
        "You are testing.\n\nRun the tests and report the real output, including failures. Never describe a test as passing that you did not see pass. If a test fails for an environmental reason rather than a defect, say which.\n\nWhen writing tests, name them for the property they protect rather than the function they call, and prefer one that would have caught the bug over several that restate the implementation."@,
    )
}

/// The built-in agent `code`.
pub open spec fn code_agent() -> AgentModel {
    builtin_of(
        "code"@,
        "Implements a well-specified change end to end. Use when the approach is already decided and the work is contained."@,
        AgentMode::Subagent,
        working_tools(),
        "You are implementing a change that has already been specified.\n\nMatch the surrounding code's conventions rather than importing your own. Make the change asked for and stop — unrequested improvements are a cost to review, not a gift.\n\nReport what you changed and anything you could not do, rather than claiming completion you did not verify."@,
    )
}

/// The built-in agent `critic`.
pub open spec fn critic_agent() -> AgentModel {
    builtin_of(
        "critic"@,
        "Argues against a change or a claim, looking for what breaks. Use before committing to something expensive or hard to reverse."@,
        AgentMode::Subagent,
        read_only_tools(),
        "You are looking for what is wrong.\n\nYour job is to find the defect, the missed case, or the assumption that does not hold — not to be agreeable. For each problem, give the concrete input or situation that triggers it. A criticism you cannot ground in a specific failure is not worth reporting.\n\nIf the thing is sound, say so in one line rather than manufacturing objections. False positives cost more than silence, because they teach the caller to stop reading."@,
    )
}

/// The agents octane ships with: two primaries and four specialists.
pub open spec fn builtins_of() -> Seq<AgentModel> {
    seq![build_agent(), plan_agent(), research_agent(), test_agent(), code_agent(), critic_agent()]
}

/// The agents octane ships with.
pub fn builtin_agents() -> (r: Vec<AgentDefinition>)
    ensures
        r.deep_view() == builtins_of(),
{
    let none: Vec<String> = Vec::new();
    assert(none.deep_view() =~= Seq::<Seq<char>>::empty());
    let mut r: Vec<AgentDefinition> = Vec::new();
    r.push(
        builtin(
            "build",
            "Implements changes. Full tool access.",
            AgentMode::Primary,
            none,
            "",
        ),
    );
    r.push(
        builtin(
            "plan",
            "Investigates and plans without changing anything.",
            AgentMode::Primary,
            read_only(),
            "",
        ),
    );
    r.push(
        builtin(
            "research",
            "Explores unfamiliar code or a broad question and reports findings. Read-only. Use when locating or understanding something would fill the main context with search output.",
            AgentMode::Subagent,
            read_only(),
            "You are researching, not changing anything.\n\nFind what was asked for and report it. Cite file paths and line numbers so the caller can go straight there. Say plainly when something is not present rather than reporting the nearest match as if it were the answer — a confident wrong location costs more than an honest miss.\n\nReturn findings, not a narration of your search.",
        ),
    );
    r.push(
        builtin(
            "test",
            "Writes and runs tests for a change, and reports what actually failed. Use after implementing something, or to reproduce a reported bug.",
            AgentMode::Subagent,
            working(),
            "You are testing.\n\nRun the tests and report the real output, including failures. Never describe a test as passing that you did not see pass. If a test fails for an environmental reason rather than a defect, say which.\n\nWhen writing tests, name them for the property they protect rather than the function they call, and prefer one that would have caught the bug over several that restate the implementation.",
        ),
    );
    r.push(
        builtin(
            "code",
            "Implements a well-specified change end to end. Use when the approach is already decided and the work is contained.",
            AgentMode::Subagent,
            working(),
            "You are implementing a change that has already been specified.\n\nMatch the surrounding code's conventions rather than importing your own. Make the change asked for and stop — unrequested improvements are a cost to review, not a gift.\n\nReport what you changed and anything you could not do, rather than claiming completion you did not verify.",
        ),
    );
    r.push(
        builtin(
            "critic",
            "Argues against a change or a claim, looking for what breaks. Use before committing to something expensive or hard to reverse.",
            AgentMode::Subagent,
            read_only(),
            "You are looking for what is wrong.\n\nYour job is to find the defect, the missed case, or the assumption that does not hold — not to be agreeable. For each problem, give the concrete input or situation that triggers it. A criticism you cannot ground in a specific failure is not worth reporting.\n\nIf the thing is sound, say so in one line rather than manufacturing objections. False positives cost more than silence, because they teach the caller to stop reading.",
        ),
    );
    assert(r.deep_view() =~= builtins_of());
    r
}

/// The agents of a list by name: a later one replaces an earlier one.
pub open spec fn agents_by_name(
    under: Map<Seq<char>, AgentModel>,
    agents: Seq<AgentModel>,
) -> Map<Seq<char>, AgentModel>
    decreases agents.len(),
{
    if agents.len() == 0 {
        under
    } else {
        agents_by_name(under, agents.drop_last()).insert(agents.last().name, agents.last())
    }
}

/// The definitions among what was found.
pub open spec fn loaded_of(found: Seq<Result<AgentDefinition, AgentError>>) -> Seq<AgentModel>
    decreases found.len(),
{
    if found.len() == 0 {
        Seq::empty()
    } else {
        match found.last() {
            Ok(agent) => loaded_of(found.drop_last()).push(agent.deep_view()),
            Err(_) => loaded_of(found.drop_last()),
        }
    }
}

/// The errors among what was found.
pub open spec fn failed_of(found: Seq<Result<AgentDefinition, AgentError>>) -> Seq<AgentError>
    decreases found.len(),
{
    if found.len() == 0 {
        Seq::empty()
    } else {
        match found.last() {
            Ok(_) => failed_of(found.drop_last()),
            Err(error) => failed_of(found.drop_last()).push(error),
        }
    }
}

/// All agents: the built-ins, then what was found over them.
pub open spec fn all_agents(
    found: Seq<Result<AgentDefinition, AgentError>>,
) -> Map<Seq<char>, AgentModel> {
    agents_by_name(agents_by_name(Map::empty(), builtins_of()), loaded_of(found))
}

/// The agents of a map, by what they are.
pub open spec fn agent_models(
    agents: Map<Seq<char>, AgentDefinition>,
) -> Map<Seq<char>, AgentModel> {
    Map::new(
        |name: Seq<char>| agents.dom().contains(name),
        |name: Seq<char>| agents[name].deep_view(),
    )
}

fn add_agent(agents: &mut TextMap<AgentDefinition>, agent: AgentDefinition)
    ensures
        agent_models(final(agents)@) == agent_models(old(agents)@).insert(
            agent.name@,
            agent.deep_view(),
        ),
{
    let name = agent.name.clone();
    let ghost before = agents@;
    let _ = agents.insert(name, agent);
    assert(agent_models(agents@) =~= agent_models(before).insert(agent.name@, agent.deep_view()));
}

/// Built-ins, then the user's files, then the project's: what comes later replaces
/// what has the same name, and a malformed file is reported, not fatal.
pub fn discover_agents(found: Vec<Result<AgentDefinition, AgentError>>) -> (r: (
    TextMap<AgentDefinition>,
    Vec<AgentError>,
))
    ensures
        agent_models(r.0@) == all_agents(found@),
        r.1@ == failed_of(found@),
{
    let mut agents: TextMap<AgentDefinition> = TextMap::new();
    let mut rest = builtin_agents();
    let ghost builtins = rest@;
    let ghost mut done: int = 0;
    assert(rest@.skip(0) =~= rest@);
    assert(builtins_of().take(0) =~= Seq::<AgentModel>::empty());
    assert(agent_models(agents@) =~= Map::<Seq<char>, AgentModel>::empty());
    while rest.len() > 0
        invariant
            0 <= done <= builtins.len() == builtins_of().len(),
            rest@ == builtins.skip(done),
            forall|i: int|
                0 <= i < builtins.len() ==> (#[trigger] builtins[i]).deep_view() == builtins_of()[i],
            agent_models(agents@) == agents_by_name(Map::empty(), builtins_of().take(done)),
        decreases rest@.len(),
    {
        let agent = rest.remove(0);
        assert(rest@ =~= builtins.skip(done + 1));
        assert(agent == builtins[done]);
        assert(builtins_of().take(done + 1).drop_last() =~= builtins_of().take(done));
        add_agent(&mut agents, agent);
        proof {
            done = done + 1;
        }
    }
    assert(builtins_of().take(done) =~= builtins_of());
    let ghost under = agents_by_name(Map::empty(), builtins_of());
    let ghost all = found@;
    let mut errors: Vec<AgentError> = Vec::new();
    let mut left = found;
    let ghost mut seen: int = 0;
    assert(all.skip(0) =~= all);
    assert(all.take(0) =~= Seq::<Result<AgentDefinition, AgentError>>::empty());
    while left.len() > 0
        invariant
            0 <= seen <= all.len(),
            left@ == all.skip(seen),
            agent_models(agents@) == agents_by_name(under, loaded_of(all.take(seen))),
            errors@ == failed_of(all.take(seen)),
        decreases left@.len(),
    {
        let one = left.remove(0);
        assert(left@ =~= all.skip(seen + 1));
        assert(all.take(seen + 1).drop_last() =~= all.take(seen));
        assert(all.take(seen + 1).last() == one);
        match one {
            Ok(agent) => {
                let ghost before = loaded_of(all.take(seen));
                assert(before.push(agent.deep_view()).drop_last() =~= before);
                add_agent(&mut agents, agent);
            },
            Err(error) => {
                errors.push(error);
            },
        }
        proof {
            seen = seen + 1;
        }
    }
    assert(all.take(seen) =~= all);
    (agents, errors)
}

} // verus!
