//! Agent definitions: which model, which tools, which prompt.

use vstd::prelude::*;

use crate::permission::PermissionMode;
use crate::text::among;

verus! {

/// Who may start an agent.
#[derive(Debug, Clone, Copy, PartialEq, Eq, Structural)]
pub enum AgentKind {
    /// What the user drives.
    Primary,
    /// A delegation target with its own context.
    Subagent,
    /// Internal, never selectable.
    Hidden,
}

/// An agent as the loop runs it.
#[derive(Debug)]
pub struct Agent {
    pub name: String,
    /// What the agent is for; all that a model picking one goes by.
    pub description: String,
    pub kind: AgentKind,
    /// Replaces the base system prompt when set.
    pub prompt: Option<String>,
    /// Replaces the session's model when set.
    pub model: Option<String>,
    /// Tool names this agent may use. Empty means all.
    pub allowed_tools: Vec<String>,
    /// Baseline mode.
    pub mode: PermissionMode,
}

/// Whether a tool list permits a tool: an empty list permits all.
pub open spec fn permits(allowed: Seq<Seq<char>>, tool: Seq<char>) -> bool {
    allowed.len() == 0 || allowed.contains(tool)
}

/// The tools of the agent that explores: none of them changes anything.
pub open spec fn explore_tools() -> Seq<Seq<char>> {
    seq!["read"@, "glob"@, "grep"@, "list"@, "lsp_definition"@, "lsp_references"@]
}

impl Agent {
    /// Full tool access, ask before mutating. The default.
    pub fn build() -> (r: Self)
        ensures
            r.name@ == "build"@,
            r.description@ == "Implements changes. Full tool access."@,
            r.kind == AgentKind::Primary,
            r.prompt is None,
            r.model is None,
            r.allowed_tools@.len() == 0,
            r.mode == PermissionMode::Default,
    {
        Agent {
            name: "build".to_owned(),
            description: "Implements changes. Full tool access.".to_owned(),
            kind: AgentKind::Primary,
            prompt: None,
            model: None,
            allowed_tools: Vec::new(),
            mode: PermissionMode::Default,
        }
    }

    /// Read-only investigation and planning. Restricted by mode rather than by
    /// tool list, so that tools added later are covered.
    pub fn plan() -> (r: Self)
        ensures
            r.name@ == "plan"@,
            r.description@ == "Investigates and plans without changing anything."@,
            r.kind == AgentKind::Primary,
            r.prompt is None,
            r.model is None,
            r.allowed_tools@.len() == 0,
            r.mode == PermissionMode::Plan,
    {
        Agent {
            name: "plan".to_owned(),
            description: "Investigates and plans without changing anything.".to_owned(),
            kind: AgentKind::Primary,
            prompt: None,
            model: None,
            allowed_tools: Vec::new(),
            mode: PermissionMode::Plan,
        }
    }

    /// Read-only codebase search, for delegation.
    pub fn explore() -> (r: Self)
        ensures
            r.name@ == "explore"@,
            r.description@ == "Searches the codebase and reports findings. Read-only. Use when locating code across many files would fill the main context."@,
            r.kind == AgentKind::Subagent,
            r.prompt is None,
            r.model is None,
            r.allowed_tools.deep_view() == explore_tools(),
            r.mode == PermissionMode::Plan,
    {
        let mut allowed_tools: Vec<String> = Vec::new();
        allowed_tools.push("read".to_owned());
        allowed_tools.push("glob".to_owned());
        allowed_tools.push("grep".to_owned());
        allowed_tools.push("list".to_owned());
        allowed_tools.push("lsp_definition".to_owned());
        allowed_tools.push("lsp_references".to_owned());
        assert(allowed_tools.deep_view() =~= explore_tools());
        Agent {
            name: "explore".to_owned(),
            description: "Searches the codebase and reports findings. Read-only. Use when locating code across many files would fill the main context.".to_owned(),
            kind: AgentKind::Subagent,
            prompt: None,
            model: None,
            allowed_tools,
            mode: PermissionMode::Plan,
        }
    }

    /// Whether the agent may use a tool.
    pub fn permits_tool(&self, tool: &str) -> (r: bool)
        ensures
            r == permits(self.allowed_tools.deep_view(), tool@),
    {
        self.allowed_tools.len() == 0 || among(&self.allowed_tools, tool)
    }

    /// Whether the agent may delegate: only a primary agent may, so that
    /// delegation never recurses.
    pub fn can_delegate(&self) -> (r: bool)
        ensures
            r == (self.kind == AgentKind::Primary),
    {
        self.kind == AgentKind::Primary
    }
}

/// An agent without a list of tools may use any; one with a list, those on it.
pub proof fn law_a_list_of_tools_binds(allowed: Seq<Seq<char>>, listed: Seq<char>, tool: Seq<char>)
    ensures
        permits(Seq::empty(), tool),
        permits(allowed.push(listed), tool) <==> tool == listed || allowed.contains(tool),
{
    let all = allowed.push(listed);
    if all.contains(tool) {
        let i = choose|i: int| 0 <= i < all.len() && all[i] == tool;
        if i < allowed.len() {
            assert(allowed[i] == tool);
        }
    }
    if allowed.contains(tool) {
        let i = choose|i: int| 0 <= i < allowed.len() && allowed[i] == tool;
        assert(all[i] == tool);
    }
    assert(all[allowed.len() as int] == listed);
}

} // verus!
