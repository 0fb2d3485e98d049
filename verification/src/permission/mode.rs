//! Permission modes: presets over the same engine, not a parallel code path.
//!
//! A mode can narrow or skip prompts. It can never override a deny rule.

use vstd::prelude::*;

use crate::permission::policy::Decision;
use crate::permission::resource::{Action, Resource};

verus! {

/// How much the engine asks.
#[derive(Debug, Clone, Copy, PartialEq, Eq, Structural)]
pub enum PermissionMode {
    /// Ask before anything mutating. The safe default.
    Default,
    /// Read-only. Investigate and propose; change nothing.
    Plan,
    /// Approve file edits without asking; still ask for commands.
    AcceptEdits,
    /// Skip prompts. Deny rules and the sandbox still apply.
    Bypass,
}

impl Default for PermissionMode {
    fn default() -> (r: Self)
        ensures
            r == PermissionMode::Default,
    {
        PermissionMode::Default
    }
}

/// The mode that follows another when cycling.
pub open spec fn cycle_of(mode: PermissionMode) -> PermissionMode {
    match mode {
        PermissionMode::Default => PermissionMode::AcceptEdits,
        PermissionMode::AcceptEdits => PermissionMode::Plan,
        PermissionMode::Plan => PermissionMode::Default,
        PermissionMode::Bypass => PermissionMode::Default,
    }
}

/// The name of a mode.
pub open spec fn label_of(mode: PermissionMode) -> Seq<char> {
    match mode {
        PermissionMode::Default => "default"@,
        PermissionMode::Plan => "plan"@,
        PermissionMode::AcceptEdits => "accept-edits"@,
        PermissionMode::Bypass => "bypass"@,
    }
}

/// Whether an action can change something.
pub open spec fn mutates(action: Action) -> bool {
    action is WriteFile || action is Command || action is ExecuteUrl || action is Unsandboxed
}

/// The decision a mode imposes on an action, if any.
pub open spec fn forced(mode: PermissionMode, action: Action) -> Option<Decision> {
    match mode {
        PermissionMode::Default => None,
        PermissionMode::Plan => if mutates(action) {
            Some(Decision::Deny)
        } else {
            None
        },
        PermissionMode::AcceptEdits => if action is WriteFile || action is ReadFile {
            Some(Decision::Allow)
        } else {
            None
        },
        PermissionMode::Bypass => Some(Decision::Allow),
    }
}

impl PermissionMode {
    /// What the next Shift+Tab produces. Bypass is never entered by cycling.
    pub fn cycle(self) -> (r: Self)
        ensures
            r == cycle_of(self),
    {
        match self {
            PermissionMode::Default => PermissionMode::AcceptEdits,
            PermissionMode::AcceptEdits => PermissionMode::Plan,
            PermissionMode::Plan => PermissionMode::Default,
            PermissionMode::Bypass => PermissionMode::Default,
        }
    }

    /// Short label for the status line.
    pub fn label(self) -> (r: &'static str)
        ensures
            r@ == label_of(self),
    {
        match self {
            PermissionMode::Default => "default",
            PermissionMode::Plan => "plan",
            PermissionMode::AcceptEdits => "accept-edits",
            PermissionMode::Bypass => "bypass",
        }
    }

    /// The decision this mode imposes regardless of the rule lists. Asked only
    /// after the deny rules, so `Allow` here never resurrects what they refuse.
    pub fn force(self, resource: &Resource) -> (r: Option<Decision>)
        ensures
            r == forced(self, resource.action),
    {
        match self {
            PermissionMode::Default => None,
            PermissionMode::Plan => match resource.action {
                Action::WriteFile | Action::Command | Action::ExecuteUrl | Action::Unsandboxed => {
                    Some(Decision::Deny)
                },
                Action::ReadFile | Action::ReadUrl | Action::Mcp => None,
            },
            // Escaping containment is never an edit.
            PermissionMode::AcceptEdits => match resource.action {
                Action::WriteFile | Action::ReadFile => Some(Decision::Allow),
                _ => None,
            },
            PermissionMode::Bypass => Some(Decision::Allow),
        }
    }

    /// Whether subagents inherit this mode: all of them do, or background agents
    /// would queue writes for an approval the user never sees.
    pub fn inherited_by_subagents(self) -> (r: bool)
        ensures
            r,
    {
        true
    }
}

} // verus!
