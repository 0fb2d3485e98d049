//! Configuration: settings and agent definitions.
//!
//! Two scopes, both named `.octane`, with the project winning: the user's home
//! directory, and the repository.

use vstd::prelude::*;

use crate::paths;
use crate::paths::joined;

pub mod agent;
pub mod edit;
pub mod layer_laws;
pub mod laws;
pub mod settings;

pub use agent::{discover_agents, AgentDefinition, AgentScope};
pub use edit::{Applies, Editable, Value};
pub use settings::{Settings, SettingsError, Thinking};

verus! {

/// Directory name at both scopes.
pub const CONFIG_DIR: &'static str = ".octane";

/// The configuration roots, least specific first: the home directory's, if there
/// is one, then the workspace's.
pub open spec fn roots_of(home: Option<Seq<char>>, workspace: Seq<char>) -> Seq<Seq<char>> {
    match home {
        Some(home) => seq![joined(home, ".octane"@), joined(workspace, ".octane"@)],
        None => seq![joined(workspace, ".octane"@)],
    }
}

/// The configuration roots in merge order: the project's comes last, so it wins.
pub fn roots(home: Option<&str>, workspace: &str) -> (r: Vec<String>)
    ensures
        r.deep_view() == roots_of(
            match home {
                Some(home) => Some(home@),
                None => None,
            },
            workspace@,
        ),
{
    let mut roots: Vec<String> = Vec::new();
    if let Some(home) = home {
        roots.push(paths::join(home, ".octane"));
    }
    roots.push(paths::join(workspace, ".octane"));
    assert(roots.deep_view() =~= roots_of(
        match home {
            Some(home) => Some(home@),
            None => None,
        },
        workspace@,
    ));
    roots
}

} // verus!
