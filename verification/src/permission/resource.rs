//! `action(target)`: the vocabulary the engine reasons about.

use vstd::prelude::*;

use crate::permission::policy::Decision;
use crate::permission::{PermissionError, PermissionErrorModel};
use crate::text::{chars_of, find_from, find_of, lemma_find, same, slice_of, trim, trim_of};

verus! {

/// What kind of operation a resource names.
#[derive(Debug, Clone, Copy, PartialEq, Eq, Structural, Hash, PartialOrd, Ord)]
pub enum Action {
    ReadFile,
    WriteFile,
    ReadUrl,
    /// Actuating on a page, as opposed to reading it.
    ExecuteUrl,
    /// Run a shell command.
    Command,
    /// Run a command outside containment.
    Unsandboxed,
    /// Call an MCP tool, targeted as `server/tool`.
    Mcp,
}

/// The name of an action.
pub open spec fn action_name(action: Action) -> Seq<char> {
    match action {
        Action::ReadFile => "read_file"@,
        Action::WriteFile => "write_file"@,
        Action::ReadUrl => "read_url"@,
        Action::ExecuteUrl => "execute_url"@,
        Action::Command => "command"@,
        Action::Unsandboxed => "unsandboxed"@,
        Action::Mcp => "mcp"@,
    }
}

/// The action a name stands for, if any.
pub open spec fn action_named(name: Seq<char>) -> Option<Action> {
    if name == "read_file"@ {
        Some(Action::ReadFile)
    } else if name == "write_file"@ {
        Some(Action::WriteFile)
    } else if name == "read_url"@ {
        Some(Action::ReadUrl)
    } else if name == "execute_url"@ {
        Some(Action::ExecuteUrl)
    } else if name == "command"@ {
        Some(Action::Command)
    } else if name == "unsandboxed"@ {
        Some(Action::Unsandboxed)
    } else if name == "mcp"@ {
        Some(Action::Mcp)
    } else {
        None
    }
}

impl Action {
    /// The action's name.
    pub fn as_str(self) -> (r: &'static str)
        ensures
            r@ == action_name(self),
    {
        match self {
            Action::ReadFile => "read_file",
            Action::WriteFile => "write_file",
            Action::ReadUrl => "read_url",
            Action::ExecuteUrl => "execute_url",
            Action::Command => "command",
            Action::Unsandboxed => "unsandboxed",
            Action::Mcp => "mcp",
        }
    }

    /// How an unmatched resource is treated: the user is asked, whatever the
    /// action. An unnecessary prompt costs a keystroke.
    pub fn default_decision(self) -> (r: Decision)
        ensures
            r == Decision::Ask,
    {
        Decision::Ask
    }

    /// The action that `name` stands for.
    pub fn parse(name: &str) -> (r: Result<Action, PermissionError>)
        ensures
            match r {
                Ok(action) => action_named(name@) == Some(action),
                Err(error) => action_named(name@) is None && error.deep_view()
                    == PermissionErrorModel::UnknownAction(name@),
            },
    {
        if same(name, "read_file") {
            Ok(Action::ReadFile)
        } else if same(name, "write_file") {
            Ok(Action::WriteFile)
        } else if same(name, "read_url") {
            Ok(Action::ReadUrl)
        } else if same(name, "execute_url") {
            Ok(Action::ExecuteUrl)
        } else if same(name, "command") {
            Ok(Action::Command)
        } else if same(name, "unsandboxed") {
            Ok(Action::Unsandboxed)
        } else if same(name, "mcp") {
            Ok(Action::Mcp)
        } else {
            Err(PermissionError::UnknownAction(name.to_owned()))
        }
    }
}

impl std::str::FromStr for Action {
    type Err = PermissionError;

    fn from_str(s: &str) -> (r: Result<Self, Self::Err>)
        ensures
            match r {
                Ok(action) => action_named(s@) == Some(action),
                Err(error) => action_named(s@) is None && error.deep_view()
                    == PermissionErrorModel::UnknownAction(s@),
            },
    {
        Action::parse(s)
    }
}

/// A concrete operation awaiting a decision.
#[derive(Debug, PartialEq, Eq, Hash)]
pub struct Resource {
    pub action: Action,
    /// The concrete target: a path, a host, a command line, or `server/tool`.
    pub target: String,
}

/// What a [`Resource`] is: an action and the text of its target.
pub struct ResourceModel {
    pub action: Action,
    pub target: Seq<char>,
}

impl DeepView for Resource {
    type V = ResourceModel;

    open spec fn deep_view(&self) -> ResourceModel {
        ResourceModel { action: self.action, target: self.target@ }
    }
}

impl Clone for Resource {
    fn clone(&self) -> (r: Self)
        ensures
            r == *self,
    {
        Resource { action: self.action, target: self.target.clone() }
    }
}

/// How a resource is written: `action(target)`.
pub open spec fn resource_text(r: ResourceModel) -> Seq<char> {
    action_name(r.action) + "("@ + r.target + ")"@
}

/// What a text reads as: the action before the first `(`, and everything between
/// it and the `)` that ends the text.
pub open spec fn resource_read(s: Seq<char>) -> Result<ResourceModel, PermissionErrorModel> {
    let open = find_of(s, '(');
    let name = trim_of(s.take(open));
    let target = s.subrange(open + 1, s.len() - 1);
    if open == s.len() {
        Err(PermissionErrorModel::MalformedRule { rule: s, reason: "expected action(target)"@ })
    } else if s.last() != ')' {
        Err(PermissionErrorModel::MalformedRule { rule: s, reason: "missing closing parenthesis"@ })
    } else if action_named(name) is None {
        Err(PermissionErrorModel::UnknownAction(name))
    } else if target.len() == 0 {
        Err(PermissionErrorModel::MalformedRule { rule: s, reason: "empty target"@ })
    } else {
        Ok(ResourceModel { action: action_named(name)->0, target })
    }
}

/// The resources that granting `r` also grants: writing a file implies reading it.
pub open spec fn implied_of(r: ResourceModel) -> Seq<ResourceModel> {
    match r.action {
        Action::WriteFile => seq![ResourceModel { action: Action::ReadFile, target: r.target }],
        _ => Seq::empty(),
    }
}

impl Resource {
    pub fn new(action: Action, target: &str) -> (r: Self)
        ensures
            r.deep_view() == (ResourceModel { action, target: target@ }),
    {
        Resource { action, target: target.to_owned() }
    }

    pub fn read_file(path: &str) -> (r: Self)
        ensures
            r.deep_view() == (ResourceModel { action: Action::ReadFile, target: path@ }),
    {
        Resource::new(Action::ReadFile, path)
    }

    pub fn write_file(path: &str) -> (r: Self)
        ensures
            r.deep_view() == (ResourceModel { action: Action::WriteFile, target: path@ }),
    {
        Resource::new(Action::WriteFile, path)
    }

    pub fn command(cmd: &str) -> (r: Self)
        ensures
            r.deep_view() == (ResourceModel { action: Action::Command, target: cmd@ }),
    {
        Resource::new(Action::Command, cmd)
    }

    pub fn mcp(server: &str, tool: &str) -> (r: Self)
        ensures
            r.deep_view() == (ResourceModel {
                action: Action::Mcp,
                target: server@ + "/"@ + tool@,
            }),
    {
        let mut target = server.to_owned();
        target.push_str("/");
        target.push_str(tool);
        Resource { action: Action::Mcp, target }
    }

    /// Resources implied by granting this one.
    pub fn implied(&self) -> (r: Vec<Resource>)
        ensures
            r.deep_view() == implied_of(self.deep_view()),
    {
        let mut r: Vec<Resource> = Vec::new();
        match self.action {
            Action::WriteFile => {
                r.push(Resource::read_file(&self.target));
            },
            _ => {},
        }
        assert(r.deep_view() =~= implied_of(self.deep_view()));
        r
    }

    /// The resource written as `action(target)`.
    pub fn to_string(&self) -> (r: String)
        ensures
            r@ == resource_text(self.deep_view()),
    {
        let mut r = self.action.as_str().to_owned();
        r.push_str("(");
        r.push_str(&self.target);
        r.push_str(")");
        r
    }

    /// Reads `action(target)`.
    pub fn parse(s: &str) -> (r: Result<Resource, PermissionError>)
        ensures
            match r {
                Ok(resource) => resource_read(s@) == Ok::<_, PermissionErrorModel>(
                    resource.deep_view(),
                ),
                Err(error) => resource_read(s@) == Err::<ResourceModel, _>(error.deep_view()),
            },
    {
        let chars = chars_of(s);
        let open = find_from(&chars, '(', 0);
        assert(chars@.skip(0) =~= s@);
        proof {
            lemma_find(s@, '(');
        }
        if open == chars.len() {
            return Err(malformed(s, "expected action(target)"));
        }
        if chars[chars.len() - 1] != ')' {
            return Err(malformed(s, "missing closing parenthesis"));
        }
        let name = trim(&slice_of(&chars, 0, open));
        assert(s@.subrange(0, open as int) =~= s@.take(open as int));
        match Action::parse(&name) {
            Err(error) => Err(error),
            Ok(action) => {
                let target = slice_of(&chars, open + 1, chars.len() - 1);
                if target.as_str().is_empty() {
                    return Err(malformed(s, "empty target"));
                }
                Ok(Resource { action, target })
            },
        }
    }
}

fn malformed(rule: &str, reason: &str) -> (r: PermissionError)
    ensures
        r.deep_view() == (PermissionErrorModel::MalformedRule { rule: rule@, reason: reason@ }),
{
    PermissionError::MalformedRule { rule: rule.to_owned(), reason: reason.to_owned() }
}

impl std::str::FromStr for Resource {
    type Err = PermissionError;

    fn from_str(s: &str) -> (r: Result<Self, Self::Err>)
        ensures
            match r {
                Ok(resource) => resource_read(s@) == Ok::<_, PermissionErrorModel>(
                    resource.deep_view(),
                ),
                Err(error) => resource_read(s@) == Err::<ResourceModel, _>(error.deep_view()),
            },
    {
        Resource::parse(s)
    }
}

} // verus!
