//! A server's tool as one of our own: same registry, same permissions, same
//! pipeline.

use vstd::prelude::*;

use crate::engine::tool::{ToolError, ToolErrorModel, ToolOutcome, ToolOutcomeModel};
use crate::json;
use crate::json::json_failure;
use crate::mcp::client::ToolDescriptor;
use crate::mcp::{error_text, McpError};
use crate::permission::laws::law_text_round_trip;
use crate::permission::resource::{resource_read, resource_text, Action, ResourceModel};
use crate::permission::PermissionErrorModel;
use crate::text::{quoted, quoted_of, trim, trim_of};

verus! {

/// A tool that a server offers.
#[derive(Debug)]
pub struct McpTool {
    server: String,
    remote_name: String,
    local_name: String,
    description: String,
    input_schema: String,
}

/// What an [`McpTool`] is.
pub struct McpToolModel {
    pub server: Seq<char>,
    /// Its name on the server.
    pub remote_name: Seq<char>,
    pub description: Seq<char>,
    pub input_schema: Seq<char>,
}

/// A tool's name in our registry: the server's name stands in it, so that two
/// servers can offer tools of one name.
pub open spec fn local_name_of(server: Seq<char>, tool: Seq<char>) -> Seq<char> {
    "mcp__"@ + server + "__"@ + tool
}

/// What is said of a tool that its server does not describe.
pub open spec fn default_description(server: Seq<char>, tool: Seq<char>) -> Seq<char> {
    "Tool "@ + quoted_of(tool) + " provided by MCP server "@ + quoted_of(server) + "."@
}

/// The permission a call needs.
pub open spec fn permission_of(server: Seq<char>, tool: Seq<char>) -> Seq<char> {
    "mcp("@ + server + "/"@ + tool + ")"@
}

/// What a call's input becomes: nothing at all stands for no arguments.
pub open spec fn arguments_of(input: Seq<char>, cancelled: bool) -> Result<
    Seq<char>,
    ToolErrorModel,
> {
    if cancelled {
        Err(ToolErrorModel::Cancelled)
    } else if trim_of(input).len() == 0 {
        Ok("{}"@)
    } else {
        match json_failure(input) {
            Some(error) => Err(
                ToolErrorModel::Recoverable("arguments are not valid JSON: "@ + error),
            ),
            None => Ok(input),
        }
    }
}

impl DeepView for McpTool {
    type V = McpToolModel;

    closed spec fn deep_view(&self) -> McpToolModel {
        McpToolModel {
            server: self.server@,
            remote_name: self.remote_name@,
            description: self.description@,
            input_schema: self.input_schema@,
        }
    }
}

impl McpTool {
    #[verifier::type_invariant]
    spec fn named(self) -> bool {
        self.local_name@ == local_name_of(self.server@, self.remote_name@)
    }

    pub fn new(server: &str, descriptor: ToolDescriptor) -> (r: Self)
        ensures
            r.deep_view() == (McpToolModel {
                server: server@,
                remote_name: descriptor.name@,
                description: match descriptor.description {
                    Some(text) => text@,
                    None => default_description(server@, descriptor.name@),
                },
                input_schema: descriptor.input_schema@,
            }),
    {
        let mut local_name = "mcp__".to_owned();
        local_name.push_str(server);
        local_name.push_str("__");
        local_name.push_str(&descriptor.name);
        let description = match descriptor.description {
            Some(text) => text,
            None => {
                let mut text = "Tool ".to_owned();
                text.push_str(&quoted(&descriptor.name));
                text.push_str(" provided by MCP server ");
                text.push_str(&quoted(server));
                text.push_str(".");
                text
            },
        };
        McpTool {
            server: server.to_owned(),
            remote_name: descriptor.name,
            local_name,
            description,
            input_schema: descriptor.input_schema,
        }
    }

    pub fn name(&self) -> (r: &str)
        ensures
            r@ == local_name_of(self.deep_view().server, self.deep_view().remote_name),
    {
        proof {
            use_type_invariant(self);
        }
        &self.local_name
    }

    /// The tool's name on its server.
    pub fn remote_name(&self) -> (r: &str)
        ensures
            r@ == self.deep_view().remote_name,
    {
        &self.remote_name
    }

    pub fn description(&self) -> (r: &str)
        ensures
            r@ == self.deep_view().description,
    {
        &self.description
    }

    pub fn input_schema(&self) -> (r: &str)
        ensures
            r@ == self.deep_view().input_schema,
    {
        &self.input_schema
    }

    /// The permission a call needs, so that a user can allow a whole server or a
    /// single tool.
    pub fn required_permissions(&self, _input: &str) -> (r: Vec<String>)
        ensures
            r.deep_view() == seq![
                permission_of(self.deep_view().server, self.deep_view().remote_name),
            ],
    {
        let mut text = "mcp(".to_owned();
        text.push_str(&self.server);
        text.push_str("/");
        text.push_str(&self.remote_name);
        text.push_str(")");
        let mut r: Vec<String> = Vec::new();
        r.push(text);
        assert(r.deep_view() =~= seq![permission_of(self.server@, self.remote_name@)]);
        r
    }

    /// Whether the tool may change anything: nobody can know, so it may.
    pub fn is_mutating(&self) -> (r: bool)
        ensures
            r,
    {
        true
    }

    /// The arguments to send for a call, as JSON text.
    pub fn prepare(&self, input: &str, cancelled: bool) -> (r: Result<String, ToolError>)
        ensures
            match r {
                Ok(arguments) => arguments_of(input@, cancelled) == Ok::<_, ToolErrorModel>(
                    arguments@,
                ),
                Err(error) => arguments_of(input@, cancelled) == Err::<Seq<char>, _>(
                    error.deep_view(),
                ),
            },
    {
        if cancelled {
            return Err(ToolError::Cancelled);
        }
        if trim(input).as_str().is_empty() {
            return Ok("{}".to_owned());
        }
        match json::failure(input) {
            Some(error) => {
                let mut text = "arguments are not valid JSON: ".to_owned();
                text.push_str(&error);
                Err(ToolError::Recoverable(text))
            },
            None => Ok(input.to_owned()),
        }
    }

    /// What a call comes to. A server that fails does not end the turn: the model is
    /// told.
    pub fn outcome(&self, output: Result<String, McpError>) -> (r: Result<ToolOutcome, ToolError>)
        ensures
            match (output, r) {
                (Ok(text), Ok(outcome)) => outcome.deep_view() == (ToolOutcomeModel {
                    title: local_name_of(self.deep_view().server, self.deep_view().remote_name),
                    output: text@,
                    metadata: None,
                }),
                (Err(error), Err(reported)) => reported.deep_view() == ToolErrorModel::Recoverable(
                    error_text(error.deep_view()),
                ),
                _ => false,
            },
    {
        proof {
            use_type_invariant(self);
        }
        match output {
            Ok(text) => Ok(ToolOutcome::new(&self.local_name, &text)),
            Err(error) => Err(ToolError::Recoverable(error.to_string())),
        }
    }
}

/// Two servers that offer a tool of one name get two names in the registry.
pub proof fn law_names_do_not_collide(a: Seq<char>, b: Seq<char>, tool: Seq<char>)
    requires
        a != b,
    ensures
        local_name_of(a, tool) != local_name_of(b, tool),
{
    let head = "mcp__"@;
    let tail = "__"@ + tool;
    assert(local_name_of(a, tool) =~= head + a + tail);
    assert(local_name_of(b, tool) =~= head + b + tail);
    if local_name_of(a, tool) == local_name_of(b, tool) {
        let whole = local_name_of(a, tool);
        let h = head.len() as int;
        assert(a.len() == b.len());
        assert(whole.subrange(h, h + a.len()) =~= a);
        assert(whole.subrange(h, h + b.len()) =~= b);
    }
}

/// The permission a call needs reads back as the server and the tool, so the policy
/// decides about exactly that.
pub proof fn law_the_permission_reads_back(server: Seq<char>, tool: Seq<char>)
    ensures
        resource_read(permission_of(server, tool)) == Ok::<_, PermissionErrorModel>(
            ResourceModel { action: Action::Mcp, target: server + "/"@ + tool },
        ),
{
    let resource = ResourceModel { action: Action::Mcp, target: server + "/"@ + tool };
    reveal_strlit("/");
    reveal_strlit("mcp(");
    reveal_strlit("mcp");
    reveal_strlit("(");
    assert("mcp("@ =~= "mcp"@ + "("@);
    assert(resource_text(resource) =~= permission_of(server, tool));
    law_text_round_trip(resource);
}

} // verus!
