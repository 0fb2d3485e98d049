//! Connected MCP servers, and what they contribute to a session.

use vstd::prelude::*;

use crate::mcp::client::ToolDescriptor;
use crate::mcp::config::ServerConfig;
use crate::mcp::tool::{default_description, McpTool, McpToolModel};
use crate::mcp::{error_text, McpError, McpErrorModel};
use crate::text::text_of;
use crate::text_map::TextMap;

verus! {

/// What the servers contribute. Built once, at the start.
#[derive(Debug)]
pub struct Mcp {
    pub tools: Vec<McpTool>,
    /// The servers that are connected.
    pub clients: Vec<String>,
    /// Server guidance, fenced and attributed.
    pub instructions: String,
    /// What went wrong.
    pub errors: Vec<String>,
}

/// What an [`Mcp`] holds.
pub struct McpModel {
    pub tools: Seq<McpToolModel>,
    pub clients: Seq<Seq<char>>,
    pub instructions: Seq<char>,
    pub errors: Seq<Seq<char>>,
}

impl DeepView for Mcp {
    type V = McpModel;

    open spec fn deep_view(&self) -> McpModel {
        McpModel {
            tools: self.tools.deep_view(),
            clients: self.clients.deep_view(),
            instructions: self.instructions@,
            errors: self.errors.deep_view(),
        }
    }
}

/// What came of one server.
#[derive(Debug)]
pub enum Attempt {
    /// It did not start, or it refused the handshake.
    Failed(McpError),
    /// It is connected: its tools, or why there are none, and its guidance.
    Connected { listing: Result<Vec<ToolDescriptor>, McpError>, instructions: Option<String> },
}

/// Messages of errors.
pub open spec fn messages_of(errors: Seq<McpErrorModel>) -> Seq<Seq<char>> {
    Seq::new(errors.len(), |i: int| error_text(errors[i]))
}

/// What is said of a server that failed.
pub open spec fn failure_text(server: Seq<char>, error: McpErrorModel) -> Seq<char> {
    "mcp "@ + server + ": "@ + error_text(error)
}

/// A server's tool, as one of our own.
pub open spec fn tool_of(server: Seq<char>, descriptor: ToolDescriptor) -> McpToolModel {
    McpToolModel {
        server,
        remote_name: descriptor.name@,
        description: match descriptor.description {
            Some(text) => text@,
            None => default_description(server, descriptor.name@),
        },
        input_schema: descriptor.input_schema@,
    }
}

/// Guidance with one more server's behind it.
pub open spec fn guided(instructions: Seq<char>, more: Option<Seq<char>>) -> Seq<char> {
    match more {
        Some(text) => if instructions.len() == 0 {
            text
        } else {
            instructions + "\n\n"@ + text
        },
        None => instructions,
    }
}

/// What the servers contribute after one more was tried. One that failed is reported
/// and passed over; one that is connected stays, though its tools cannot be listed.
pub open spec fn tried(mcp: McpModel, server: Seq<char>, attempt: Attempt) -> McpModel {
    match attempt {
        Attempt::Failed(error) => McpModel {
            errors: mcp.errors.push(failure_text(server, error.deep_view())),
            ..mcp
        },
        Attempt::Connected { listing, instructions } => McpModel {
            tools: match listing {
                Ok(descriptors) => mcp.tools + Seq::new(
                    descriptors@.len(),
                    |i: int| tool_of(server, descriptors@[i]),
                ),
                Err(_) => mcp.tools,
            },
            clients: mcp.clients.push(server),
            instructions: guided(mcp.instructions, text_of(instructions)),
            errors: match listing {
                Ok(_) => mcp.errors,
                Err(error) => mcp.errors.push(failure_text(server, error.deep_view())),
            },
        },
    }
}

fn failure(server: &str, error: &McpError) -> (r: String)
    ensures
        r@ == failure_text(server@, error.deep_view()),
{
    let mut r = "mcp ".to_owned();
    r.push_str(server);
    r.push_str(": ");
    r.push_str(&error.to_string());
    r
}

/// The servers that are to be started: those declared and enabled, by name.
pub open spec fn enabled_of(
    keys: Seq<Seq<char>>,
    servers: Map<Seq<char>, ServerConfig>,
) -> Seq<Seq<char>>
    decreases keys.len(),
{
    if keys.len() == 0 {
        Seq::empty()
    } else {
        let before = enabled_of(keys.drop_last(), servers);
        if servers[keys.last()].enabled {
            before.push(keys.last())
        } else {
            before
        }
    }
}

/// The names of the servers that are to be started.
pub fn enabled(servers: &TextMap<ServerConfig>) -> (r: Vec<String>)
    ensures
        r.deep_view() == enabled_of(servers.keys_of(), servers@),
{
    let ghost keys = servers.keys_of();
    let mut r: Vec<String> = Vec::new();
    let mut i: usize = 0;
    let n: usize = servers.len();
    assert(r.deep_view() =~= Seq::<Seq<char>>::empty());
    while i < n
        invariant
            i <= n == keys.len(),
            keys == servers.keys_of(),
            r.deep_view() == enabled_of(keys.take(i as int), servers@),
        decreases n - i,
    {
        let ghost before = r.deep_view();
        assert(keys.take(i + 1).drop_last() =~= keys.take(i as int));
        assert(keys.take(i + 1).last() == keys[i as int]);
        let (name, config) = servers.at(i);
        if config.enabled {
            r.push(name.to_owned());
            assert(r.deep_view() =~= before.push(name@));
        }
        i += 1;
    }
    assert(keys.take(i as int) =~= keys);
    r
}

impl Mcp {
    /// No server yet; what is wrong with the declarations is reported.
    pub fn new(errors: &Vec<McpError>) -> (r: Self)
        ensures
            r.deep_view() == (McpModel {
                tools: Seq::empty(),
                clients: Seq::empty(),
                instructions: Seq::empty(),
                errors: messages_of(errors.deep_view()),
            }),
    {
        let ghost wanted = messages_of(errors.deep_view());
        let mut messages: Vec<String> = Vec::new();
        let mut i: usize = 0;
        assert(messages.deep_view() =~= wanted.take(0));
        while i < errors.len()
            invariant
                i <= errors@.len(),
                wanted == messages_of(errors.deep_view()),
                messages.deep_view() == wanted.take(i as int),
            decreases errors@.len() - i,
        {
            let ghost before = messages.deep_view();
            assert(errors.deep_view()[i as int] == errors@[i as int].deep_view());
            let text = errors[i].to_string();
            messages.push(text);
            assert(messages.deep_view() =~= before.push(text@));
            assert(messages.deep_view() =~= wanted.take(i + 1));
            i += 1;
        }
        assert(wanted.take(i as int) =~= wanted);
        let r = Mcp {
            tools: Vec::new(),
            clients: Vec::new(),
            instructions: String::new(),
            errors: messages,
        };
        assert(r.tools.deep_view() =~= Seq::<McpToolModel>::empty());
        assert(r.clients.deep_view() =~= Seq::<Seq<char>>::empty());
        assert(r.instructions@ =~= Seq::<char>::empty());
        r
    }

    fn report(&mut self, server: &str, error: &McpError)
        ensures
            final(self).deep_view() == (McpModel {
                errors: old(self).deep_view().errors.push(
                    failure_text(server@, error.deep_view()),
                ),
                ..old(self).deep_view()
            }),
    {
        let ghost before = self.errors.deep_view();
        let text = failure(server, error);
        self.errors.push(text);
        assert(self.errors.deep_view() =~= before.push(text@));
    }

    /// Takes in what came of one server. One broken declaration in a repository that
    /// was cloned must not be why a session does not open.
    pub fn connect(&mut self, server: &str, attempt: Attempt)
        ensures
            final(self).deep_view() == tried(old(self).deep_view(), server@, attempt),
    {
        let ghost whole = tried(self.deep_view(), server@, attempt);
        match attempt {
            Attempt::Failed(error) => {
                self.report(server, &error);
            },
            Attempt::Connected { listing, instructions } => {
                match listing {
                    Ok(descriptors) => {
                        self.adopt(server, descriptors);
                    },
                    Err(error) => {
                        self.report(server, &error);
                    },
                }
                match instructions {
                    Some(text) => {
                        if self.instructions.as_str().is_empty() {
                            self.instructions = text;
                        } else {
                            self.instructions.push_str("\n\n");
                            self.instructions.push_str(&text);
                        }
                    },
                    None => {},
                }
                let ghost before = self.clients.deep_view();
                self.clients.push(server.to_owned());
                assert(self.clients.deep_view() =~= before.push(server@));
            },
        }
    }

    fn adopt(&mut self, server: &str, descriptors: Vec<ToolDescriptor>)
        ensures
            final(self).deep_view() == (McpModel {
                tools: old(self).deep_view().tools + Seq::new(
                    descriptors@.len(),
                    |i: int| tool_of(server@, descriptors@[i]),
                ),
                ..old(self).deep_view()
            }),
    {
        let ghost all = descriptors@;
        let ghost before = self.deep_view();
        let ghost more = Seq::new(all.len(), |i: int| tool_of(server@, all[i]));
        let mut rest = descriptors;
        let ghost mut done: int = 0;
        assert(all.skip(0) =~= all);
        assert(before.tools + more.take(0) =~= before.tools);
        while rest.len() > 0
            invariant
                0 <= done <= all.len(),
                rest@ == all.skip(done),
                more == Seq::new(all.len(), |i: int| tool_of(server@, all[i])),
                self.deep_view() == (McpModel { tools: before.tools + more.take(done), ..before }),
            decreases rest@.len(),
        {
            let ghost earlier = self.tools.deep_view();
            assert(all.skip(done)[0] == all[done]);
            let descriptor = rest.remove(0);
            assert(rest@ =~= all.skip(done + 1));
            let tool = McpTool::new(server, descriptor);
            self.tools.push(tool);
            assert(self.tools.deep_view() =~= earlier.push(tool.deep_view()));
            assert(self.tools.deep_view() =~= before.tools + more.take(done + 1));
            proof {
                done = done + 1;
            }
        }
        assert(more.take(done) =~= more);
    }
}

/// A server that fails takes nothing from the others: their tools, their guidance and
/// what was reported before all stay, and its failure is reported.
pub proof fn law_a_failure_spoils_nothing(mcp: McpModel, server: Seq<char>, error: McpError)
    ensures
        ({
            let after = tried(mcp, server, Attempt::Failed(error));
            &&& after.tools == mcp.tools
            &&& after.clients == mcp.clients
            &&& after.instructions == mcp.instructions
            &&& after.errors == mcp.errors.push(failure_text(server, error.deep_view()))
        }),
{
}

/// Exactly what is declared and enabled is started.
pub proof fn law_only_enabled_servers_start(
    keys: Seq<Seq<char>>,
    servers: Map<Seq<char>, ServerConfig>,
    name: Seq<char>,
)
    ensures
        enabled_of(keys, servers).contains(name) <==> keys.contains(name) && servers[name].enabled,
    decreases keys.len(),
{
    let all = enabled_of(keys, servers);
    if keys.len() > 0 {
        let rest = keys.drop_last();
        let before = enabled_of(rest, servers);
        law_only_enabled_servers_start(rest, servers, name);
        assert(keys =~= rest.push(keys.last()));
        if all.contains(name) {
            let i = choose|i: int| 0 <= i < all.len() && all[i] == name;
            if i < before.len() {
                assert(before[i] == name);
                let k = choose|k: int| 0 <= k < rest.len() && rest[k] == name;
                assert(keys[k] == name);
            } else {
                assert(keys[keys.len() - 1] == name);
            }
        }
        if keys.contains(name) && servers[name].enabled {
            let k = choose|k: int| 0 <= k < keys.len() && keys[k] == name;
            if k < rest.len() {
                assert(rest[k] == name);
                let i = choose|i: int| 0 <= i < before.len() && before[i] == name;
                assert(all[i] == name);
            } else {
                assert(all[all.len() - 1] == name);
            }
        }
    }
}

} // verus!
