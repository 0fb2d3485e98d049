//! The client's side: the handshake, then listing and calling tools.
//!
//! A client says what to send and makes sense of what comes back; a transport
//! carries it.

use vstd::prelude::*;

use crate::mcp::protocol::{
    negotiate, notifies, outcome_of, result_of, supported_versions, Params, ParamsModel, Request,
    RequestModel, Response, ResponseModel, PROTOCOL_VERSION,
};
use crate::mcp::{McpError, McpErrorModel};
use crate::text::{same, text_of, trim, trim_end, trim_end_of, trim_of};

verus! {

/// How long a request may take, in seconds. A server that takes a request and never
/// answers would otherwise hang the loop.
pub const DEFAULT_TIMEOUT: u64 = 30;

/// What a server can do.
#[derive(Debug, Clone, Copy, PartialEq, Eq, Structural)]
pub struct ServerCapabilities {
    pub tools: Option<Capability>,
    pub resources: Option<Capability>,
    pub prompts: Option<Capability>,
    pub logging: bool,
}

/// One thing a server can do.
#[derive(Debug, Clone, Copy, PartialEq, Eq, Structural)]
pub struct Capability {
    /// The server will notify when its list changes.
    pub list_changed: bool,
    /// Subscriptions to single items.
    pub subscribe: bool,
}

impl Default for ServerCapabilities {
    fn default() -> (r: Self)
        ensures
            r == (ServerCapabilities { tools: None, resources: None, prompts: None, logging: false }),
    {
        ServerCapabilities { tools: None, resources: None, prompts: None, logging: false }
    }
}

/// A tool, as its server describes it.
#[derive(Debug, PartialEq, Eq)]
pub struct ToolDescriptor {
    pub name: String,
    pub description: Option<String>,
    /// JSON text.
    pub input_schema: String,
}

/// What the reply to the handshake holds. The capabilities come as read, or with
/// what is wrong with them.
#[derive(Debug)]
pub struct InitializeResult {
    pub protocol_version: Option<String>,
    pub capabilities: Option<Result<ServerCapabilities, String>>,
    pub instructions: Option<String>,
}

/// A piece of a tool's output.
#[derive(Debug, PartialEq, Eq)]
pub struct Block {
    /// What it is, such as `text` or `image`.
    pub kind: Option<String>,
    pub text: Option<String>,
}

/// What a [`Block`] is.
pub struct BlockModel {
    pub kind: Option<Seq<char>>,
    pub text: Option<Seq<char>>,
}

impl DeepView for Block {
    type V = BlockModel;

    open spec fn deep_view(&self) -> BlockModel {
        BlockModel { kind: text_of(self.kind), text: text_of(self.text) }
    }
}

/// What happened while a reply was waited for.
#[derive(Debug)]
pub enum Received {
    /// The server closed the connection.
    Closed,
    /// A line came: as it is, and as read, or what is wrong with it.
    Line { text: String, message: Result<Response, String> },
    /// The transport failed.
    Failed(String),
    /// Too much time has passed.
    TimedOut,
}

/// What a [`Received`] says.
pub enum ReceivedModel {
    Closed,
    Line { text: Seq<char>, message: Result<ResponseModel, Seq<char>> },
    Failed(Seq<char>),
    TimedOut,
}

impl DeepView for Received {
    type V = ReceivedModel;

    open spec fn deep_view(&self) -> ReceivedModel {
        match *self {
            Received::Closed => ReceivedModel::Closed,
            Received::Line { text, message } => ReceivedModel::Line {
                text: text@,
                message: match message {
                    Ok(response) => Ok(response.deep_view()),
                    Err(error) => Err(error@),
                },
            },
            Received::Failed(error) => ReceivedModel::Failed(error@),
            Received::TimedOut => ReceivedModel::TimedOut,
        }
    }
}

/// What a line means to the request with `id`: nothing, or its outcome. Blank lines,
/// notifications and replies to other requests are passed over.
pub open spec fn reply_to(id: u64, received: ReceivedModel) -> Option<
    Result<Seq<char>, McpErrorModel>,
> {
    match received {
        ReceivedModel::Closed => Some(
            Err(McpErrorModel::Transport("server closed the connection"@)),
        ),
        ReceivedModel::Failed(error) => Some(Err(McpErrorModel::Transport(error))),
        ReceivedModel::TimedOut => Some(Err(McpErrorModel::Timeout { seconds: DEFAULT_TIMEOUT })),
        ReceivedModel::Line { text, message } => if text.len() == 0 {
            None
        } else {
            match message {
                Err(error) => Some(Err(McpErrorModel::Malformed(error + ": "@ + text))),
                Ok(response) => if notifies(response) || response.id != Some(id) {
                    None
                } else {
                    Some(result_of(response))
                },
            }
        },
    }
}

/// A connection to a server.
#[derive(Debug)]
pub struct McpClient {
    server_name: String,
    next_id: u64,
    capabilities: Option<ServerCapabilities>,
    instructions: Option<String>,
    negotiated: Option<String>,
}

/// What an [`McpClient`] is.
pub struct ClientModel {
    pub server_name: Seq<char>,
    pub next_id: u64,
    /// What the server can do, once the handshake is done.
    pub capabilities: Option<ServerCapabilities>,
    /// What the server says about itself.
    pub instructions: Option<Seq<char>>,
    /// The version that the handshake settled on.
    pub negotiated: Option<Seq<char>>,
}

impl DeepView for McpClient {
    type V = ClientModel;

    closed spec fn deep_view(&self) -> ClientModel {
        ClientModel {
            server_name: self.server_name@,
            next_id: self.next_id,
            capabilities: self.capabilities,
            instructions: text_of(self.instructions),
            negotiated: text_of(self.negotiated),
        }
    }
}

/// A client after it took an id.
pub open spec fn after_call(client: ClientModel) -> ClientModel {
    ClientModel { next_id: client.next_id.wrapping_add(1), ..client }
}

/// A request under a client's next id.
pub open spec fn request_of(client: ClientModel, method: Seq<char>, params: ParamsModel) -> RequestModel {
    RequestModel { jsonrpc: "2.0"@, id: Some(client.next_id), method, params }
}

/// What the reply to the handshake comes to, and a client after it.
pub open spec fn initialized_of(client: ClientModel, result: InitializeResult) -> Result<
    ClientModel,
    McpErrorModel,
> {
    match result.protocol_version {
        None => Err(McpErrorModel::Malformed("initialize result lacks protocolVersion"@)),
        Some(version) => if !supported_versions().contains(version@) {
            Err(McpErrorModel::UnsupportedProtocol { server_version: version@ })
        } else {
            match result.capabilities {
                Some(Err(error)) => Err(McpErrorModel::Malformed(error@)),
                _ => Ok(
                    ClientModel {
                        capabilities: Some(
                            match result.capabilities {
                                Some(Ok(capabilities)) => capabilities,
                                _ => ServerCapabilities {
                                    tools: None,
                                    resources: None,
                                    prompts: None,
                                    logging: false,
                                },
                            },
                        ),
                        instructions: match result.instructions {
                            Some(text) => Some(text@),
                            None => client.instructions,
                        },
                        negotiated: Some(version@),
                        ..client
                    },
                ),
            }
        },
    }
}

/// One block of output as text. What is no text is only named: an image in base64
/// would fill the context.
pub open spec fn block_text(block: BlockModel) -> Seq<char> {
    match block.kind {
        None => Seq::empty(),
        Some(kind) => if kind == "text"@ {
            match block.text {
                Some(text) => text + "\n"@,
                None => Seq::empty(),
            }
        } else {
            "["@ + kind + " content omitted]\n"@
        },
    }
}

/// The blocks as text, one after another.
pub open spec fn blocks_text(blocks: Seq<BlockModel>) -> Seq<char>
    decreases blocks.len(),
{
    if blocks.len() == 0 {
        Seq::empty()
    } else {
        blocks_text(blocks.drop_last()) + block_text(blocks.last())
    }
}

/// What the model sees of a tool's output. A failure that the tool reports is told
/// to it like any other output.
pub open spec fn output_of(blocks: Seq<BlockModel>, is_error: bool) -> Seq<char> {
    if is_error {
        "Tool reported an error:\n"@ + trim_end_of(blocks_text(blocks))
    } else {
        trim_end_of(blocks_text(blocks))
    }
}

/// What a server says about itself, fenced and attributed.
pub open spec fn fenced_instructions(server: Seq<char>, text: Seq<char>) -> Seq<char> {
    "<mcp-server-instructions server=\""@ + server + "\" trust=\"third-party\">\n"@ + trim_of(text)
        + "\n</mcp-server-instructions>"@
}

impl McpClient {
    pub fn new(server_name: &str) -> (r: Self)
        ensures
            r.deep_view() == (ClientModel {
                server_name: server_name@,
                next_id: 1,
                capabilities: None,
                instructions: None,
                negotiated: None,
            }),
    {
        McpClient {
            server_name: server_name.to_owned(),
            next_id: 1,
            capabilities: None,
            instructions: None,
            negotiated: None,
        }
    }

    pub fn server_name(&self) -> (r: &str)
        ensures
            r@ == self.deep_view().server_name,
    {
        &self.server_name
    }

    /// The version that the handshake settled on, which later requests name.
    pub fn negotiated_version(&self) -> (r: Option<&str>)
        ensures
            match r {
                Some(version) => self.deep_view().negotiated == Some(version@),
                None => self.deep_view().negotiated is None,
            },
    {
        match &self.negotiated {
            Some(version) => Some(version.as_str()),
            None => None,
        }
    }

    fn call(&mut self, method: &str, params: Params) -> (r: Request)
        ensures
            r.deep_view() == request_of(old(self).deep_view(), method@, params.deep_view()),
            final(self).deep_view() == after_call(old(self).deep_view()),
    {
        let id: u64 = self.next_id;
        self.next_id = id.wrapping_add(1);
        Request::call(id, method, params)
    }

    /// The handshake's first message.
    pub fn initialize(&mut self) -> (r: Request)
        ensures
            r.deep_view() == request_of(
                old(self).deep_view(),
                "initialize"@,
                ParamsModel::Initialize { protocol_version: PROTOCOL_VERSION@ },
            ),
            final(self).deep_view() == after_call(old(self).deep_view()),
    {
        self.call(
            "initialize",
            Params::Initialize { protocol_version: PROTOCOL_VERSION.to_owned() },
        )
    }

    /// Takes the reply to the handshake, and gives the notification that ends it.
    /// Where the reply is refused, nothing changes.
    pub fn initialized(&mut self, result: InitializeResult) -> (r: Result<
        (ServerCapabilities, Request),
        McpError,
    >)
        ensures
            match r {
                Ok((capabilities, request)) => {
                    &&& initialized_of(old(self).deep_view(), result) == Ok::<_, McpErrorModel>(
                        final(self).deep_view(),
                    )
                    &&& final(self).deep_view().capabilities == Some(capabilities)
                    &&& request.deep_view() == (RequestModel {
                        jsonrpc: "2.0"@,
                        id: None,
                        method: "notifications/initialized"@,
                        params: ParamsModel::Nothing,
                    })
                },
                Err(error) => {
                    &&& initialized_of(old(self).deep_view(), result) == Err::<ClientModel, _>(
                        error.deep_view(),
                    )
                    &&& final(self).deep_view() == old(self).deep_view()
                },
            },
    {
        let version = match result.protocol_version {
            Some(version) => version,
            None => {
                return Err(
                    McpError::Malformed("initialize result lacks protocolVersion".to_owned()),
                );
            },
        };
        let version = match negotiate(&version) {
            Ok(version) => version,
            Err(error) => {
                return Err(error);
            },
        };
        let capabilities = match result.capabilities {
            Some(Ok(capabilities)) => capabilities,
            Some(Err(error)) => {
                return Err(McpError::Malformed(error));
            },
            None => ServerCapabilities::default(),
        };
        if let Some(text) = result.instructions {
            self.instructions = Some(text);
        }
        self.capabilities = Some(capabilities);
        self.negotiated = Some(version);
        Ok((capabilities, Request::notify("notifications/initialized", Params::Nothing)))
    }

    /// The message that lists the server's tools; only a server that said it has
    /// tools is asked.
    pub fn list_tools(&mut self) -> (r: Result<Request, McpError>)
        ensures
            match r {
                Ok(request) => {
                    &&& old(self).deep_view().capabilities is Some
                    &&& old(self).deep_view().capabilities->0.tools is Some
                    &&& request.deep_view() == request_of(
                        old(self).deep_view(),
                        "tools/list"@,
                        ParamsModel::Nothing,
                    )
                    &&& final(self).deep_view() == after_call(old(self).deep_view())
                },
                Err(error) => {
                    &&& final(self).deep_view() == old(self).deep_view()
                    &&& match old(self).deep_view().capabilities {
                        None => error.deep_view() == McpErrorModel::NotInitialized,
                        Some(capabilities) => capabilities.tools is None && error.deep_view()
                            == McpErrorModel::CapabilityUnavailable("tools"@),
                    }
                },
            },
    {
        match self.capabilities {
            None => {
                return Err(McpError::NotInitialized);
            },
            Some(capabilities) => {
                if capabilities.tools.is_none() {
                    return Err(McpError::CapabilityUnavailable("tools"));
                }
            },
        }
        Ok(self.call("tools/list", Params::Nothing))
    }

    /// The tools a reply lists, as read or with what is wrong with them.
    pub fn listed(tools: Option<Result<Vec<ToolDescriptor>, String>>) -> (r: Result<
        Vec<ToolDescriptor>,
        McpError,
    >)
        ensures
            match (tools, r) {
                (Some(Ok(tools)), Ok(listed)) => listed == tools,
                (Some(Err(reason)), Err(error)) => error.deep_view() == McpErrorModel::Malformed(
                    reason@,
                ),
                (None, Err(error)) => error.deep_view() == McpErrorModel::Malformed(
                    "tools/list result lacks tools"@,
                ),
                _ => false,
            },
    {
        match tools {
            Some(Ok(tools)) => Ok(tools),
            Some(Err(error)) => Err(McpError::Malformed(error)),
            None => Err(McpError::Malformed("tools/list result lacks tools".to_owned())),
        }
    }

    /// The message that calls a tool. Whether it may be called is not decided here.
    pub fn call_tool(&mut self, name: &str, arguments: &str) -> (r: Request)
        ensures
            r.deep_view() == request_of(
                old(self).deep_view(),
                "tools/call"@,
                ParamsModel::CallTool { name: name@, arguments: arguments@ },
            ),
            final(self).deep_view() == after_call(old(self).deep_view()),
    {
        self.call(
            "tools/call",
            Params::CallTool { name: name.to_owned(), arguments: arguments.to_owned() },
        )
    }

    /// What the model sees of a tool's output.
    pub fn tool_output(blocks: &Vec<Block>, is_error: bool) -> (r: String)
        ensures
            r@ == output_of(blocks.deep_view(), is_error),
    {
        let ghost all = blocks.deep_view();
        let mut out = String::new();
        let mut i: usize = 0;
        while i < blocks.len()
            invariant
                i <= blocks@.len(),
                all == blocks.deep_view(),
                out@ == blocks_text(all.take(i as int)),
            decreases blocks@.len() - i,
        {
            assert(all.take(i + 1).drop_last() =~= all.take(i as int));
            assert(all.take(i + 1).last() == blocks@[i as int].deep_view());
            let ghost before = out@;
            if let Some(kind) = &blocks[i].kind {
                if same(kind, "text") {
                    if let Some(text) = &blocks[i].text {
                        out.push_str(text);
                        out.push_str("\n");
                    }
                } else {
                    out.push_str("[");
                    out.push_str(kind);
                    out.push_str(" content omitted]\n");
                }
            }
            assert(out@ =~= before + block_text(all[i as int]));
            i += 1;
        }
        assert(all.take(i as int) =~= all);
        if is_error {
            let mut r = "Tool reported an error:\n".to_owned();
            r.push_str(&trim_end(&out));
            return r;
        }
        trim_end(&out)
    }

    /// The server's instructions, fenced and attributed, so that they are never
    /// taken for the harness's own.
    pub fn rendered_instructions(&self) -> (r: Option<String>)
        ensures
            text_of(r) == match self.deep_view().instructions {
                Some(text) => Some(fenced_instructions(self.deep_view().server_name, text)),
                None => None,
            },
    {
        match &self.instructions {
            Some(text) => {
                let mut r = "<mcp-server-instructions server=\"".to_owned();
                r.push_str(&self.server_name);
                r.push_str("\" trust=\"third-party\">\n");
                r.push_str(&trim(text));
                r.push_str("\n</mcp-server-instructions>");
                Some(r)
            },
            None => None,
        }
    }

    /// What came in means to the request with `id`: nothing yet, or its outcome.
    pub fn receive(id: u64, received: Received) -> (r: Option<Result<String, McpError>>)
        ensures
            match r {
                Some(outcome) => reply_to(id, received.deep_view()) == Some(outcome_of(outcome)),
                None => reply_to(id, received.deep_view()) is None,
            },
    {
        match received {
            Received::Closed => Some(
                Err(McpError::Transport("server closed the connection".to_owned())),
            ),
            Received::Failed(error) => Some(Err(McpError::Transport(error))),
            Received::TimedOut => Some(Err(McpError::Timeout { seconds: DEFAULT_TIMEOUT })),
            Received::Line { text, message } => {
                if text.as_str().is_empty() {
                    return None;
                }
                match message {
                    Err(error) => {
                        let mut reason = error;
                        reason.push_str(": ");
                        reason.push_str(&text);
                        Some(Err(McpError::Malformed(reason)))
                    },
                    Ok(response) => {
                        if response.is_notification() {
                            return None;
                        }
                        match response.id {
                            Some(other) => {
                                if other != id {
                                    return None;
                                }
                            },
                            None => {
                                return None;
                            },
                        }
                        Some(response.into_result())
                    },
                }
            },
        }
    }
}

/// Whatever a server sends, only its reply to this very request answers it: a
/// notification or a reply to another request never does.
pub proof fn law_only_its_own_reply_answers(id: u64, text: Seq<char>, response: ResponseModel)
    requires
        reply_to(id, ReceivedModel::Line { text, message: Ok(response) }) is Some,
    ensures
        response.id == Some(id),
        reply_to(id, ReceivedModel::Line { text, message: Ok(response) }) == Some(
            result_of(response),
        ),
{
}

/// A client after it took so many ids.
pub open spec fn after_calls(client: ClientModel, calls: nat) -> ClientModel
    decreases calls,
{
    if calls == 0 {
        client
    } else {
        after_call(after_calls(client, (calls - 1) as nat))
    }
}

proof fn lemma_next_id(client: ClientModel, calls: nat)
    requires
        calls <= u64::MAX,
    ensures
        after_calls(client, calls).next_id == if client.next_id + calls <= u64::MAX {
            client.next_id + calls
        } else {
            client.next_id + calls - 0x1_0000_0000_0000_0000
        },
    decreases calls,
{
    if calls > 0 {
        lemma_next_id(client, (calls - 1) as nat);
    }
}

/// No two requests share an id, until every id has been used.
pub proof fn law_ids_differ(
    client: ClientModel,
    calls: nat,
    first: (Seq<char>, ParamsModel),
    second: (Seq<char>, ParamsModel),
)
    requires
        0 < calls <= u64::MAX,
    ensures
        request_of(client, first.0, first.1).id != request_of(
            after_calls(client, calls),
            second.0,
            second.1,
        ).id,
{
    lemma_next_id(client, calls);
}

/// After a handshake that succeeded, the version is one that this client speaks, and
/// the one that the server named.
pub proof fn law_the_negotiated_version_is_spoken(client: ClientModel, result: InitializeResult)
    requires
        initialized_of(client, result) is Ok,
    ensures
        ({
            let after = initialized_of(client, result)->Ok_0;
            &&& after.negotiated is Some
            &&& supported_versions().contains(after.negotiated->0)
            &&& result.protocol_version is Some
            &&& after.negotiated == Some(result.protocol_version->0@)
            &&& after.capabilities is Some
        }),
{
}

} // verus!
