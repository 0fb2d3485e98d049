//! JSON-RPC 2.0 messages. Parameters and results are JSON text.

use vstd::prelude::*;

use crate::mcp::{McpError, McpErrorModel};
use crate::text::{same, text_of};

verus! {

/// The protocol version this client advertises.
pub const PROTOCOL_VERSION: &'static str = "2025-11-25";

/// The versions this client can speak, its own first.
pub open spec fn supported_versions() -> Seq<Seq<char>> {
    seq!["2025-11-25"@, "2025-06-18"@, "2025-03-26"@]
}

/// What a request carries.
#[derive(Debug, PartialEq, Eq)]
pub enum Params {
    /// The handshake's offer: the version spoken, and no capability, since none is
    /// implemented.
    Initialize { protocol_version: String },
    /// A tool's name, and its arguments as JSON text.
    CallTool { name: String, arguments: String },
    Nothing,
}

/// What [`Params`] are.
pub enum ParamsModel {
    Initialize { protocol_version: Seq<char> },
    CallTool { name: Seq<char>, arguments: Seq<char> },
    Nothing,
}

impl DeepView for Params {
    type V = ParamsModel;

    open spec fn deep_view(&self) -> ParamsModel {
        match *self {
            Params::Initialize { protocol_version } => ParamsModel::Initialize {
                protocol_version: protocol_version@,
            },
            Params::CallTool { name, arguments } => ParamsModel::CallTool {
                name: name@,
                arguments: arguments@,
            },
            Params::Nothing => ParamsModel::Nothing,
        }
    }
}

/// A message to a server.
#[derive(Debug, PartialEq, Eq)]
pub struct Request {
    pub jsonrpc: &'static str,
    /// Absent for notifications, which take no reply.
    pub id: Option<u64>,
    pub method: String,
    pub params: Params,
}

/// What a [`Request`] is.
pub struct RequestModel {
    pub jsonrpc: Seq<char>,
    pub id: Option<u64>,
    pub method: Seq<char>,
    pub params: ParamsModel,
}

impl DeepView for Request {
    type V = RequestModel;

    open spec fn deep_view(&self) -> RequestModel {
        RequestModel {
            jsonrpc: self.jsonrpc@,
            id: self.id,
            method: self.method@,
            params: self.params.deep_view(),
        }
    }
}

impl Request {
    /// A message that is answered under its id.
    pub fn call(id: u64, method: &str, params: Params) -> (r: Self)
        ensures
            r.deep_view() == (RequestModel {
                jsonrpc: "2.0"@,
                id: Some(id),
                method: method@,
                params: params.deep_view(),
            }),
    {
        Request { jsonrpc: "2.0", id: Some(id), method: method.to_owned(), params }
    }

    /// A message that is not answered.
    pub fn notify(method: &str, params: Params) -> (r: Self)
        ensures
            r.deep_view() == (RequestModel {
                jsonrpc: "2.0"@,
                id: None,
                method: method@,
                params: params.deep_view(),
            }),
    {
        Request { jsonrpc: "2.0", id: None, method: method.to_owned(), params }
    }
}

/// What a server says went wrong.
#[derive(Debug, PartialEq, Eq)]
pub struct RpcError {
    pub code: i64,
    pub message: String,
    pub data: Option<String>,
}

/// A message from a server: a reply, or a notification in the same envelope.
#[derive(Debug, PartialEq, Eq)]
pub struct Response {
    pub jsonrpc: String,
    pub id: Option<u64>,
    pub result: Option<String>,
    pub error: Option<RpcError>,
    /// Present on notifications.
    pub method: Option<String>,
    pub params: Option<String>,
}

/// What of a [`Response`] decides.
pub struct ResponseModel {
    pub id: Option<u64>,
    pub result: Option<Seq<char>>,
    pub error: Option<(i64, Seq<char>)>,
    pub method: Option<Seq<char>>,
}

impl DeepView for Response {
    type V = ResponseModel;

    open spec fn deep_view(&self) -> ResponseModel {
        ResponseModel {
            id: self.id,
            result: text_of(self.result),
            error: match self.error {
                Some(error) => Some((error.code, error.message@)),
                None => None,
            },
            method: text_of(self.method),
        }
    }
}

/// Whether a message is a notification.
pub open spec fn notifies(response: ResponseModel) -> bool {
    response.id is None && response.method is Some
}

/// What a reply comes to: its error before its result, and one of them it must have.
pub open spec fn result_of(response: ResponseModel) -> Result<Seq<char>, McpErrorModel> {
    match response.error {
        Some((code, message)) => Err(McpErrorModel::Rpc { code, message }),
        None => match response.result {
            Some(result) => Ok(result),
            None => Err(McpErrorModel::Malformed("response has neither result nor error"@)),
        },
    }
}

/// A result over texts, as what it says.
pub open spec fn outcome_of(r: Result<String, McpError>) -> Result<Seq<char>, McpErrorModel> {
    match r {
        Ok(text) => Ok(text@),
        Err(error) => Err(error.deep_view()),
    }
}

impl Response {
    pub fn is_notification(&self) -> (r: bool)
        ensures
            r == notifies(self.deep_view()),
    {
        self.id.is_none() && self.method.is_some()
    }

    /// The result, as JSON text.
    pub fn into_result(self) -> (r: Result<String, McpError>)
        ensures
            outcome_of(r) == result_of(self.deep_view()),
    {
        if let Some(error) = self.error {
            return Err(McpError::Rpc { code: error.code, message: error.message });
        }
        match self.result {
            Some(result) => Ok(result),
            None => Err(
                McpError::Malformed("response has neither result nor error".to_owned()),
            ),
        }
    }
}

/// Settles on the server's version, if this client speaks it. Going on regardless
/// would mean messages that the server may read otherwise.
pub fn negotiate(server_version: &str) -> (r: Result<String, McpError>)
    ensures
        match r {
            Ok(version) => supported_versions().contains(server_version@) && version@
                == server_version@,
            Err(error) => !supported_versions().contains(server_version@) && error.deep_view() == (
            McpErrorModel::UnsupportedProtocol { server_version: server_version@ }),
        },
{
    let ghost all = supported_versions();
    assert(all[0] == "2025-11-25"@ && all[1] == "2025-06-18"@ && all[2] == "2025-03-26"@);
    if same(server_version, "2025-11-25") || same(server_version, "2025-06-18") || same(
        server_version,
        "2025-03-26",
    ) {
        return Ok(server_version.to_owned());
    }
    Err(McpError::UnsupportedProtocol { server_version: server_version.to_owned() })
}

} // verus!
