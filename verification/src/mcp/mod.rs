//! Tools of third parties, spoken to over JSON-RPC 2.0.
//!
//! A server's tools enter the same registry and the same permission engine as the
//! built-in ones. What a server says about itself is text of a third party: it is
//! fenced and marked as such.

use vstd::prelude::*;

use crate::text::{decimal, decimal_of, quoted, quoted_of};

pub mod client;
pub mod config;
pub mod laws;
pub mod protocol;
pub mod tool;
pub mod transport;

pub use client::{McpClient, ServerCapabilities};
pub use protocol::{Request, Response, PROTOCOL_VERSION};
pub use tool::McpTool;
pub use transport::HttpTransport;

verus! {

/// What can go wrong with a server.
#[derive(Debug, PartialEq, Eq)]
pub enum McpError {
    Transport(String),
    UnsupportedProtocol { server_version: String },
    Rpc { code: i64, message: String },
    Malformed(String),
    CapabilityUnavailable(&'static str),
    Timeout { seconds: u64 },
    NotInitialized,
    /// A declaration that cannot be used.
    Config { server: String, reason: String },
}

/// What an [`McpError`] says.
pub enum McpErrorModel {
    Transport(Seq<char>),
    UnsupportedProtocol { server_version: Seq<char> },
    Rpc { code: i64, message: Seq<char> },
    Malformed(Seq<char>),
    CapabilityUnavailable(Seq<char>),
    Timeout { seconds: u64 },
    NotInitialized,
    Config { server: Seq<char>, reason: Seq<char> },
}

impl DeepView for McpError {
    type V = McpErrorModel;

    open spec fn deep_view(&self) -> McpErrorModel {
        match *self {
            McpError::Transport(reason) => McpErrorModel::Transport(reason@),
            McpError::UnsupportedProtocol { server_version } => {
                McpErrorModel::UnsupportedProtocol { server_version: server_version@ }
            },
            McpError::Rpc { code, message } => McpErrorModel::Rpc { code, message: message@ },
            McpError::Malformed(reason) => McpErrorModel::Malformed(reason@),
            McpError::CapabilityUnavailable(name) => McpErrorModel::CapabilityUnavailable(name@),
            McpError::Timeout { seconds } => McpErrorModel::Timeout { seconds },
            McpError::NotInitialized => McpErrorModel::NotInitialized,
            McpError::Config { server, reason } => McpErrorModel::Config {
                server: server@,
                reason: reason@,
            },
        }
    }
}

/// A signed number in decimal.
pub open spec fn signed_of(n: int) -> Seq<char> {
    if n < 0 {
        "-"@ + decimal_of((-n) as nat)
    } else {
        decimal_of(n as nat)
    }
}

fn signed(n: i64) -> (r: String)
    ensures
        r@ == signed_of(n as int),
{
    if n < 0 {
        let mut r = "-".to_owned();
        let magnitude: u64 = if n == i64::MIN { 0x8000_0000_0000_0000 } else { (-n) as u64 };
        r.push_str(&decimal(magnitude));
        r
    } else {
        decimal(n as u64)
    }
}

/// The message shown for an error.
pub open spec fn error_text(error: McpErrorModel) -> Seq<char> {
    match error {
        McpErrorModel::Transport(reason) => "transport failure: "@ + reason,
        McpErrorModel::UnsupportedProtocol { server_version } => "server speaks protocol "@
            + server_version + ", which this client does not support"@,
        McpErrorModel::Rpc { code, message } => "server returned error "@ + signed_of(code as int)
            + ": "@ + message,
        McpErrorModel::Malformed(reason) => "malformed message: "@ + reason,
        McpErrorModel::CapabilityUnavailable(name) => "capability "@ + quoted_of(name)
            + " was not negotiated"@,
        McpErrorModel::Timeout { seconds } => "request timed out after "@ + decimal_of(
            seconds as nat,
        ) + "s"@,
        McpErrorModel::NotInitialized => "server is not initialized"@,
        McpErrorModel::Config { server, reason } => server + ": "@ + reason,
    }
}

impl McpError {
    /// The message shown for the error.
    pub fn to_string(&self) -> (r: String)
        ensures
            r@ == error_text(self.deep_view()),
    {
        match self {
            McpError::Transport(reason) => {
                let mut r = "transport failure: ".to_owned();
                r.push_str(reason);
                r
            },
            McpError::UnsupportedProtocol { server_version } => {
                let mut r = "server speaks protocol ".to_owned();
                r.push_str(server_version);
                r.push_str(", which this client does not support");
                r
            },
            McpError::Rpc { code, message } => {
                let mut r = "server returned error ".to_owned();
                r.push_str(&signed(*code));
                r.push_str(": ");
                r.push_str(message);
                r
            },
            McpError::Malformed(reason) => {
                let mut r = "malformed message: ".to_owned();
                r.push_str(reason);
                r
            },
            McpError::CapabilityUnavailable(name) => {
                let mut r = "capability ".to_owned();
                r.push_str(&quoted(name));
                r.push_str(" was not negotiated");
                r
            },
            McpError::Timeout { seconds } => {
                let mut r = "request timed out after ".to_owned();
                r.push_str(&decimal(*seconds));
                r.push_str("s");
                r
            },
            McpError::NotInitialized => "server is not initialized".to_owned(),
            McpError::Config { server, reason } => {
                let mut r = server.clone();
                r.push_str(": ");
                r.push_str(reason);
                r
            },
        }
    }
}

} // verus!
