//! MCP: the client, its tools, server declarations and the HTTP transport.

use octane::engine::ToolError;
use octane::mcp::client::{
    Block, Capability, InitializeResult, McpClient, Received, ServerCapabilities, ToolDescriptor,
    DEFAULT_TIMEOUT,
};
use octane::mcp::config::{discover, ConfigFile, Connection, ServerConfig};
use octane::mcp::protocol::{negotiate, Params, Request, Response, RpcError, PROTOCOL_VERSION};
use octane::mcp::transport::{frame, sse_payloads, unframe, HttpReply, HttpTransport};
use octane::mcp::{McpError, McpTool};
use octane::permission::{Action, Resource};
use octane::text_map::TextMap;
use serde_json::Value;

fn text(value: &Value, key: &str) -> Option<String> {
    value.get(key).and_then(Value::as_str).map(str::to_owned)
}

/// A message from a server, as a reader of JSON hands it over.
fn response(raw: &str) -> Result<Response, String> {
    let value: Value = serde_json::from_str(raw).map_err(|error| error.to_string())?;
    Ok(Response {
        jsonrpc: text(&value, "jsonrpc").unwrap_or_default(),
        id: value.get("id").and_then(Value::as_u64),
        result: value.get("result").map(Value::to_string),
        error: value.get("error").map(|error| RpcError {
            code: error["code"].as_i64().unwrap(),
            message: text(error, "message").unwrap(),
            data: error.get("data").map(Value::to_string),
        }),
        method: text(&value, "method"),
        params: value.get("params").map(Value::to_string),
    })
}

fn capability(value: &Value, key: &str) -> Option<Capability> {
    let found = value.get(key)?;
    let flag = |name: &str| found.get(name).and_then(Value::as_bool).unwrap_or(false);
    Some(Capability { list_changed: flag("listChanged"), subscribe: flag("subscribe") })
}

fn initialize_result(raw: &str) -> InitializeResult {
    let value: Value = serde_json::from_str(raw).unwrap();
    InitializeResult {
        protocol_version: text(&value, "protocolVersion"),
        capabilities: value.get("capabilities").map(|found| {
            Ok(ServerCapabilities {
                tools: capability(found, "tools"),
                resources: capability(found, "resources"),
                prompts: capability(found, "prompts"),
                logging: found.get("logging").is_some(),
            })
        }),
        instructions: text(&value, "instructions"),
    }
}

/// Hands replies over until one of them answers the request.
fn answer(id: u64, replies: &[&str]) -> Result<String, McpError> {
    for raw in replies {
        let received = Received::Line { text: raw.to_string(), message: response(raw) };
        if let Some(outcome) = McpClient::receive(id, received) {
            return outcome;
        }
    }
    McpClient::receive(id, Received::Closed).unwrap()
}

/// The handshake with a scripted server: what it can do, and the methods sent.
fn initialize(
    client: &mut McpClient,
    replies: &[&str],
) -> Result<(ServerCapabilities, Vec<String>), McpError> {
    let request = client.initialize();
    let result = answer(request.id.unwrap(), replies)?;
    let (capabilities, notification) = client.initialized(initialize_result(&result))?;
    assert_eq!(notification.id, None);
    Ok((capabilities, vec![request.method, notification.method]))
}

fn blocks(result: &str) -> (Vec<Block>, bool) {
    let value: Value = serde_json::from_str(result).unwrap();
    let content = value["content"]
        .as_array()
        .unwrap()
        .iter()
        .map(|block| Block { kind: text(block, "type"), text: text(block, "text") })
        .collect();
    (content, value.get("isError").and_then(Value::as_bool).unwrap_or(false))
}

fn call_tool(client: &mut McpClient, name: &str, reply: &str) -> String {
    let request = client.call_tool(name, "{}");
    assert_eq!(request.method, "tools/call");
    let (content, is_error) = blocks(&answer(request.id.unwrap(), &[reply]).unwrap());
    McpClient::tool_output(&content, is_error)
}

const INIT_OK: &str = r#"{"jsonrpc":"2.0","id":1,"result":{"protocolVersion":"2025-11-25","capabilities":{"tools":{"listChanged":true}},"serverInfo":{"name":"s","version":"1"},"instructions":"Prefer the batch tool."}}"#;

#[test]
fn handshake_negotiates_then_sends_initialized() {
    let mut client = McpClient::new("linter");

    let (capabilities, methods) = initialize(&mut client, &[INIT_OK]).unwrap();
    assert!(capabilities.tools.is_some());

    // Order matters: initialize, then the notification.
    assert_eq!(methods, vec!["initialize", "notifications/initialized"]);
    assert_eq!(client.negotiated_version(), Some("2025-11-25"));
    assert_eq!(client.server_name(), "linter");
}

#[test]
fn an_unsupported_version_fails_rather_than_proceeding() {
    let reply = r#"{"jsonrpc":"2.0","id":1,"result":{"protocolVersion":"1999-01-01","capabilities":{}}}"#;
    let mut client = McpClient::new("s");

    let error = initialize(&mut client, &[reply]).unwrap_err();
    assert!(matches!(error, McpError::UnsupportedProtocol { .. }));
    assert_eq!(
        error.to_string(),
        "server speaks protocol 1999-01-01, which this client does not support"
    );
}

#[test]
fn a_handshake_without_a_version_is_malformed() {
    let mut client = McpClient::new("s");
    let error = client
        .initialized(InitializeResult {
            protocol_version: None,
            capabilities: None,
            instructions: None,
        })
        .unwrap_err();
    assert_eq!(
        error.to_string(),
        "malformed message: initialize result lacks protocolVersion"
    );
}

#[test]
fn listing_tools_before_initialize_is_refused() {
    let mut client = McpClient::new("s");
    assert!(matches!(client.list_tools().unwrap_err(), McpError::NotInitialized));
}

#[test]
fn a_server_without_the_tools_capability_is_not_queried() {
    let reply = r#"{"jsonrpc":"2.0","id":1,"result":{"protocolVersion":"2025-11-25","capabilities":{}}}"#;
    let mut client = McpClient::new("s");
    initialize(&mut client, &[reply]).unwrap();

    let error = client.list_tools().unwrap_err();
    assert!(matches!(error, McpError::CapabilityUnavailable("tools")));
    assert_eq!(error.to_string(), "capability \"tools\" was not negotiated");
}

#[test]
fn interleaved_notifications_do_not_satisfy_a_request() {
    let mut client = McpClient::new("s");
    let replies =
        [r#"{"jsonrpc":"2.0","method":"notifications/tools/list_changed"}"#, INIT_OK];

    // The notification is skipped and the real reply is matched by id.
    assert!(initialize(&mut client, &replies).is_ok());
}

#[test]
fn a_reply_to_another_request_is_passed_over() {
    let other = r#"{"jsonrpc":"2.0","id":7,"result":{}}"#;
    let error = answer(1, &[other, ""]).unwrap_err();
    assert_eq!(error.to_string(), "transport failure: server closed the connection");
    let late = McpClient::receive(1, Received::TimedOut).unwrap().unwrap_err();
    assert_eq!(late.to_string(), format!("request timed out after {DEFAULT_TIMEOUT}s"));
    let failed = McpClient::receive(1, Received::Failed("pipe".into())).unwrap().unwrap_err();
    assert_eq!(failed.to_string(), "transport failure: pipe");
    let garbled = answer(1, &["{nope"]).unwrap_err();
    assert!(garbled.to_string().starts_with("malformed message: "));
    assert!(garbled.to_string().ends_with(": {nope"));
}

#[test]
fn requests_are_numbered_in_turn() {
    let mut client = McpClient::new("s");
    initialize(&mut client, &[INIT_OK]).unwrap();
    let list = client.list_tools().unwrap();
    assert_eq!((list.id, list.method.as_str()), (Some(2), "tools/list"));
    assert_eq!(client.call_tool("x", "{}").id, Some(3));
}

#[test]
fn a_listing_says_what_is_wrong_with_it() {
    assert!(McpClient::listed(Some(Ok(Vec::new()))).unwrap().is_empty());
    assert_eq!(
        McpClient::listed(None).unwrap_err().to_string(),
        "malformed message: tools/list result lacks tools"
    );
    assert_eq!(
        McpClient::listed(Some(Err("bad".into()))).unwrap_err().to_string(),
        "malformed message: bad"
    );
}

#[test]
fn text_content_blocks_are_concatenated() {
    let mut client = McpClient::new("s");
    initialize(&mut client, &[INIT_OK]).unwrap();

    let output = call_tool(
        &mut client,
        "check",
        r#"{"jsonrpc":"2.0","id":2,"result":{"content":[{"type":"text","text":"line one"},{"type":"text","text":"line two"}]}}"#,
    );
    assert_eq!(output, "line one\nline two");
}

#[test]
fn binary_content_is_summarized_not_inlined() {
    let mut client = McpClient::new("s");
    initialize(&mut client, &[INIT_OK]).unwrap();

    let output = call_tool(
        &mut client,
        "snap",
        r#"{"jsonrpc":"2.0","id":2,"result":{"content":[{"type":"image","data":"AAAA"}]}}"#,
    );
    // The base64 must not reach the context window.
    assert!(!output.contains("AAAA"));
    assert!(output.contains("image content omitted"));
}

#[test]
fn tool_level_errors_reach_the_model() {
    let mut client = McpClient::new("s");
    initialize(&mut client, &[INIT_OK]).unwrap();

    let output = call_tool(
        &mut client,
        "read",
        r#"{"jsonrpc":"2.0","id":2,"result":{"isError":true,"content":[{"type":"text","text":"file not found"}]}}"#,
    );
    assert!(output.contains("file not found"));
    assert!(output.contains("error"));
}

#[test]
fn server_instructions_are_fenced_as_untrusted() {
    let mut client = McpClient::new("linter");
    initialize(&mut client, &[INIT_OK]).unwrap();

    let rendered = client.rendered_instructions().unwrap();
    assert!(rendered.contains(r#"trust="third-party""#));
    assert!(rendered.contains(r#"server="linter""#));
    assert!(rendered.contains("Prefer the batch tool."));
}

#[test]
fn no_instructions_renders_nothing() {
    let reply = r#"{"jsonrpc":"2.0","id":1,"result":{"protocolVersion":"2025-11-25","capabilities":{"tools":{}}}}"#;
    let mut client = McpClient::new("s");
    initialize(&mut client, &[reply]).unwrap();
    assert!(client.rendered_instructions().is_none());
}

fn pairs(value: Option<&Value>) -> TextMap<String> {
    let mut map = TextMap::new();
    if let Some(found) = value.and_then(Value::as_object) {
        for (key, value) in found {
            map.insert(key.clone(), value.as_str().unwrap().to_owned());
        }
    }
    map
}

/// A declaration file, as a reader of JSON hands it over.
fn config_file(raw: &str) -> ConfigFile {
    let path = "/r/mcp.json".to_string();
    let value: Value = match serde_json::from_str(raw) {
        Ok(value) => value,
        Err(error) => return ConfigFile::Malformed { path, error: error.to_string() },
    };
    let mut servers = TextMap::new();
    for (name, server) in value["mcpServers"].as_object().unwrap() {
        servers.insert(
            name.clone(),
            ServerConfig {
                command: text(server, "command"),
                args: server
                    .get("args")
                    .and_then(Value::as_array)
                    .map(|args| args.iter().map(|arg| arg.as_str().unwrap().to_owned()).collect())
                    .unwrap_or_default(),
                env: pairs(server.get("env")),
                url: text(server, "url"),
                headers: pairs(server.get("headers")),
                enabled: server.get("enabled").and_then(Value::as_bool).unwrap_or(true),
            },
        );
    }
    ConfigFile::Read { servers }
}

fn env(pairs: &[(&str, &str)]) -> TextMap<String> {
    let mut map = TextMap::new();
    for (name, value) in pairs {
        map.insert(name.to_string(), value.to_string());
    }
    map
}

fn no_env() -> TextMap<String> {
    TextMap::new()
}

/// Query-string auth is common for hosted endpoints, so a reference in the
/// url must resolve like one in a header rather than being sent literally.
#[test]
fn a_reference_in_the_url_is_resolved_too() {
    let file = config_file(r#"{"mcpServers":{"h":{"url":"https://x.example/mcp?key=${K}"}}}"#);

    let (servers, errors) = discover(vec![file], &env(&[("K", "s3cret")]));
    assert!(errors.is_empty(), "{errors:?}");
    assert_eq!(
        servers.get("h").unwrap().url.as_deref(),
        Some("https://x.example/mcp?key=s3cret")
    );
}

#[test]
fn a_server_is_read_from_the_standard_key() {
    let file =
        config_file(r#"{"mcpServers":{"linter":{"command":"npx","args":["-y","lint"]}}}"#);

    let (servers, errors) = discover(vec![file], &no_env());
    assert!(errors.is_empty(), "{errors:?}");

    let linter = servers.get("linter").expect("linter");
    assert_eq!(linter.command.as_deref(), Some("npx"));
    assert_eq!(linter.args, ["-y", "lint"]);
    assert!(linter.enabled, "a server is on unless it says otherwise");
}

#[test]
fn a_remote_server_is_declared_by_url_instead_of_command() {
    let file = config_file(r#"{"mcpServers":{"issues":{"url":"https://example.test/mcp"}}}"#);

    let (servers, errors) = discover(vec![file], &no_env());
    assert!(errors.is_empty(), "{errors:?}");
    let issues = servers.get("issues").unwrap();
    assert_eq!(issues.url.as_deref(), Some("https://example.test/mcp"));
    assert!(issues.command.is_none());
}

/// Both readings are defensible, which is exactly why neither is chosen.
#[test]
fn a_server_naming_both_a_command_and_a_url_is_refused_rather_than_guessed() {
    let file =
        config_file(r#"{"mcpServers":{"x":{"command":"c","url":"https://example.test/mcp"}}}"#);

    let (servers, errors) = discover(vec![file], &no_env());
    assert_eq!(servers.len(), 0, "an ambiguous declaration must not connect");
    assert_eq!(errors.len(), 1, "{errors:?}");
}

#[test]
fn a_server_naming_no_transport_at_all_is_refused() {
    let file = config_file(r#"{"mcpServers":{"x":{"args":["--stdio"]}}}"#);

    let (servers, errors) = discover(vec![file], &no_env());
    assert_eq!(servers.len(), 0);
    assert_eq!(errors.len(), 1, "{errors:?}");
}

/// Same trade as `env`: the file is committable and the token is not in it.
#[test]
fn a_header_reference_is_resolved_so_a_token_stays_out_of_the_file() {
    let file = config_file(
        r#"{"mcpServers":{"x":{"url":"https://e.test/mcp","headers":{"Authorization":"Bearer ${TOK}"}}}}"#,
    );

    let (servers, errors) = discover(vec![file], &env(&[("TOK", "abc")]));
    assert!(errors.is_empty(), "{errors:?}");
    assert_eq!(servers.get("x").unwrap().headers.get("Authorization").unwrap(), "Bearer abc");
}

#[test]
fn an_unset_header_variable_is_an_error_rather_than_an_empty_token() {
    let file = config_file(
        r#"{"mcpServers":{"x":{"url":"https://e.test/mcp","headers":{"Authorization":"${NOPE}"}}}}"#,
    );

    let (servers, errors) = discover(vec![file], &no_env());
    assert_eq!(servers.len(), 0, "a server that cannot authenticate must not connect");
    assert!(errors.iter().any(|e| e.to_string().contains("NOPE")), "{errors:?}");
}

#[test]
fn a_project_server_replaces_a_user_server_of_the_same_name() {
    let user = config_file(r#"{"mcpServers":{"db":{"command":"user-db"}}}"#);
    let project = config_file(r#"{"mcpServers":{"db":{"command":"project-db"}}}"#);

    let (servers, _) = discover(vec![user, project], &no_env());
    assert_eq!(servers.get("db").unwrap().command.as_deref(), Some("project-db"));
}

#[test]
fn an_env_reference_is_resolved_from_the_environment() {
    let file = config_file(r#"{"mcpServers":{"x":{"command":"c","env":{"TOKEN":"${T}!"}}}}"#);

    let (servers, errors) = discover(vec![file], &env(&[("T", "secret")]));
    assert!(errors.is_empty(), "{errors:?}");
    assert_eq!(servers.get("x").unwrap().env.get("TOKEN").unwrap(), "secret!");
}

/// Reported, not silently blanked. A server handed an empty token fails
/// inside itself, and the user is told the server is broken instead of being
/// told they forgot to export something.
#[test]
fn an_unset_variable_is_an_error_rather_than_an_empty_string() {
    let file =
        config_file(r#"{"mcpServers":{"x":{"command":"c","env":{"TOKEN":"${MISSING}"}}}}"#);

    let (servers, errors) = discover(vec![file], &no_env());
    assert_eq!(servers.len(), 0, "a server that cannot be configured must not start");
    assert!(
        errors.iter().any(|e| e.to_string().contains("MISSING")),
        "the error must name the variable: {errors:?}",
    );
}

fn blank() -> ServerConfig {
    ServerConfig {
        command: None,
        args: Vec::new(),
        env: TextMap::new(),
        url: None,
        headers: TextMap::new(),
        enabled: true,
    }
}

/// The dispatch is silent when it goes wrong — a url routed to the process
/// path would report a spawn failure — so both branches get a witness.
#[test]
fn a_url_opens_an_http_transport_while_a_command_starts_a_process() {
    let remote = ServerConfig { url: Some("https://example.test/mcp".into()), ..blank() };
    assert_eq!(
        remote.connect("issues").unwrap(),
        Connection::Http { url: "https://example.test/mcp".into() }
    );

    let local = ServerConfig { command: Some("octane-no-such-program".into()), ..blank() };
    assert_eq!(
        local.connect("linter").unwrap(),
        Connection::Process { program: "octane-no-such-program".into(), args: Vec::new() }
    );

    let neither = blank().connect("x").unwrap_err();
    assert_eq!(neither.to_string(), "x: declares neither command nor url");
}

#[test]
fn a_malformed_file_is_reported_and_skipped_rather_than_fatal() {
    let (servers, errors) = discover(vec![config_file("{ not json")], &no_env());
    assert_eq!(servers.len(), 0);
    assert_eq!(errors.len(), 1, "{errors:?}");

    let gone = ConfigFile::Unreadable { path: "/r/mcp.json".into(), error: "denied".into() };
    let (_, errors) = discover(vec![gone], &no_env());
    assert_eq!(errors[0].to_string(), "/r/mcp.json: denied");
}

#[test]
fn a_disabled_server_is_still_read_so_it_can_be_turned_back_on() {
    let file = config_file(r#"{"mcpServers":{"off":{"command":"c","enabled":false}}}"#);

    let (servers, _) = discover(vec![file], &no_env());
    assert!(!servers.get("off").unwrap().enabled);
}

#[test]
fn calls_carry_an_id_and_notifications_do_not() {
    let call = Request::call(1, "initialize", Params::Nothing);
    assert_eq!(call.id, Some(1));
    assert_eq!(call.jsonrpc, "2.0");

    let notify = Request::notify("notifications/initialized", Params::Nothing);
    assert!(notify.id.is_none(), "a notification must not carry an id");
}

#[test]
fn accepts_our_own_and_older_versions() {
    assert_eq!(negotiate(PROTOCOL_VERSION).unwrap(), PROTOCOL_VERSION);
    assert_eq!(negotiate("2025-03-26").unwrap(), "2025-03-26");
}

#[test]
fn rejects_an_unknown_version_rather_than_guessing() {
    assert!(negotiate("1999-01-01").is_err());
}

#[test]
fn rpc_errors_surface_as_errors() {
    let raw = r#"{"jsonrpc":"2.0","id":1,"error":{"code":-32601,"message":"no such method"}}"#;
    let error = response(raw).unwrap().into_result().unwrap_err();
    assert!(matches!(error, McpError::Rpc { code: -32601, .. }));
    assert_eq!(error.to_string(), "server returned error -32601: no such method");
}

#[test]
fn a_reply_with_neither_half_is_malformed() {
    let error = response(r#"{"jsonrpc":"2.0","id":1}"#).unwrap().into_result().unwrap_err();
    assert_eq!(error.to_string(), "malformed message: response has neither result nor error");
}

#[test]
fn server_notifications_are_distinguishable() {
    let raw = r#"{"jsonrpc":"2.0","method":"notifications/tools/list_changed"}"#;
    assert!(response(raw).unwrap().is_notification());
    assert!(!response(INIT_OK).unwrap().is_notification());
}

fn tool() -> McpTool {
    McpTool::new(
        "linter",
        ToolDescriptor {
            name: "check".into(),
            description: Some("Lints a file.".into()),
            input_schema: r#"{"type":"object"}"#.into(),
        },
    )
}

#[test]
fn local_names_are_namespaced_by_server() {
    assert_eq!(tool().name(), "mcp__linter__check");
    assert_eq!(tool().remote_name(), "check");
    assert_eq!(tool().description(), "Lints a file.");
    assert_eq!(tool().input_schema(), r#"{"type":"object"}"#);
}

#[test]
fn a_tool_nobody_described_says_where_it_is_from() {
    let bare = McpTool::new(
        "linter",
        ToolDescriptor { name: "check".into(), description: None, input_schema: "{}".into() },
    );
    assert_eq!(bare.description(), "Tool \"check\" provided by MCP server \"linter\".");
}

#[test]
fn permission_resource_is_server_slash_tool() {
    let permissions = tool().required_permissions("{}");
    assert_eq!(permissions, vec!["mcp(linter/check)"]);

    // And it parses as a Resource the policy engine understands.
    let parsed: Resource = permissions[0].parse().unwrap();
    assert_eq!(parsed.action, Action::Mcp);
    assert_eq!(parsed.target, "linter/check");
}

#[test]
fn mcp_tools_are_treated_as_mutating() {
    assert!(tool().is_mutating(), "effects are opaque, so assume the worst");
}

#[test]
fn malformed_arguments_are_recoverable() {
    let error = tool().prepare("not json", false).unwrap_err();
    assert!(matches!(error, ToolError::Recoverable(_)));
    assert!(error.is_reportable_to_model());
    assert!(error.to_string().starts_with("arguments are not valid JSON: "));
}

#[test]
fn cancellation_is_checked_before_dispatch() {
    assert!(matches!(tool().prepare("{}", true).unwrap_err(), ToolError::Cancelled));
    assert!(matches!(tool().prepare("not json", true).unwrap_err(), ToolError::Cancelled));
}

#[test]
fn no_input_stands_for_no_arguments() {
    assert_eq!(tool().prepare("  ", false).unwrap(), "{}");
    assert_eq!(tool().prepare(r#"{"a":1}"#, false).unwrap(), r#"{"a":1}"#);
}

#[test]
fn a_failing_server_is_told_to_the_model() {
    let fine = tool().outcome(Ok("clean".into())).unwrap();
    assert_eq!((fine.title.as_str(), fine.output.as_str()), ("mcp__linter__check", "clean"));
    let error = tool().outcome(Err(McpError::Transport("gone".into()))).unwrap_err();
    assert_eq!(error.to_string(), "transport failure: gone");
    assert!(error.is_reportable_to_model());
}

const INIT_RESULT: &str = r#"{"jsonrpc":"2.0","id":1,"result":{"protocolVersion":"2025-11-25","capabilities":{"tools":{}},"serverInfo":{"name":"remote","version":"1"}}}"#;

fn reply(status: u16, session: Option<&str>, content_type: &str, body: &str) -> HttpReply {
    HttpReply {
        status,
        session: session.map(|session| session.as_bytes().to_vec()),
        content_type: Some(content_type.into()),
        body: Ok(body.into()),
    }
}

fn sse(session: Option<&str>, message: &str) -> HttpReply {
    let body = format!("event: message\ndata: {message}\n\n");
    reply(200, session, "text/event-stream", &body)
}

fn json(message: &str) -> HttpReply {
    reply(200, None, "application/json", message)
}

fn accepted() -> HttpReply {
    reply(202, None, "application/json", "")
}

fn remote() -> HttpTransport {
    HttpTransport::connect("http://127.0.0.1/mcp", TextMap::new()).unwrap()
}

/// The header must name what the handshake settled on, not this client's
/// maximum. A server on an older supported version MUST reject a request
/// naming a version it does not speak — so sending our own ceiling breaks
/// exactly the servers the older versions are there to reach.
#[test]
fn the_protocol_version_sent_is_the_one_negotiated_not_our_own_maximum() {
    const OLDER: &str = "2025-06-18";
    let init = format!(
        r#"{{"jsonrpc":"2.0","id":1,"result":{{"protocolVersion":"{OLDER}","capabilities":{{"tools":{{}}}},"serverInfo":{{"name":"old","version":"1"}}}}}}"#
    );
    let mut transport = remote();
    let mut client = McpClient::new("old");

    assert!(
        transport.request().version.is_none(),
        "the initialize request predates negotiation, so it names no version",
    );
    transport.received(json(&init)).unwrap();
    let line = transport.recv().unwrap();
    initialize(&mut client, &[&line]).unwrap();
    transport.negotiated_version(client.negotiated_version().unwrap());

    // Later requests carry the negotiated version, not our own maximum.
    assert_eq!(transport.request().version.as_deref(), Some(OLDER));
    transport.received(accepted()).unwrap();
    assert_eq!(transport.request().version.as_deref(), Some(OLDER));
}

#[test]
fn an_initialize_over_http_reaches_the_server_and_the_reply_comes_back() {
    let mut transport = remote();
    let mut client = McpClient::new("remote");

    let request = transport.request();
    assert_eq!(request.url, "http://127.0.0.1/mcp");
    // A conforming server refuses unless both answer shapes are acceptable.
    assert!(request.headers.iter().any(|(name, value)| {
        name == "accept" && value.contains("text/event-stream") && value.contains("application/json")
    }));

    transport.received(sse(None, INIT_RESULT)).unwrap();
    let line = transport.recv().unwrap();
    let (capabilities, methods) = initialize(&mut client, &[&line]).unwrap();
    assert!(capabilities.tools.is_some());
    assert_eq!(methods[1], "notifications/initialized");
    assert!(transport.recv().is_none());
}

#[test]
fn a_session_id_is_echoed_on_every_request_after_the_one_that_issued_it() {
    let mut transport = remote();
    // The negative control: there was no session to echo on the first
    // request, so an id appearing there would mean it came from nowhere.
    assert!(transport.request().session.is_none());
    assert!(transport.shutdown().is_none());

    transport.received(sse(Some("s3cr3t"), INIT_RESULT)).unwrap();
    assert_eq!(transport.request().session.as_deref(), Some("s3cr3t".as_bytes()));
    transport.received(accepted()).unwrap();
    assert_eq!(transport.request().session.as_deref(), Some("s3cr3t".as_bytes()));
    // Ending the session names it once more.
    assert_eq!(transport.shutdown().unwrap().session.as_deref(), Some("s3cr3t".as_bytes()));
}

#[test]
fn a_configured_header_is_sent_on_every_request() {
    let mut transport =
        HttpTransport::connect("http://e.test/mcp", env(&[("Authorization", "Bearer t0ken")]))
            .unwrap();
    // Header names are normalised to lower case.
    let sent = ("authorization".to_string(), "Bearer t0ken".to_string());
    assert!(transport.request().headers.contains(&sent));
    transport.received(accepted()).unwrap();
    assert!(transport.request().headers.contains(&sent));
}

#[test]
fn an_http_error_is_reported_rather_than_read_as_a_message() {
    let mut transport = remote();
    let error =
        transport.received(reply(401, None, "application/json", "token expired")).unwrap_err();
    assert!(error.to_string().contains("401"), "{error:?}");
    assert!(transport.recv().is_none());
}

#[test]
fn a_header_that_cannot_be_sent_is_refused() {
    let bad = HttpTransport::connect("http://e.test/mcp", env(&[("bad name", "x")])).unwrap_err();
    assert_eq!(bad.to_string(), "transport failure: header bad name: invalid HTTP header name");
    let value = HttpTransport::connect("http://e.test/mcp", env(&[("x", "a\nb")])).unwrap_err();
    assert_eq!(value.to_string(), "transport failure: header x: failed to parse header value");
    let empty = HttpTransport::connect("http://e.test/mcp", env(&[("", "x")])).unwrap_err();
    assert_eq!(empty.to_string(), "transport failure: header : invalid HTTP header name");
}

#[test]
fn a_version_that_is_no_header_is_not_sent() {
    let mut transport = remote();
    transport.negotiated_version("bad\nversion");
    assert!(transport.request().version.is_none());
}

#[test]
fn several_messages_in_one_sse_stream_all_come_out() {
    // A server may batch a notification ahead of the response it belongs to.
    let body = ": keep-alive\n\nevent: message\ndata: {\"a\":1}\n\ndata: {\"b\":2}\n\n";
    assert_eq!(sse_payloads(body), vec![r#"{"a":1}"#, r#"{"b":2}"#]);
}

#[test]
fn a_data_field_split_across_lines_is_rejoined() {
    assert_eq!(sse_payloads("data: {\ndata: }\n\n"), vec!["{\n}"]);
}

#[test]
fn messages_to_a_process_are_lines() {
    assert_eq!(frame("{}"), "{}\n");
    assert_eq!(unframe(3, "{}\n").as_deref(), Some("{}"));
    assert_eq!(unframe(1, "\n").as_deref(), Some(""));
    assert_eq!(unframe(0, ""), None);
}

#[test]
fn of_two_spellings_of_a_header_the_later_is_sent() {
    let transport = HttpTransport::connect(
        "http://e.test/mcp",
        env(&[("Accept", "text/html"), ("X-Key", "first"), ("x-KEY", "second"), ("x-other", "o")]),
    )
    .unwrap();
    let sent = |name: &str| -> Vec<String> {
        let headers = transport.request().headers;
        headers.into_iter().filter(|(n, _)| n == name).map(|(_, value)| value).collect()
    };
    assert_eq!(sent("x-key"), vec!["second"]);
    assert_eq!(sent("x-other"), vec!["o"]);
    assert!(sent("X-Key").is_empty());
    // What is taken is offered beside what was configured.
    assert_eq!(sent("accept"), vec!["text/html", "application/json, text/event-stream"]);
}
