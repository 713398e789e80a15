use swal_agent::json::{object1, object2, JsonValue};
use swal_agent::mcp_flow::{McpFlow, McpStep};
use swal_agent::mcp_client::{
    call_params, http_request, init_params, parse_url, read_rpc_reply, reply_body, resolve_url, rpc_outcome, rpc_request,
    tool_listed, tools_from_result, McpClient, McpError, McpTool, RpcOutcome,
};

#[test]
fn mcp_parse_url() {
    assert_eq!(parse_url("http://localhost:8080/mcp").unwrap(), ("localhost".to_string(), 8080, "/mcp".to_string()));
    assert_eq!(parse_url("example.com").unwrap(), ("example.com".to_string(), 80, "/".to_string()));
    assert_eq!(parse_url("https://secure").unwrap_err(), "https is not supported in this fallback client");
    assert_eq!(parse_url("http://h:99999/").unwrap_err(), "number too large to fit in target type");
    assert_eq!(parse_url("http://h:/x").unwrap_err(), "cannot parse integer from empty string");
    assert_eq!(parse_url("http://h:8a").unwrap_err(), "invalid digit found in string");
}

#[test]
fn mcp_resolve_url() {
    assert_eq!(resolve_url("http://localhost:8080"), "http://localhost:8080/mcp");
    assert_eq!(resolve_url("http://localhost:8080/x"), "http://localhost:8080/x");
    assert_eq!(resolve_url("localhost"), "localhost/mcp");
    assert_eq!(resolve_url("a/b"), "a/b");
}

#[test]
fn mcp_client_pieces() {
    let mut client = McpClient::new();
    assert!(matches!(client.check_initialized(), Err(McpError::Connect(_))));
    client.set_url("http://localhost:8080");
    assert_eq!(client.url.as_deref(), Some("http://localhost:8080/mcp"));
    let params = init_params();
    assert_eq!(params.get("protocolVersion").and_then(|v| v.as_str()).map(|s| s.as_str()), Some("2024-11-05"));
    client.mark_initialized();
    assert!(client.check_initialized().is_ok());

    let listed = object1(
        "tools",
        JsonValue::Array(vec![
            object2("description", JsonValue::string("Get current weather"), "name", JsonValue::string("get_weather")),
            object2("description", JsonValue::string("Send an email notification"), "name", JsonValue::string("send_email")),
        ]),
    );
    let tools = tools_from_result(&listed).expect("List tools failed");
    assert_eq!(tools.len(), 2);
    assert_eq!(tools[0].name, "get_weather");
    assert_eq!(tools[0].description, "Get current weather");
    assert_eq!(tools[1].name, "send_email");
    assert!(tool_listed(&tools, "get_weather"));
    assert!(!tool_listed(&tools, "calculate_sum"));

    let call = call_params("get_weather", object1("location", JsonValue::string("Seattle")));
    assert_eq!(call.get("name").and_then(|v| v.as_str()).map(|s| s.as_str()), Some("get_weather"));
    assert!(call.get("arguments").is_some());
}

#[test]
fn mcp_error_texts() {
    assert_eq!(McpError::Connect("x".to_string()).to_string(), "Connect error: x");
    assert_eq!(McpError::JsonRpc("y".to_string()).to_string(), "JSON-RPC error: y");
    assert_eq!(McpError::ToolNotFound("z".to_string()).to_string(), "Tool not found: z");
    let bad = tools_from_result(&object1("nothing", JsonValue::Null));
    assert_eq!(bad.unwrap_err(), McpError::JsonRpc("Invalid tools/list response structure".to_string()));
    let partial = tools_from_result(&object1("tools", JsonValue::Array(vec![JsonValue::Null])));
    assert_eq!(partial.unwrap(), vec![McpTool { name: String::new(), description: String::new() }]);
}

#[test]
fn mcp_http_framing() {
    assert_eq!(
        http_request("/mcp", "h", "{}"),
        "POST /mcp HTTP/1.1\r\nHost: h\r\nContent-Type: application/json\r\nContent-Length: 2\r\nConnection: close\r\n\r\n{}"
    );
    assert_eq!(reply_body("HTTP/1.1 200 OK\r\nA: b\r\n\r\n{\"x\":1}").unwrap(), "{\"x\":1}");
    assert_eq!(reply_body("HTTP/1.1 500 Oops\r\n\r\nbad").unwrap_err(), "Server returned non-200 status. Headers: HTTP/1.1 500 Oops");
    assert_eq!(reply_body("HTTP/1.1 200 OK").unwrap_err(), "No HTTP body found");
    let req = rpc_request("tools/list", JsonValue::Object(vec![]));
    assert_eq!(req.get("jsonrpc").and_then(|v| v.as_str()).map(|s| s.as_str()), Some("2.0"));
    assert_eq!(req.get("id").and_then(|v| v.as_u64()), Some(1));
    assert!(matches!(rpc_outcome(object1("result", JsonValue::Null)), RpcOutcome::Result(JsonValue::Null)));
    assert!(matches!(rpc_outcome(object2("error", JsonValue::Null, "result", JsonValue::Null)), RpcOutcome::Error(_)));
    assert!(matches!(rpc_outcome(JsonValue::Null), RpcOutcome::MissingResult));
}

#[test]
fn read_rpc_reply_reads_reply_bytes() {
    let ok = b"HTTP/1.1 200 OK\r\nContent-Type: application/json\r\n\r\n{\"jsonrpc\":\"2.0\",\"id\":1,\"result\":{\"x\":1}}";
    match read_rpc_reply(ok) {
        Ok(RpcOutcome::Result(r)) => assert!(r.get("x").is_some()),
        _ => panic!("Expected a result"),
    }
    let err = b"HTTP/1.1 200 OK\r\n\r\n{\"error\":{\"code\":-1},\"result\":1}";
    assert!(matches!(read_rpc_reply(err), Ok(RpcOutcome::Error(_))));
    let missing = b"HTTP/1.1 200 OK\r\n\r\n{\"id\":1}";
    assert!(matches!(read_rpc_reply(missing), Ok(RpcOutcome::MissingResult)));
    let e = read_rpc_reply(b"HTTP/1.1 200 OK\r\n\r\nnot json").unwrap_err();
    assert!(e.starts_with("Failed to parse response JSON: "));
    assert!(e.ends_with(". Body: not json"));
    assert_eq!(
        read_rpc_reply(b"HTTP/1.1 404 Not Found\r\n\r\n").unwrap_err(),
        "Server returned non-200 status. Headers: HTTP/1.1 404 Not Found"
    );
    assert_eq!(read_rpc_reply(b"HTTP/1.1 200 OK").unwrap_err(), "No HTTP body found");
}

fn text_of<'a>(v: &'a JsonValue, key: &str) -> Option<&'a str> {
    v.get(key).and_then(|x| x.as_str()).map(|x| x.as_str())
}

fn mock_server(method: &str, params: &JsonValue) -> Result<JsonValue, String> {
    match method {
        "initialize" => {
            assert_eq!(text_of(params, "protocolVersion"), Some("2024-11-05"));
            Ok(object2(
                "protocolVersion",
                JsonValue::string("2024-11-05"),
                "serverInfo",
                object2("name", JsonValue::string("mock-mcp-server"), "version", JsonValue::string("1.0.0")),
            ))
        }
        "notifications/initialized" => Ok(JsonValue::Object(Vec::new())),
        "tools/list" => Ok(object1(
            "tools",
            JsonValue::Array(vec![
                object2("description", JsonValue::string("Get current weather"), "name", JsonValue::string("get_weather")),
                object2("description", JsonValue::string("Send an email notification"), "name", JsonValue::string("send_email")),
            ]),
        )),
        "tools/call" => {
            let name = text_of(params, "name").unwrap();
            let args = params.get("arguments").unwrap();
            if name == "get_weather" {
                assert_eq!(text_of(args, "location"), Some("Seattle"));
                Ok(object2(
                    "content",
                    JsonValue::Array(vec![object2(
                        "text",
                        JsonValue::string("The weather in Seattle is rainy, 52°F"),
                        "type",
                        JsonValue::string("text"),
                    )]),
                    "isError",
                    JsonValue::Bool(false),
                ))
            } else {
                Err("Unsupported tool in mock call".to_string())
            }
        }
        _ => Err(format!("Unexpected method: {}", method)),
    }
}

fn drive(client: &mut McpClient, start: (McpFlow, McpStep)) -> McpStep {
    let (mut flow, mut step) = start;
    loop {
        match step {
            McpStep::Send(req) => {
                let reply = mock_server(&req.method, &req.params).map_err(McpError::JsonRpc);
                step = flow.on_reply(client, reply);
            }
            done => return done,
        }
    }
}

#[test]
fn test_mcp_client_success() {
    let mut client = McpClient::new();

    // Nothing can be done before connecting
    let start = McpFlow::list_tools(&client);
    assert!(matches!(drive(&mut client, start), McpStep::Failed(_)));
    let start = McpFlow::call_tool(&client, "get_weather", object1("location", JsonValue::string("Seattle")));
    assert!(matches!(drive(&mut client, start), McpStep::Failed(_)));

    // Connect
    let start = McpFlow::connect(&mut client, "http://localhost:8080");
    assert!(matches!(drive(&mut client, start), McpStep::Connected), "Connect failed");
    assert!(client.initialized);

    // List tools
    let start = McpFlow::list_tools(&client);
    let tools = match drive(&mut client, start) {
        McpStep::Tools(t) => t,
        _ => panic!("List tools failed"),
    };
    assert_eq!(tools.len(), 2);
    assert_eq!(tools[0].name, "get_weather");
    assert_eq!(tools[0].description, "Get current weather");
    assert_eq!(tools[1].name, "send_email");
    assert_eq!(tools[1].description, "Send an email notification");

    // Call a tool
    let start = McpFlow::call_tool(&client, "get_weather", object1("location", JsonValue::string("Seattle")));
    let result = match drive(&mut client, start) {
        McpStep::Called(r) => r,
        _ => panic!("Call tool failed"),
    };
    let text = match result.get("content") {
        Some(JsonValue::Array(items)) => text_of(&items[0], "text").map(|t| t.to_string()),
        _ => None,
    };
    assert_eq!(text.as_deref(), Some("The weather in Seattle is rainy, 52°F"));

    // A tool that is not listed
    let start = McpFlow::call_tool(&client, "calculate_sum", JsonValue::Object(Vec::new()));
    match drive(&mut client, start) {
        McpStep::Failed(McpError::ToolNotFound(name)) => assert_eq!(name, "calculate_sum"),
        _ => panic!("Expected ToolNotFound"),
    }
}

#[test]
fn mcp_flow_reports_failed_initialize() {
    let mut client = McpClient::new();
    let (mut flow, step) = McpFlow::connect(&mut client, "example.com");
    assert!(matches!(&step, McpStep::Send(r) if r.method == "initialize"));
    let done = flow.on_reply(&mut client, Err(McpError::JsonRpc("down".to_string())));
    assert!(matches!(done, McpStep::Failed(McpError::JsonRpc(m)) if m == "down"));
    assert!(!client.initialized);
    assert_eq!(client.url.as_deref(), Some("example.com/mcp"));
    assert!(matches!(client.target_url(), Ok(u) if u == "example.com/mcp"));
    assert!(matches!(McpClient::new().target_url(), Err(McpError::Connect(m)) if m == "Not connected"));
}
