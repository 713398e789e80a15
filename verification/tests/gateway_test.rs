use swal_agent::gateway::{eq_ignore_ascii_case, mcp_call_response, mcp_server, ws_json, ws_message, ws_plain, ws_task_reply, WsDecision, WsReply};
use swal_agent::json::{object1, object2, JsonValue};

fn text_of(r: Result<WsReply, String>) -> String {
    match r {
        Ok(WsReply::Text(t)) => t,
        _ => panic!("Expected text message"),
    }
}

fn member<'a>(v: &'a JsonValue, k: &str) -> &'a JsonValue {
    v.get(k).expect("member")
}

fn str_of(v: &JsonValue) -> String {
    v.as_str().expect("string").clone()
}

#[test]
fn test_process_message_plain_ping() {
    assert_eq!(text_of(ws_plain("ping")), "pong");
    assert_eq!(text_of(ws_plain("  PiNg \n")), "pong");
}

#[test]
fn test_process_message_plain_health() {
    assert_eq!(text_of(ws_plain("health")), "ok");
}

#[test]
fn test_process_message_json_echo() {
    let msg = object1("echo", JsonValue::string("hello"));
    match ws_json(msg) {
        WsDecision::Reply(WsReply::Json(v)) => assert_eq!(str_of(member(&v, "echo")), "hello"),
        _ => panic!("Expected text message"),
    }
}

#[test]
fn test_process_message_json_ping() {
    let msg = object1("ping", JsonValue::string("hello"));
    match ws_json(msg) {
        WsDecision::Reply(WsReply::Json(v)) => assert_eq!(str_of(member(&v, "pong")), "hello"),
        _ => panic!("Expected text message"),
    }
}

#[test]
fn test_process_message_json_health() {
    let msg = object1("health", JsonValue::Bool(true));
    match ws_json(msg) {
        WsDecision::Reply(WsReply::Json(v)) => assert_eq!(str_of(member(&v, "status")), "ok"),
        _ => panic!("Expected text message"),
    }
}

#[test]
fn test_process_message_json_task_success() {
    let msg = object1("task", JsonValue::string("do work"));
    let task = match ws_json(msg) {
        WsDecision::RunTask(t) => t,
        _ => panic!("Expected a task"),
    };
    assert_eq!(task, "do work");
    let result = object2("content", JsonValue::string("Echo: do work"), "steps", JsonValue::number(3));
    let reply = ws_task_reply(Ok(result));
    assert_eq!(str_of(member(&reply, "content")), "Echo: do work");
    assert_eq!(member(&reply, "steps").as_u64(), Some(3));
}

#[test]
fn test_process_message_json_task_error() {
    let reply = ws_task_reply(Err("Failed to run task: do work".to_string()));
    assert_eq!(str_of(member(&reply, "error")), "Failed to run task: do work");
}

#[test]
fn ws_other_messages() {
    assert_eq!(ws_plain("  {\"a\":1}  ").err().unwrap(), "{\"a\":1}");
    assert!(matches!(ws_json(object1("other", JsonValue::Null)), WsDecision::Nothing));
    // a task that is not a string falls through to the other members
    let v = object2("echo", JsonValue::number(1), "task", JsonValue::number(2));
    assert!(matches!(ws_json(v), WsDecision::Reply(_)));
    let reply = ws_task_reply(Ok(JsonValue::Null));
    assert_eq!(str_of(member(&reply, "content")), "");
    assert_eq!(member(&reply, "steps").as_u64(), Some(0));
    let chars: Vec<char> = "HeLLo".chars().collect();
    assert!(eq_ignore_ascii_case(&chars, 0, 5, "hello"));
    assert!(!eq_ignore_ascii_case(&chars, 0, 4, "hello"));
}

#[test]
fn test_mcp_call_helper() {
    let ok = mcp_call_response(Ok(object1("hello", JsonValue::string("world"))), "{\"hello\":\"world\"}");
    assert_eq!(ok.content.len(), 1);
    assert_eq!(ok.content[0].kind, "text");
    assert_eq!(ok.content[0].text, "{\"hello\":\"world\"}");
    assert_eq!(ok.is_error, None);
    let s = mcp_call_response(Ok(JsonValue::string("plain")), "\"plain\"");
    assert_eq!(s.content[0].text, "plain");
    let err = mcp_call_response(Err("Unknown tool: unknown".to_string()), "");
    assert_eq!(err.content[0].text, "Error: Unknown tool: unknown");
    assert_eq!(err.is_error, Some(true));
    assert_eq!(mcp_server(), "MCP Server Fallback HTTP endpoints are registered via routes()");
}

#[test]
fn ws_message_reads_plain_and_json_messages() {
    assert!(matches!(ws_message("  PING "), Ok(WsReply::Text(t)) if t == "pong"));
    assert!(matches!(ws_message("Health\n"), Ok(WsReply::Text(t)) if t == "ok"));
    assert!(matches!(ws_message("not json"), Err(None)));
    match ws_message(" {\"task\": \"do it\"} ") {
        Err(Some(WsDecision::RunTask(t))) => assert_eq!(t, "do it"),
        _ => panic!("Expected a task"),
    }
    match ws_message("{\"echo\": \"hi\"}") {
        Err(Some(WsDecision::Reply(WsReply::Json(v)))) => {
            assert_eq!(member(&v, "echo").as_str().map(|s| s.as_str()), Some("hi"));
        }
        _ => panic!("Expected an echo"),
    }
    assert!(matches!(ws_message("{\"other\": 1}"), Err(Some(WsDecision::Nothing))));
}
