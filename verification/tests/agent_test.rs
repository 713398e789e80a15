use swal_agent::agent_loop::{system_prompt, AgentOutput, LoopAction, LoopError, LoopRun};
use swal_agent::provider::{Message, MockProvider, ProviderError, ProviderResponse, ToolCall};
use swal_agent::skills::Skill;
use swal_agent::wasm::{error_text, find_tool, to_provider_response, to_wasm_output, tool_not_found, WasmResponse, WasmToolCall};

fn drive(
    mut run: LoopRun,
    mut action: LoopAction,
    provider: &mut MockProvider,
    tool: &dyn Fn(&ToolCall) -> Result<String, String>,
) -> Result<AgentOutput, LoopError> {
    loop {
        action = match action {
            LoopAction::Complete => {
                let reply = provider
                    .complete(&run.messages)
                    .map_err(|e| LoopError::Provider(e.to_string()));
                run.on_completion(reply)
            }
            LoopAction::CallTool(call) => run.on_tool_result(tool(&call)),
            LoopAction::Finish(out) => return out,
        }
    }
}

fn call(id: &str, name: &str, args: &str) -> ToolCall {
    ToolCall { id: id.to_string(), name: name.to_string(), args: args.to_string() }
}

#[test]
fn test_mock_provider_deterministic() {
    let resp1 = ProviderResponse { content: "First response".to_string(), tool_calls: vec![] };
    let resp2 = ProviderResponse {
        content: "Second response".to_string(),
        tool_calls: vec![call("call_abc", "do_something", "{}")],
    };
    let mut provider = MockProvider::new(vec![resp1.clone(), resp2.clone()]);
    let messages = vec![Message { role: "user".to_string(), content: "Hello".to_string() }];

    assert_eq!(provider.complete(&messages).unwrap(), resp1);
    assert_eq!(provider.complete(&messages).unwrap(), resp2);
    let r3 = provider.complete(&messages);
    assert!(r3.is_err());
    match r3.err().unwrap() {
        ProviderError::RequestFailed(msg) => assert!(msg.contains("No more mocked responses available")),
        _ => panic!("Expected RequestFailed error"),
    }
}

#[test]
fn test_agent_loop_roundtrip() {
    let resp1 = ProviderResponse {
        content: "Calling echo".to_string(),
        tool_calls: vec![call("call_123", "echo", r#"{"input":"hello"}"#)],
    };
    let resp2 = ProviderResponse { content: "Echo returned: hello".to_string(), tool_calls: vec![] };
    let mut provider = MockProvider::new(vec![resp1, resp2]);
    let prompt = system_prompt(&Vec::new());
    let (run, action) = LoopRun::start(Some(prompt), "Hello world", 10);
    let output = drive(run, action, &mut provider, &|c: &ToolCall| Ok(c.args.clone())).unwrap();
    assert_eq!(output.tool_calls_executed, 1);
    assert_eq!(output.content, "Echo returned: hello");
    assert_eq!(output.steps, 2);
}

#[test]
fn test_agent_loop_max_steps() {
    let looping = ProviderResponse {
        content: "Calling echo again".to_string(),
        tool_calls: vec![call("call_456", "echo", r#"{"text":"looping"}"#)],
    };
    let mut provider = MockProvider::new(vec![looping]);
    let prompt = system_prompt(&Vec::new());
    let (run, action) = LoopRun::start(Some(prompt), "trigger max steps", 1);
    let result = drive(run, action, &mut provider, &|c: &ToolCall| Ok(c.args.clone()));
    assert!(matches!(result, Err(LoopError::MaxSteps)), "Expected LoopError::MaxSteps");
}

#[test]
fn loop_with_no_steps_stops_at_once() {
    let (run, action) = LoopRun::start(None, "task", 0);
    assert!(run.finished);
    assert_eq!(action, LoopAction::Finish(Err(LoopError::MaxSteps)));
}

#[test]
fn loop_keeps_the_conversation() {
    let (mut run, action) = LoopRun::start(Some("sys".to_string()), "task", 3);
    assert_eq!(action, LoopAction::Complete);
    assert_eq!(run.messages.len(), 2);
    assert_eq!(run.messages[0].role, "system");
    assert_eq!(run.messages[1].role, "user");
    let a = run.on_completion(Ok(ProviderResponse {
        content: "thinking".to_string(),
        tool_calls: vec![call("1", "a", "{}"), call("2", "b", "[]")],
    }));
    assert_eq!(a, LoopAction::CallTool(call("1", "a", "{}")));
    let a = run.on_tool_result(Ok("r1".to_string()));
    assert_eq!(a, LoopAction::CallTool(call("2", "b", "[]")));
    let a = run.on_tool_result(Ok("r2".to_string()));
    assert_eq!(a, LoopAction::Complete);
    assert_eq!(run.step, 2);
    assert_eq!(run.tool_calls_executed, 2);
    let roles: Vec<&str> = run.messages.iter().map(|m| m.role.as_str()).collect();
    assert_eq!(roles, vec!["system", "user", "assistant", "tool", "tool"]);
    let a = run.on_completion(Ok(ProviderResponse { content: "done".to_string(), tool_calls: vec![] }));
    assert_eq!(
        a,
        LoopAction::Finish(Ok(AgentOutput { content: "done".to_string(), steps: 2, tool_calls_executed: 2 }))
    );
}

#[test]
fn loop_errors_end_the_run() {
    let (mut run, _) = LoopRun::start(None, "task", 3);
    let a = run.on_completion(Err(LoopError::Provider("down".to_string())));
    assert_eq!(a, LoopAction::Finish(Err(LoopError::Provider("down".to_string()))));
    let (mut run, _) = LoopRun::start(None, "task", 3);
    run.on_completion(Ok(ProviderResponse { content: String::new(), tool_calls: vec![call("1", "x", "{}")] }));
    let a = run.on_tool_result(Err("Tool not found: x".to_string()));
    assert_eq!(a, LoopAction::Finish(Err(LoopError::Tool("Tool not found: x".to_string()))));
}

#[test]
fn error_texts() {
    assert_eq!(LoopError::MaxSteps.to_string(), "Maximum steps exceeded");
    assert_eq!(LoopError::Provider("x".to_string()).to_string(), "Provider error: x");
    assert_eq!(LoopError::Tool("y".to_string()).to_string(), "Tool execution error: y");
    assert_eq!(LoopError::NoFinalResponse.to_string(), "No final response received");
    assert_eq!(ProviderError::RequestFailed("a".to_string()).to_string(), "Request failed: a");
    assert_eq!(ProviderError::ParseFailed("b".to_string()).to_string(), "Parse failed: b");
}

#[test]
fn system_prompt_lists_skills() {
    let skills = vec![
        Skill { name: "a".to_string(), path: "p".to_string(), description: "first".to_string(), content: String::new() },
        Skill { name: "b".to_string(), path: "q".to_string(), description: "second".to_string(), content: String::new() },
    ];
    assert_eq!(
        system_prompt(&skills),
        "You are a helpful assistant. You have access to the following skills:\n- a: first\n- b: second\n"
    );
    assert_eq!(
        system_prompt(&Vec::new()),
        "You are a helpful assistant. You have access to the following skills:\n\n"
    );
}

#[test]
fn test_wasm_loop_roundtrip() {
    let resp1 = WasmResponse {
        content: "Calling echo".to_string(),
        tool_calls: vec![WasmToolCall { name: "echo".to_string(), args: r#"{"input":"hello"}"#.to_string() }],
    };
    let resp2 = WasmResponse { content: "Final result is: hello".to_string(), tool_calls: vec![] };
    let mut provider = MockProvider::new(vec![to_provider_response(resp1), to_provider_response(resp2)]);
    let names = vec!["echo".to_string()];
    let (run, action) = LoopRun::start(None, "Hello world", 10);
    let out = drive(run, action, &mut provider, &|c: &ToolCall| match find_tool(&names, &c.name) {
        Some(_) => Ok(c.args.clone()),
        None => Err(tool_not_found(&c.name)),
    })
    .map(to_wasm_output)
    .map_err(error_text)
    .unwrap();
    assert_eq!(out.steps, 2);
    assert_eq!(out.content, "Final result is: hello");
}

#[test]
fn wasm_missing_tool_is_reported() {
    let names = vec!["echo".to_string()];
    assert_eq!(find_tool(&names, &"nope".to_string()), None);
    assert_eq!(tool_not_found("nope"), "Tool not found: nope");
    assert_eq!(error_text(LoopError::Tool("Tool not found: nope".to_string())), "Tool not found: nope");
    assert_eq!(error_text(LoopError::MaxSteps), "Maximum steps exceeded");
}
