//! The browser flavour of the agent loop: no system prompt, tools found by
//! name in a list, and errors reported as plain text.
use vstd::prelude::*;
use vstd::string::*;
use crate::provider::{ToolCall, ProviderResponse};
use crate::agent_loop::{LoopError, AgentOutput};

verus! {

/// A tool call requested by the model. `args` holds the JSON text of the arguments.
#[derive(Clone, Debug, PartialEq, Eq)]
pub struct WasmToolCall {
    pub name: String,
    pub args: String,
}

/// A completion: the model's text and the tool calls it requests.
#[derive(Clone, Debug, PartialEq, Eq)]
pub struct WasmResponse {
    pub content: String,
    pub tool_calls: Vec<WasmToolCall>,
}

/// The result of a run: the final answer and the step that gave it.
#[derive(Clone, Debug, PartialEq, Eq)]
pub struct WasmOutput {
    pub content: String,
    pub steps: usize,
}

/// The loop's view of a completion: the same text and calls, with no call identifiers.
pub fn to_provider_response(r: WasmResponse) -> (p: ProviderResponse)
    ensures
        p.content == r.content,
        p.tool_calls@.len() == r.tool_calls@.len(),
        forall|i: int|
            0 <= i < r.tool_calls@.len() ==> (#[trigger] p.tool_calls@[i]).name == r.tool_calls@[i].name
                && p.tool_calls@[i].args == r.tool_calls@[i].args && p.tool_calls@[i].id@.len() == 0,
{
    let mut calls: Vec<ToolCall> = Vec::new();
    let mut i: usize = 0;
    while i < r.tool_calls.len()
        invariant
            i <= r.tool_calls@.len(),
            calls@.len() == i,
            forall|j: int|
                0 <= j < i ==> (#[trigger] calls@[j]).name == r.tool_calls@[j].name && calls@[j].args
                    == r.tool_calls@[j].args && calls@[j].id@.len() == 0,
        decreases r.tool_calls@.len() - i,
    {
        let c = ToolCall {
            id: String::new(),
            name: r.tool_calls[i].name.clone(),
            args: r.tool_calls[i].args.clone(),
        };
        calls.push(c);
        i = i + 1;
    }
    ProviderResponse { content: r.content, tool_calls: calls }
}

/// The output of a finished run, without the count of tool calls.
pub fn to_wasm_output(out: AgentOutput) -> (w: WasmOutput)
    ensures
        w.content == out.content,
        w.steps == out.steps,
{
    WasmOutput { content: out.content, steps: out.steps }
}

/// The text of a failed run: the provider's or the tool's own error text, or
/// the step-limit message.
pub open spec fn wasm_error_text(e: LoopError) -> Seq<char> {
    match e {
        LoopError::MaxSteps => "Maximum steps exceeded"@,
        LoopError::Provider(m) => m@,
        LoopError::Tool(m) => m@,
        LoopError::NoFinalResponse => "No final response received"@,
    }
}

/// The text of a failed run.
pub fn error_text(e: LoopError) -> (r: String)
    ensures
        r@ == wasm_error_text(e),
{
    match e {
        LoopError::MaxSteps => "Maximum steps exceeded".to_string(),
        LoopError::Provider(m) => m,
        LoopError::Tool(m) => m,
        LoopError::NoFinalResponse => "No final response received".to_string(),
    }
}

/// Where the first tool with the name stands in the list.
pub fn find_tool(names: &Vec<String>, name: &String) -> (r: Option<usize>)
    ensures
        match r {
            Some(k) => k < names@.len() && names@[k as int]@ == name@ && forall|j: int|
                0 <= j < k ==> names@[j]@ != name@,
            None => forall|j: int| 0 <= j < names@.len() ==> names@[j]@ != name@,
        },
{
    let mut k: usize = 0;
    while k < names.len()
        invariant
            k <= names@.len(),
            forall|j: int| 0 <= j < k ==> names@[j]@ != name@,
        decreases names@.len() - k,
    {
        if names[k] == *name {
            return Some(k);
        }
        k = k + 1;
    }
    None
}

/// The error text for a call of a tool that is not in the list.
pub fn tool_not_found(name: &str) -> (r: String)
    ensures
        r@ == "Tool not found: "@ + name@,
{
    let mut s = "Tool not found: ".to_string();
    s.append(name);
    s
}

/// The error text for a tool result that could not be written as JSON.
pub fn serialization_error(msg: &str) -> (r: String)
    ensures
        r@ == "Serialization error: "@ + msg@,
{
    let mut s = "Serialization error: ".to_string();
    s.append(msg);
    s
}

} // verus!
