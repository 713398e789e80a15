//! The MCP client's operations as steps: connecting, listing the tools and
//! calling one. Each operation says which JSON-RPC request to send next and,
//! given the server's reply, what follows: another request or the outcome.
//! Sending the requests is left to the caller.
use vstd::prelude::*;
use crate::json::{JsonValue, get_spec};
use crate::mcp_client::{
    McpClient, McpError, McpTool, init_params, call_params, tools_from_result, tool_listed,
    not_connected_text, is_empty_object, is_init_params, is_call_params, text_member,
};

verus! {

/// A JSON-RPC request to send: its method and parameters.
#[derive(Debug)]
pub struct McpRequest {
    pub method: String,
    pub params: JsonValue,
}

/// What to do next in an operation.
#[derive(Debug)]
pub enum McpStep {
    /// Send the request and hand its reply to `McpFlow::on_reply`.
    Send(McpRequest),
    /// The server accepted the connection.
    Connected,
    /// The tools the server lists.
    Tools(Vec<McpTool>),
    /// The result of a tool call.
    Called(JsonValue),
    /// The operation failed.
    Failed(McpError),
}

/// Where an operation stands.
#[derive(Debug)]
pub enum McpStage {
    /// Waiting for the reply to `initialize`.
    Initializing,
    /// Waiting for the reply to `notifications/initialized`.
    Notifying,
    /// Waiting for the reply to `tools/list`.
    Listing,
    /// Waiting for the reply to `tools/list` before calling the named tool.
    Checking { name: String, args: JsonValue },
    /// Waiting for the reply to `tools/call`.
    Calling,
    /// The operation is over.
    Finished,
}

/// An operation of the MCP client in progress.
#[derive(Debug)]
pub struct McpFlow {
    pub stage: McpStage,
}

/// The step sends a request with the method.
pub open spec fn sends(step: McpStep, method: Seq<char>) -> bool {
    step matches McpStep::Send(req) && req.method@ == method
}

/// The parameters of the request that the step sends.
pub open spec fn sent_params(step: McpStep) -> JsonValue {
    match step {
        McpStep::Send(req) => req.params,
        _ => JsonValue::Null,
    }
}

/// The `tools` array of a `tools/list` result, when it has one.
pub open spec fn tools_listing(res: JsonValue) -> Option<Seq<JsonValue>> {
    match get_spec(res, "tools"@) {
        Some(JsonValue::Array(items)) => Some(items@),
        _ => None,
    }
}

/// The tools are those of the listing, each by its `name` and `description`
/// texts (empty when missing).
pub open spec fn tools_of(items: Seq<JsonValue>, tools: Seq<McpTool>) -> bool {
    tools.len() == items.len() && forall|i: int|
        0 <= i < items.len() ==> (#[trigger] tools[i]).name@ == text_member(items[i], "name"@)
            && tools[i].description@ == text_member(items[i], "description"@)
}

/// Some tool of the listing has the name.
pub open spec fn names_tool(items: Seq<JsonValue>, name: Seq<char>) -> bool {
    exists|i: int| 0 <= i < items.len() && text_member(items[i], "name"@) == name
}

/// The error of a `tools/list` result that has no `tools` array.
pub open spec fn invalid_listing(step: McpStep) -> bool {
    step matches McpStep::Failed(McpError::JsonRpc(m)) && m@
        == "Invalid tools/list response structure"@
}

/// What follows a reply, by the stage that waited for it.
pub open spec fn reply_spec(
    stage: McpStage,
    reply: Result<JsonValue, McpError>,
    step: McpStep,
    next: McpStage,
) -> bool {
    match stage {
        McpStage::Initializing => match reply {
            Err(e) => step == McpStep::Failed(e) && next is Finished,
            Ok(_) => sends(step, "notifications/initialized"@) && is_empty_object(sent_params(step))
                && next is Notifying,
        },
        McpStage::Notifying => step is Connected && next is Finished,
        McpStage::Listing => next is Finished && match reply {
            Err(e) => step == McpStep::Failed(e),
            Ok(res) => match tools_listing(res) {
                Some(items) => step matches McpStep::Tools(t) && tools_of(items, t@),
                None => invalid_listing(step),
            },
        },
        McpStage::Checking { name, args } => match reply {
            Err(e) => step == McpStep::Failed(e) && next is Finished,
            Ok(res) => match tools_listing(res) {
                Some(items) => if names_tool(items, name@) {
                    sends(step, "tools/call"@) && is_call_params(sent_params(step), name@, args)
                        && next is Calling
                } else {
                    step matches McpStep::Failed(McpError::ToolNotFound(m)) && m@ == name@
                        && next is Finished
                },
                None => invalid_listing(step) && next is Finished,
            },
        },
        McpStage::Calling => next is Finished && match reply {
            Err(e) => step == McpStep::Failed(e),
            Ok(r) => step == McpStep::Called(r),
        },
        McpStage::Finished => false,
    }
}

/// Sends a request.
fn send(method: &str, params: JsonValue) -> (r: McpStep)
    ensures
        sends(r, method@),
        sent_params(r) == params,
{
    McpStep::Send(McpRequest { method: method.to_string(), params })
}

/// An object with no member.
fn empty_object() -> (r: JsonValue)
    ensures
        is_empty_object(r),
{
    JsonValue::Object(Vec::new())
}

/// The error of an operation on a client that is not initialized.
pub open spec fn not_initialized(step: McpStep) -> bool {
    step matches McpStep::Failed(McpError::Connect(m)) && m@ == not_connected_text()
}

impl McpFlow {
    /// Starts connecting to `url`: the client takes the resolved URL, and the
    /// `initialize` request is sent.
    pub fn connect(client: &mut McpClient, url: &str) -> (r: (McpFlow, McpStep))
        ensures
            final(client).url matches Some(u) && u@ == crate::mcp_client::resolve_url_spec(url@),
            final(client).initialized == old(client).initialized,
            r.0.stage is Initializing,
            sends(r.1, "initialize"@),
            is_init_params(sent_params(r.1)),
    {
        client.set_url(url);
        (McpFlow { stage: McpStage::Initializing }, send("initialize", init_params()))
    }

    /// Starts listing the tools: the `tools/list` request is sent, or the
    /// operation fails at once when the client is not initialized.
    pub fn list_tools(client: &McpClient) -> (r: (McpFlow, McpStep))
        ensures
            client.initialized ==> r.0.stage is Listing && sends(r.1, "tools/list"@)
                && is_empty_object(sent_params(r.1)),
            !client.initialized ==> r.0.stage is Finished && not_initialized(r.1),
    {
        match client.check_initialized() {
            Err(e) => (McpFlow { stage: McpStage::Finished }, McpStep::Failed(e)),
            Ok(()) => (McpFlow { stage: McpStage::Listing }, send("tools/list", empty_object())),
        }
    }

    /// Starts calling the named tool: the tools are listed first, to check that
    /// the server offers it; the operation fails at once when the client is not
    /// initialized.
    pub fn call_tool(client: &McpClient, name: &str, args: JsonValue) -> (r: (McpFlow, McpStep))
        ensures
            client.initialized ==> (r.0.stage matches McpStage::Checking { name: n, args: a }
                && n@ == name@ && a == args) && sends(r.1, "tools/list"@) && is_empty_object(
                sent_params(r.1),
            ),
            !client.initialized ==> r.0.stage is Finished && not_initialized(r.1),
    {
        match client.check_initialized() {
            Err(e) => (McpFlow { stage: McpStage::Finished }, McpStep::Failed(e)),
            Ok(()) => (
                McpFlow { stage: McpStage::Checking { name: name.to_string(), args } },
                send("tools/list", empty_object()),
            ),
        }
    }

    /// Takes the reply to the request last sent and says what follows (see
    /// `reply_spec`); an accepted `initialize` marks the client initialized.
    pub fn on_reply(&mut self, client: &mut McpClient, reply: Result<JsonValue, McpError>) -> (r:
        McpStep)
        requires
            !(old(self).stage is Finished),
        ensures
            reply_spec(old(self).stage, reply, r, final(self).stage),
            final(client).url == old(client).url,
            final(client).initialized == (old(client).initialized || (old(self).stage is Initializing
                && reply is Ok)),
    {
        let mut stage = McpStage::Finished;
        std::mem::swap(&mut stage, &mut self.stage);
        match stage {
            McpStage::Initializing => match reply {
                Err(e) => McpStep::Failed(e),
                Ok(_) => {
                    client.mark_initialized();
                    self.stage = McpStage::Notifying;
                    send("notifications/initialized", empty_object())
                },
            },
            McpStage::Notifying => McpStep::Connected,
            McpStage::Listing => match reply {
                Err(e) => McpStep::Failed(e),
                Ok(res) => match tools_from_result(&res) {
                    Ok(tools) => McpStep::Tools(tools),
                    Err(e) => McpStep::Failed(e),
                },
            },
            McpStage::Checking { name, args } => match reply {
                Err(e) => McpStep::Failed(e),
                Ok(res) => match tools_from_result(&res) {
                    Err(e) => McpStep::Failed(e),
                    Ok(tools) => {
                        let listed = tool_listed(&tools, name.as_str());
                        proof {
                            let items = tools_listing(res)->0;
                            if listed {
                                let i = choose|i: int|
                                    0 <= i < tools@.len() && tools@[i].name@ == name@;
                                assert(text_member(items[i], "name"@) == name@);
                            } else {
                                assert forall|i: int| 0 <= i < items.len() implies text_member(
                                    items[i],
                                    "name"@,
                                ) != name@ by {
                                    assert(tools@[i].name@ == text_member(items[i], "name"@));
                                }
                            }
                        }
                        if listed {
                            self.stage = McpStage::Calling;
                            send("tools/call", call_params(name.as_str(), args))
                        } else {
                            McpStep::Failed(McpError::ToolNotFound(name))
                        }
                    },
                },
            },
            McpStage::Calling => match reply {
                Err(e) => McpStep::Failed(e),
                Ok(r) => McpStep::Called(r),
            },
            McpStage::Finished => McpStep::Connected,
        }
    }
}

} // verus!
