//! The gateway's decisions: how a WebSocket message is answered, and how the
//! result of an MCP tool call is reported.
use vstd::prelude::*;
use vstd::string::*;
use crate::text::{to_chars, from_chars, trim, trim_bounds, dec};
use crate::json::{JsonValue, json_of_text, parse_json, get_spec, as_str_spec, as_u64_spec, member, object1, object2, take_member};

verus! {

/// The ASCII lower-case form of a character.
pub open spec fn ascii_lower(c: char) -> char {
    if 'A' <= c <= 'Z' {
        ((c as u32) + 32) as char
    } else {
        c
    }
}

/// Whether two texts are equal when ASCII letters are compared without case
/// (what `str::eq_ignore_ascii_case` computes).
pub open spec fn eq_ignore_ascii_case_spec(a: Seq<char>, b: Seq<char>) -> bool {
    a.len() == b.len() && forall|i: int| 0 <= i < a.len() ==> ascii_lower(a[i]) == ascii_lower(b[i])
}

fn lower(c: char) -> (r: char)
    ensures
        r == ascii_lower(c),
{
    if 'A' <= c && c <= 'Z' {
        (((c as u32) + 32) as u8) as char
    } else {
        c
    }
}

/// Whether `v[lo..hi]` equals `b` when ASCII letters are compared without case.
pub fn eq_ignore_ascii_case(v: &Vec<char>, lo: usize, hi: usize, b: &str) -> (r: bool)
    requires
        lo <= hi <= v@.len(),
    ensures
        r == eq_ignore_ascii_case_spec(v@.subrange(lo as int, hi as int), b@),
{
    let w = to_chars(b);
    if hi - lo != w.len() {
        return false;
    }
    let mut i: usize = 0;
    while i < w.len()
        invariant
            i <= w@.len(),
            hi - lo == w@.len(),
            lo <= hi <= v@.len(),
            w@ == b@,
            forall|j: int| 0 <= j < i ==> ascii_lower(v@[lo + j]) == ascii_lower(w@[j]),
        decreases w@.len() - i,
    {
        if lower(v[lo + i]) != lower(w[i]) {
            proof {
                assert(v@.subrange(lo as int, hi as int)[i as int] == v@[lo + i]);
            }
            return false;
        }
        i = i + 1;
    }
    proof {
        assert forall|j: int| 0 <= j < w@.len() implies ascii_lower(v@.subrange(lo as int, hi as int)[j])
            == ascii_lower(b@[j]) by {
            assert(v@.subrange(lo as int, hi as int)[j] == v@[lo + j]);
        }
    }
    true
}

/// The value is the string `s`.
pub open spec fn is_str(v: JsonValue, s: Seq<char>) -> bool {
    match v {
        JsonValue::Str(t) => t@ == s,
        _ => false,
    }
}

/// The value is the number written `n` in decimal.
pub open spec fn is_num(v: JsonValue, n: nat) -> bool {
    match v {
        JsonValue::Number(t) => t@ == dec(n),
        _ => false,
    }
}

/// A reply on the socket: plain text, or a JSON value to be written as text.
#[derive(Debug)]
pub enum WsReply {
    Text(String),
    Json(JsonValue),
}

/// What to do with a JSON message.
#[derive(Debug)]
pub enum WsDecision {
    /// Send this reply.
    Reply(WsReply),
    /// Run the task, and answer with what `ws_task_reply` makes of its result.
    RunTask(String),
    /// Send nothing.
    Nothing,
}

/// Answers the plain `ping` and `health` messages (white space around them and
/// the case of ASCII letters do not matter); any other message is handed back
/// trimmed, to be read as JSON.
pub fn ws_plain(text: &str) -> (r: Result<WsReply, String>)
    ensures
        eq_ignore_ascii_case_spec(trim(text@), "ping"@) ==> (r matches Ok(WsReply::Text(t)) && t@
            == "pong"@),
        !eq_ignore_ascii_case_spec(trim(text@), "ping"@) && eq_ignore_ascii_case_spec(
            trim(text@),
            "health"@,
        ) ==> (r matches Ok(WsReply::Text(t)) && t@ == "ok"@),
        !eq_ignore_ascii_case_spec(trim(text@), "ping"@) && !eq_ignore_ascii_case_spec(
            trim(text@),
            "health"@,
        ) ==> (r matches Err(t) && t@ == trim(text@)),
{
    let v = to_chars(text);
    let (a, b) = trim_bounds(&v, 0, v.len());
    proof {
        assert(v@.subrange(0, v@.len() as int) =~= text@);
    }
    if eq_ignore_ascii_case(&v, a, b, "ping") {
        return Ok(WsReply::Text("pong".to_string()));
    }
    if eq_ignore_ascii_case(&v, a, b, "health") {
        return Ok(WsReply::Text("ok".to_string()));
    }
    Err(from_chars(&v, a, b))
}

/// Whether `r` is what a JSON message asks for: a `task` text runs that task;
/// otherwise an `echo` member is echoed back as `{"echo": …}`, a `ping` member as
/// `{"pong": …}`, and a `health` member is answered `{"status": "ok"}`; any
/// other message gets no reply.
pub open spec fn ws_json_decision(json: JsonValue, r: WsDecision) -> bool {
    match as_str_spec(get_spec(json, "task"@)) {
        Some(t) => r matches WsDecision::RunTask(x) && x@ == t,
        None => match get_spec(json, "echo"@) {
            Some(e) => r matches WsDecision::Reply(WsReply::Json(JsonValue::Object(m))) && m@.len()
                == 1 && m@[0].0@ == "echo"@ && m@[0].1 == e,
            None => match get_spec(json, "ping"@) {
                Some(p) => r matches WsDecision::Reply(WsReply::Json(JsonValue::Object(m)))
                    && m@.len() == 1 && m@[0].0@ == "pong"@ && m@[0].1 == p,
                None => if get_spec(json, "health"@) is Some {
                    r matches WsDecision::Reply(WsReply::Json(JsonValue::Object(m))) && m@.len()
                        == 1 && m@[0].0@ == "status"@ && is_str(m@[0].1, "ok"@)
                } else {
                    r is Nothing
                },
            },
        },
    }
}

/// What a JSON message asks for (see `ws_json_decision`).
pub fn ws_json(json: JsonValue) -> (r: WsDecision)
    ensures
        ws_json_decision(json, r),
{
    match json.get("task") {
        Some(t) => match t.as_str() {
            Some(s) => {
                return WsDecision::RunTask(s.clone());
            },
            None => {},
        },
        None => {},
    }
    let has_echo = json.get("echo").is_some();
    let has_ping = json.get("ping").is_some();
    let has_health = json.get("health").is_some();
    if has_echo {
        match take_member(json, "echo") {
            Some(e) => WsDecision::Reply(WsReply::Json(object1("echo", e))),
            None => WsDecision::Nothing,
        }
    } else if has_ping {
        match take_member(json, "ping") {
            Some(p) => WsDecision::Reply(WsReply::Json(object1("pong", p))),
            None => WsDecision::Nothing,
        }
    } else if has_health {
        WsDecision::Reply(WsReply::Json(object1("status", JsonValue::string("ok"))))
    } else {
        WsDecision::Nothing
    }
}

/// Reads one WebSocket text message: the plain `ping` and `health` messages are
/// answered at once (`Ok`); any other message, trimmed, is read as JSON, and gives
/// `Err(None)` when it is not JSON, else `Err(Some(d))` with what it asks for.
pub fn ws_message(text: &str) -> (r: Result<WsReply, Option<WsDecision>>)
    ensures
        eq_ignore_ascii_case_spec(trim(text@), "ping"@) ==> (r matches Ok(WsReply::Text(t)) && t@
            == "pong"@),
        !eq_ignore_ascii_case_spec(trim(text@), "ping"@) && eq_ignore_ascii_case_spec(
            trim(text@),
            "health"@,
        ) ==> (r matches Ok(WsReply::Text(t)) && t@ == "ok"@),
        !eq_ignore_ascii_case_spec(trim(text@), "ping"@) && !eq_ignore_ascii_case_spec(
            trim(text@),
            "health"@,
        ) ==> match json_of_text(trim(text@)) {
            None => r matches Err(None),
            Some(j) => r matches Err(Some(d)) && ws_json_decision(j, d),
        },
{
    match ws_plain(text) {
        Ok(reply) => Ok(reply),
        Err(trimmed) => match parse_json(trimmed.as_str()) {
            None => Err(None),
            Some(j) => Err(Some(ws_json(j))),
        },
    }
}

/// The reply to a task's result: `{"content": …, "steps": …}` from the
/// result's `content` text (empty when missing) and `steps` count (0 when
/// missing), or `{"error": …}` with the error's text.
pub fn ws_task_reply(result: Result<JsonValue, String>) -> (r: JsonValue)
    ensures
        match result {
            Ok(v) => r matches JsonValue::Object(m) && m@.len() == 2 && m@[0].0@ == "content"@
                && m@[1].0@ == "steps"@ && is_str(
                m@[0].1,
                match as_str_spec(get_spec(v, "content"@)) {
                    Some(c) => c,
                    None => Seq::<char>::empty(),
                },
            ) && is_num(
                m@[1].1,
                match as_u64_spec(get_spec(v, "steps"@)) {
                    Some(k) => k as nat,
                    None => 0,
                },
            ),
            Err(e) => r matches JsonValue::Object(m) && m@.len() == 1 && m@[0].0@ == "error"@
                && is_str(m@[0].1, e@),
        },
{
    match result {
        Ok(v) => {
            let content = match v.get("content") {
                Some(c) => match c.as_str() {
                    Some(s) => s.clone(),
                    None => String::new(),
                },
                None => String::new(),
            };
            let steps: u64 = match v.get("steps") {
                Some(s) => match s.as_u64() {
                    Some(k) => k,
                    None => 0,
                },
                None => 0,
            };
            object2("content", JsonValue::Str(content), "steps", JsonValue::number(steps))
        },
        Err(e) => object1("error", JsonValue::Str(e)),
    }
}

/// A tool as an MCP server describes it.
#[derive(Debug)]
pub struct McpToolInfo {
    pub name: String,
    pub description: String,
    pub input_schema: JsonValue,
}

/// A text part of an MCP tool result; `kind` is the part's type, `"text"`.
#[derive(Clone, Debug, PartialEq, Eq)]
pub struct McpCallTextContent {
    pub kind: String,
    pub text: String,
}

/// The result of an MCP tool call.
#[derive(Clone, Debug, PartialEq, Eq)]
pub struct McpCallResponse {
    pub content: Vec<McpCallTextContent>,
    pub is_error: Option<bool>,
}

/// The message of the gateway's MCP entry point.
pub fn mcp_server() -> (r: String)
    ensures
        r@ == "MCP Server Fallback HTTP endpoints are registered via routes()"@,
{
    "MCP Server Fallback HTTP endpoints are registered via routes()".to_string()
}

/// The response to a tool call: one text part holding the result (a string as
/// itself, any other value as its JSON text `rendered`), or `Error: …` with
/// the error flag set.
pub fn mcp_call_response(result: Result<JsonValue, String>, rendered: &str) -> (r: McpCallResponse)
    ensures
        r.content@.len() == 1,
        r.content@[0].kind@ == "text"@,
        match result {
            Ok(JsonValue::Str(s)) => r.content@[0].text@ == s@ && r.is_error is None,
            Ok(_) => r.content@[0].text@ == rendered@ && r.is_error is None,
            Err(e) => r.content@[0].text@ == "Error: "@ + e@ && r.is_error == Some(true),
        },
{
    let (text, is_error) = match result {
        Ok(JsonValue::Str(s)) => (s, None),
        Ok(_) => (rendered.to_string(), None),
        Err(e) => {
            let mut t = "Error: ".to_string();
            t.append(e.as_str());
            (t, Some(true))
        },
    };
    let mut content: Vec<McpCallTextContent> = Vec::new();
    content.push(McpCallTextContent { kind: "text".to_string(), text });
    McpCallResponse { content, is_error }
}

} // verus!
