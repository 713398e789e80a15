//! The fallback MCP client: where it connects, what JSON-RPC requests it
//! sends over HTTP, and how it reads the replies and the list of tools.
use vstd::prelude::*;
use vstd::string::*;
use crate::text::{
    to_chars, from_chars, sub_chars, matches_at, find_from, first_occurrence, starts_with,
    parse_unsigned, parse_unsigned_range, int_error_message, int_error_string, byte_len, dec,
    usize_to_string, str_eq,
};
use crate::json::{JsonValue, json_of_text, read_json, get_spec, as_str_spec, object1, object2, take_member};

use crate::http_reply::{lossy_utf8, decode_lossy};

verus! {

/// A tool offered by an MCP server.
#[derive(Clone, Debug, PartialEq, Eq)]
pub struct McpTool {
    pub name: String,
    pub description: String,
}

/// Why an MCP request failed.
#[derive(Clone, Debug, PartialEq, Eq)]
pub enum McpError {
    Connect(String),
    JsonRpc(String),
    ToolNotFound(String),
}

/// The text of an MCP error.
pub open spec fn mcp_error_text(e: McpError) -> Seq<char> {
    match e {
        McpError::Connect(m) => "Connect error: "@ + m@,
        McpError::JsonRpc(m) => "JSON-RPC error: "@ + m@,
        McpError::ToolNotFound(m) => "Tool not found: "@ + m@,
    }
}

impl McpError {
    /// The text of the error.
    pub fn to_string(&self) -> (r: String)
        ensures
            r@ == mcp_error_text(*self),
    {
        let (mut s, m) = match self {
            McpError::Connect(m) => ("Connect error: ".to_string(), m),
            McpError::JsonRpc(m) => ("JSON-RPC error: ".to_string(), m),
            McpError::ToolNotFound(m) => ("Tool not found: ".to_string(), m),
        };
        s.append(m.as_str());
        s
    }
}

/// Where a URL points: host, port (80 by default) and path (`/` by default).
/// `https://` is refused; a URL without a scheme is read as host and path.
pub open spec fn parse_url_spec(url: Seq<char>) -> Result<(Seq<char>, u16, Seq<char>), Seq<char>> {
    if starts_with(url, "https://"@) && !starts_with(url, "http://"@) {
        Err("https is not supported in this fallback client"@)
    } else {
        let s = if starts_with(url, "http://"@) {
            url.skip(7)
        } else {
            url
        };
        let hp = match first_occurrence(s, 0, seq!['/']) {
            Some(i) => s.take(i),
            None => s,
        };
        let path = match first_occurrence(s, 0, seq!['/']) {
            Some(i) => s.skip(i),
            None => "/"@,
        };
        match first_occurrence(hp, 0, seq![':']) {
            Some(j) => match parse_unsigned(hp.skip(j + 1), 65535) {
                Ok(port) => Ok((hp.take(j), port as u16, path)),
                Err(e) => Err(int_error_message(e)),
            },
            None => Ok((hp, 80u16, path)),
        }
    }
}

/// Reads the host, port and path of a URL.
pub fn parse_url(url: &str) -> (r: Result<(String, u16, String), String>)
    ensures
        match (r, parse_url_spec(url@)) {
            (Ok((h, p, f)), Ok((h2, p2, f2))) => h@ == h2 && p == p2 && f@ == f2,
            (Err(e), Err(e2)) => e@ == e2,
            _ => false,
        },
{
    let v = to_chars(url);
    let http = to_chars("http://");
    let https = to_chars("https://");
    proof {
        reveal_strlit("http://");
        reveal_strlit("https://");
    }
    let is_http = matches_at(&v, 0, &http);
    if !is_http && matches_at(&v, 0, &https) {
        return Err("https is not supported in this fallback client".to_string());
    }
    let s = if is_http {
        sub_chars(&v, 7, v.len())
    } else {
        sub_chars(&v, 0, v.len())
    };
    proof {
        if is_http {
            assert(s@ =~= v@.skip(7));
        } else {
            assert(s@ =~= v@);
        }
    }
    let slash = vec!['/'];
    proof {
        assert(slash@ =~= seq!['/']);
    }
    let (hp, path) = match find_from(&s, 0, &slash) {
        Some(i) => {
            let hp = sub_chars(&s, 0, i);
            let path = from_chars(&s, i, s.len());
            proof {
                assert(hp@ =~= s@.take(i as int));
                assert(path@ =~= s@.skip(i as int));
            }
            (hp, path)
        },
        None => {
            let hp = sub_chars(&s, 0, s.len());
            proof {
                assert(hp@ =~= s@);
            }
            (hp, "/".to_string())
        },
    };
    let colon = vec![':'];
    proof {
        assert(colon@ =~= seq![':']);
    }
    match find_from(&hp, 0, &colon) {
        Some(j) => {
            proof {
                assert(hp@.subrange(j + 1, hp@.len() as int) =~= hp@.skip(j + 1));
            }
            match parse_unsigned_range(&hp, j + 1, hp.len(), 65535) {
                Ok(port) => {
                    let host = from_chars(&hp, 0, j);
                    proof {
                        assert(host@ =~= hp@.take(j as int));
                    }
                    Ok((host, port as u16, path))
                },
                Err(k) => Err(int_error_string(k)),
            }
        },
        None => {
            let host = from_chars(&hp, 0, hp.len());
            proof {
                assert(hp@.subrange(0, hp@.len() as int) =~= hp@);
            }
            Ok((host, 80, path))
        },
    }
}

/// The URL the client connects to: `/mcp` is added to a URL that names no path.
pub open spec fn resolve_url_spec(url: Seq<char>) -> Seq<char> {
    if starts_with(url, "http://"@) {
        if first_occurrence(url.skip(7), 0, seq!['/']) is None {
            url + "/mcp"@
        } else {
            url
        }
    } else if first_occurrence(url, 0, seq!['/']) is None {
        url + "/mcp"@
    } else {
        url
    }
}

/// The URL the client connects to for `url`.
pub fn resolve_url(url: &str) -> (r: String)
    ensures
        r@ == resolve_url_spec(url@),
{
    let v = to_chars(url);
    let http = to_chars("http://");
    proof {
        reveal_strlit("http://");
    }
    let slash = vec!['/'];
    proof {
        assert(slash@ =~= seq!['/']);
    }
    let needs_path = if matches_at(&v, 0, &http) {
        let rest = sub_chars(&v, 7, v.len());
        proof {
            assert(rest@ =~= v@.skip(7));
        }
        find_from(&rest, 0, &slash).is_none()
    } else {
        find_from(&v, 0, &slash).is_none()
    };
    let mut r = url.to_string();
    if needs_path {
        r.append("/mcp");
    }
    r
}

/// The connection state of the client: the URL it uses, and whether the
/// server accepted its `initialize` request.
#[derive(Clone, Debug, PartialEq, Eq)]
pub struct McpClient {
    pub url: Option<String>,
    pub initialized: bool,
}

/// The error of a request made before the client is initialized.
pub open spec fn not_connected_text() -> Seq<char> {
    "Not connected/initialized"@
}

impl McpClient {
    /// A client that is not connected.
    pub fn new() -> (r: McpClient)
        ensures
            r.url is None,
            !r.initialized,
    {
        McpClient { url: None, initialized: false }
    }

    /// Starts connecting: the client will use the resolved URL.
    pub fn set_url(&mut self, url: &str)
        ensures
            final(self).url matches Some(u) && u@ == resolve_url_spec(url@),
            final(self).initialized == old(self).initialized,
    {
        self.url = Some(resolve_url(url));
    }

    /// Records that the server accepted the `initialize` request.
    pub fn mark_initialized(&mut self)
        ensures
            final(self).initialized,
            final(self).url == old(self).url,
    {
        self.initialized = true;
    }

    /// Where requests go: the client's URL, or an error before it has one.
    pub fn target_url(&self) -> (r: Result<String, McpError>)
        ensures
            match self.url {
                Some(u) => r matches Ok(x) && x@ == u@,
                None => r matches Err(McpError::Connect(m)) && m@ == "Not connected"@,
            },
    {
        match &self.url {
            Some(u) => Ok(u.clone()),
            None => Err(McpError::Connect("Not connected".to_string())),
        }
    }

    /// Requests other than `initialize` need an initialized client.
    pub fn check_initialized(&self) -> (r: Result<(), McpError>)
        ensures
            self.initialized ==> r is Ok,
            !self.initialized ==> (r matches Err(McpError::Connect(m)) && m@ == not_connected_text()),
    {
        if self.initialized {
            Ok(())
        } else {
            Err(McpError::Connect("Not connected/initialized".to_string()))
        }
    }
}

/// The value is the string `s`.
pub open spec fn is_text(v: JsonValue, s: Seq<char>) -> bool {
    match v {
        JsonValue::Str(t) => t@ == s,
        _ => false,
    }
}

/// The value is an object with no member.
pub open spec fn is_empty_object(v: JsonValue) -> bool {
    match v {
        JsonValue::Object(m) => m@.len() == 0,
        _ => false,
    }
}

/// The client's identity: `{"name": "swal-agent", "version": "0.1.0"}`.
pub open spec fn is_client_info(v: JsonValue) -> bool {
    match v {
        JsonValue::Object(m) => m@.len() == 2 && m@[0].0@ == "name"@ && is_text(m@[0].1, "swal-agent"@)
            && m@[1].0@ == "version"@ && is_text(m@[1].1, "0.1.0"@),
        _ => false,
    }
}

/// The parameters of the `initialize` request: no capabilities, the client's
/// identity, and protocol version `2024-11-05`.
pub open spec fn is_init_params(r: JsonValue) -> bool {
    r matches JsonValue::Object(m) && m@.len() == 3 && m@[0].0@ == "capabilities"@
        && is_empty_object(m@[0].1) && m@[1].0@ == "clientInfo"@ && is_client_info(m@[1].1)
        && m@[2].0@ == "protocolVersion"@ && is_text(m@[2].1, "2024-11-05"@)
}

/// The parameters of the `initialize` request (see `is_init_params`).
pub fn init_params() -> (r: JsonValue)
    ensures
        is_init_params(r),
{
    let caps = JsonValue::Object(Vec::new());
    let info = object2("name", JsonValue::string("swal-agent"), "version", JsonValue::string("0.1.0"));
    let mut m: Vec<(String, JsonValue)> = Vec::new();
    m.push(("capabilities".to_string(), caps));
    m.push(("clientInfo".to_string(), info));
    m.push(("protocolVersion".to_string(), JsonValue::string("2024-11-05")));
    JsonValue::Object(m)
}

/// A JSON-RPC 2.0 request with identifier 1.
pub fn rpc_request(method: &str, params: JsonValue) -> (r: JsonValue)
    ensures
        r matches JsonValue::Object(m) && m@.len() == 4 && m@[0].0@ == "id"@ && (m@[0].1 matches JsonValue::Number(n)
            && n@ == dec(1)) && m@[1].0@ == "jsonrpc"@ && is_text(m@[1].1, "2.0"@) && m@[2].0@ == "method"@
            && is_text(m@[2].1, method@) && m@[3].0@ == "params"@ && m@[3].1 == params,
{
    let mut m: Vec<(String, JsonValue)> = Vec::new();
    m.push(("id".to_string(), JsonValue::number(1)));
    m.push(("jsonrpc".to_string(), JsonValue::string("2.0")));
    m.push(("method".to_string(), JsonValue::string(method)));
    m.push(("params".to_string(), params));
    JsonValue::Object(m)
}

/// The parameters of a `tools/call` request: the arguments and the tool's name.
pub open spec fn is_call_params(r: JsonValue, name: Seq<char>, args: JsonValue) -> bool {
    r matches JsonValue::Object(m) && m@.len() == 2 && m@[0].0@ == "arguments"@ && m@[0].1 == args
        && m@[1].0@ == "name"@ && is_text(m@[1].1, name)
}

/// The parameters of a `tools/call` request (see `is_call_params`).
pub fn call_params(name: &str, args: JsonValue) -> (r: JsonValue)
    ensures
        is_call_params(r, name@, args),
{
    object2("arguments", args, "name", JsonValue::string(name))
}

/// The HTTP request that posts a JSON-RPC body.
pub open spec fn http_request_spec(path: Seq<char>, host: Seq<char>, body: Seq<char>) -> Seq<char> {
    "POST "@ + path + " HTTP/1.1\r\nHost: "@ + host
        + "\r\nContent-Type: application/json\r\nContent-Length: "@ + dec(byte_len(body))
        + "\r\nConnection: close\r\n\r\n"@ + body
}

/// The HTTP request that posts `body` to `path` on `host`.
pub fn http_request(path: &str, host: &str, body: &str) -> (r: String)
    requires
        byte_len(body@) <= usize::MAX,
    ensures
        r@ == http_request_spec(path@, host@, body@),
{
    let mut r = "POST ".to_string();
    r.append(path);
    r.append(" HTTP/1.1\r\nHost: ");
    r.append(host);
    r.append("\r\nContent-Type: application/json\r\nContent-Length: ");
    let n = usize_to_string(body.len());
    r.append(n.as_str());
    r.append("\r\nConnection: close\r\n\r\n");
    r.append(body);
    r
}

/// The body of an HTTP reply: what follows the first blank line, when the
/// headers report `200 OK`.
pub open spec fn reply_body_spec(t: Seq<char>) -> Result<Seq<char>, Seq<char>> {
    match first_occurrence(t, 0, seq!['\r', '\n', '\r', '\n']) {
        None => Err("No HTTP body found"@),
        Some(i) => if first_occurrence(t.take(i), 0, "200 OK"@) is None {
            Err("Server returned non-200 status. Headers: "@ + t.take(i))
        } else {
            Ok(t.skip(i + 4))
        },
    }
}

/// The body of an HTTP reply.
pub fn reply_body(text: &str) -> (r: Result<String, String>)
    ensures
        match (r, reply_body_spec(text@)) {
            (Ok(b), Ok(b2)) => b@ == b2,
            (Err(e), Err(e2)) => e@ == e2,
            _ => false,
        },
{
    let v = to_chars(text);
    let sep = vec!['\r', '\n', '\r', '\n'];
    proof {
        assert(sep@ =~= seq!['\r', '\n', '\r', '\n']);
    }
    let i = match find_from(&v, 0, &sep) {
        Some(i) => i,
        None => {
            return Err("No HTTP body found".to_string());
        },
    };
    let head = sub_chars(&v, 0, i);
    proof {
        assert(head@ =~= v@.take(i as int));
    }
    let ok = to_chars("200 OK");
    if find_from(&head, 0, &ok).is_none() {
        let mut msg = "Server returned non-200 status. Headers: ".to_string();
        let h = from_chars(&v, 0, i);
        msg.append(h.as_str());
        return Err(msg);
    }
    let b = from_chars(&v, i + 4, v.len());
    proof {
        assert(b@ =~= v@.skip(i + 4));
    }
    Ok(b)
}

/// What a JSON-RPC reply holds.
#[derive(Debug)]
pub enum RpcOutcome {
    /// The reply's `error` member.
    Error(JsonValue),
    /// The reply's `result` member.
    Result(JsonValue),
    /// The reply has neither.
    MissingResult,
}

/// What a JSON-RPC reply holds: an `error` member wins over a `result` member.
pub open spec fn rpc_outcome_spec(reply: JsonValue) -> RpcOutcome {
    match get_spec(reply, "error"@) {
        Some(e) => RpcOutcome::Error(e),
        None => match get_spec(reply, "result"@) {
            Some(x) => RpcOutcome::Result(x),
            None => RpcOutcome::MissingResult,
        },
    }
}

/// Reads a JSON-RPC reply (see `rpc_outcome_spec`).
pub fn rpc_outcome(reply: JsonValue) -> (r: RpcOutcome)
    ensures
        r == rpc_outcome_spec(reply),
{
    if reply.get("error").is_some() {
        match take_member(reply, "error") {
            Some(e) => RpcOutcome::Error(e),
            None => RpcOutcome::MissingResult,
        }
    } else if reply.get("result").is_some() {
        match take_member(reply, "result") {
            Some(x) => RpcOutcome::Result(x),
            None => RpcOutcome::MissingResult,
        }
    } else {
        RpcOutcome::MissingResult
    }
}

/// Reads the bytes of the HTTP reply to a JSON-RPC request: they are decoded
/// (invalid sequences replaced), the body is taken as `reply_body` takes it and
/// read as JSON, and the JSON-RPC outcome is returned. The error texts are those
/// of `reply_body`, and `Failed to parse response JSON: {e}. Body: {body}` when the
/// body is not JSON, with `{e}` the JSON reader's message.
pub fn read_rpc_reply(bytes: &[u8]) -> (r: Result<RpcOutcome, String>)
    ensures
        match reply_body_spec(lossy_utf8(bytes@)) {
            Err(e) => r matches Err(m) && m@ == e,
            Ok(b) => match json_of_text(b) {
                None => r matches Err(m) && exists|e: Seq<char>|
                    m@ == "Failed to parse response JSON: "@ + e + ". Body: "@ + b,
                Some(v) => r matches Ok(o) && o == rpc_outcome_spec(v),
            },
        },
{
    let text = decode_lossy(bytes);
    let body = match reply_body(text.as_str()) {
        Ok(b) => b,
        Err(e) => {
            return Err(e);
        },
    };
    match read_json(body.as_str()) {
        Ok(v) => Ok(rpc_outcome(v)),
        Err(e) => {
            let mut msg = "Failed to parse response JSON: ".to_string();
            msg.append(e.as_str());
            msg.append(". Body: ");
            msg.append(body.as_str());
            proof {
                assert(msg@ == "Failed to parse response JSON: "@ + e@ + ". Body: "@ + body@);
            }
            Err(msg)
        },
    }
}

/// A text member of a value, or the empty text.
pub open spec fn text_member(v: JsonValue, key: Seq<char>) -> Seq<char> {
    match as_str_spec(get_spec(v, key)) {
        Some(s) => s,
        None => Seq::empty(),
    }
}

/// The tools of a `tools/list` result: its `tools` array, each tool by its
/// `name` and `description` texts (empty when missing).
pub fn tools_from_result(res: &JsonValue) -> (r: Result<Vec<McpTool>, McpError>)
    ensures
        match get_spec(*res, "tools"@) {
            Some(JsonValue::Array(items)) => r matches Ok(tools) && tools@.len() == items@.len()
                && forall|i: int|
                0 <= i < items@.len() ==> (#[trigger] tools@[i]).name@ == text_member(items@[i], "name"@)
                    && tools@[i].description@ == text_member(items@[i], "description"@),
            _ => r matches Err(McpError::JsonRpc(m)) && m@ == "Invalid tools/list response structure"@,
        },
{
    let items = match res.get("tools") {
        Some(JsonValue::Array(items)) => items,
        _ => {
            return Err(McpError::JsonRpc("Invalid tools/list response structure".to_string()));
        },
    };
    let mut tools: Vec<McpTool> = Vec::new();
    let mut i: usize = 0;
    while i < items.len()
        invariant
            i <= items@.len(),
            get_spec(*res, "tools"@) == Some(JsonValue::Array(*items)),
            tools@.len() == i,
            forall|j: int|
                0 <= j < i ==> (#[trigger] tools@[j]).name@ == text_member(items@[j], "name"@)
                    && tools@[j].description@ == text_member(items@[j], "description"@),
        decreases items@.len() - i,
    {
        let t = &items[i];
        let name = match t.get("name") {
            Some(n) => match n.as_str() {
                Some(s) => s.clone(),
                None => String::new(),
            },
            None => String::new(),
        };
        let description = match t.get("description") {
            Some(n) => match n.as_str() {
                Some(s) => s.clone(),
                None => String::new(),
            },
            None => String::new(),
        };
        tools.push(McpTool { name, description });
        i = i + 1;
    }
    Ok(tools)
}

/// Whether a tool with the name is in the list.
pub fn tool_listed(tools: &Vec<McpTool>, name: &str) -> (r: bool)
    ensures
        r == exists|i: int| 0 <= i < tools@.len() && tools@[i].name@ == name@,
{
    let mut i: usize = 0;
    while i < tools.len()
        invariant
            i <= tools@.len(),
            forall|j: int| 0 <= j < i ==> tools@[j].name@ != name@,
        decreases tools@.len() - i,
    {
        if str_eq(tools[i].name.as_str(), name) {
            return true;
        }
        i = i + 1;
    }
    false
}

} // verus!
