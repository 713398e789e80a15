//! The minimal HTTP/1.1 client of the Xavier memory service: where a request
//! goes, what is sent, and how the reply is read (status line, error codes,
//! chunked transfer encoding).
use vstd::prelude::*;
use vstd::string::*;
use vstd::utf8::{valid_utf8, decode_utf8};

use crate::json::{JsonValue, json_of_text, read_json, get_spec, take_member};
use crate::text::{
    to_chars, from_chars, sub_chars, matches_at, find_from, first_occurrence, occurs_at,
    starts_with, trim, trim_start, is_ws, is_whitespace, trim_bounds, byte_len, dec, digit_char,
    is_digit, digit_value,
    usize_to_string, u64_to_string, parse_unsigned, parse_unsigned_range, parse_hex,
    parse_hex_range, int_error_message, int_error_string, IntErrorKind, str_eq,
    lemma_trim_start_range,
};

verus! {

/// Why a request to Xavier failed.
#[derive(Clone, Debug, PartialEq, Eq)]
pub enum XavierError {
    Http(String),
    Unauthorized,
    Parse(String),
}

/// The mathematical content of a Xavier error.
pub enum XavierErrorModel {
    Http(Seq<char>),
    Unauthorized,
    Parse(Seq<char>),
}

impl View for XavierError {
    type V = XavierErrorModel;

    open spec fn view(&self) -> XavierErrorModel {
        match self {
            XavierError::Http(m) => XavierErrorModel::Http(m@),
            XavierError::Unauthorized => XavierErrorModel::Unauthorized,
            XavierError::Parse(m) => XavierErrorModel::Parse(m@),
        }
    }
}

/// The text of a Xavier error.
pub open spec fn xavier_error_text(e: XavierErrorModel) -> Seq<char> {
    match e {
        XavierErrorModel::Http(m) => "HTTP error: "@ + m,
        XavierErrorModel::Unauthorized => "Unauthorized"@,
        XavierErrorModel::Parse(m) => "Parse error: "@ + m,
    }
}

impl XavierError {
    /// The text of the error.
    pub fn to_string(&self) -> (r: String)
        ensures
            r@ == xavier_error_text(self@),
    {
        match self {
            XavierError::Http(m) => {
                let mut s = "HTTP error: ".to_string();
                s.append(m.as_str());
                s
            },
            XavierError::Unauthorized => "Unauthorized".to_string(),
            XavierError::Parse(m) => {
                let mut s = "Parse error: ".to_string();
                s.append(m.as_str());
                s
            },
        }
    }
}

/// Where a request goes: host, port, and the full request path.
#[derive(Clone, Debug, PartialEq, Eq)]
pub struct Endpoint {
    pub host: String,
    pub port: u16,
    pub path: String,
}

/// The URL without its trailing slashes.
pub open spec fn strip_trailing_slashes(s: Seq<char>) -> Seq<char>
    decreases s.len(),
{
    if s.len() > 0 && s.last() == '/' {
        strip_trailing_slashes(s.drop_last())
    } else {
        s
    }
}

/// The error for a URL that is not `http://`.
pub open spec fn scheme_error_text() -> Seq<char> {
    "Only http:// scheme is supported by minimal HTTP client"@
}

/// Where a request for `path` on the service at `base` goes: host, port (80 by
/// default) and the base URL's own path followed by `path`.
pub open spec fn endpoint_spec(base: Seq<char>, path: Seq<char>) -> Result<
    (Seq<char>, u16, Seq<char>),
    XavierErrorModel,
> {
    let url = strip_trailing_slashes(base);
    if !starts_with(url, "http://"@) {
        Err(XavierErrorModel::Http(scheme_error_text()))
    } else {
        let rest = url.skip(7);
        let hp = match first_occurrence(rest, 0, seq!['/']) {
            Some(i) => rest.take(i),
            None => rest,
        };
        let prefix = match first_occurrence(rest, 0, seq!['/']) {
            Some(i) => rest.skip(i),
            None => Seq::<char>::empty(),
        };
        match first_occurrence(hp, 0, seq![':']) {
            Some(j) => match parse_unsigned(hp.skip(j + 1), 65535) {
                Ok(port) => Ok((hp.take(j), port as u16, prefix + path)),
                Err(e) => Err(XavierErrorModel::Http("Invalid port: "@ + int_error_message(e))),
            },
            None => Ok((hp, 80u16, prefix + path)),
        }
    }
}

/// The header line that carries the token, if there is one.
pub open spec fn token_line(token: Option<Seq<char>>) -> Seq<char> {
    match token {
        Some(t) => "X-Xavier-Token: "@ + t + "\r\n"@,
        None => Seq::empty(),
    }
}

/// The request: a `POST` of a JSON body with its length in bytes, asking the
/// server to close the connection after the reply.
pub open spec fn request_spec(
    path: Seq<char>,
    host: Seq<char>,
    body: Seq<char>,
    token: Option<Seq<char>>,
) -> Seq<char> {
    "POST "@ + path + " HTTP/1.1\r\nHost: "@ + host
        + "\r\nContent-Type: application/json\r\nContent-Length: "@ + dec(byte_len(body))
        + "\r\nConnection: close\r\n"@ + token_line(token) + "\r\n"@ + body
}

/// The optional token's model.
pub open spec fn token_view(t: Option<String>) -> Option<Seq<char>> {
    match t {
        Some(s) => Some(s@),
        None => None,
    }
}

/// The HTTP transport of a Xavier client: the service's base URL and the
/// optional token sent with each request.
#[derive(Clone, Debug, PartialEq, Eq)]
pub struct HttpTransport {
    pub base_url: String,
    pub token: Option<String>,
}

impl HttpTransport {
    /// A transport to the service at `base_url`.
    pub fn new(base_url: String, token: Option<String>) -> (r: HttpTransport)
        ensures
            r.base_url == base_url,
            r.token == token,
    {
        HttpTransport { base_url, token }
    }

    /// Where a request for `path` goes.
    pub fn resolve(&self, path: &str) -> (r: Result<Endpoint, XavierError>)
        ensures
            match (r, endpoint_spec(self.base_url@, path@)) {
                (Ok(ep), Ok((h, p, f))) => ep.host@ == h && ep.port == p && ep.path@ == f,
                (Err(e), Err(m)) => e@ == m,
                _ => false,
            },
    {
        let rest = match url_rest(&self.base_url) {
            Some(rest) => rest,
            None => {
                return Err(
                    XavierError::Http(
                        "Only http:// scheme is supported by minimal HTTP client".to_string(),
                    ),
                );
            },
        };
        let (hp, prefix) = split_authority(&rest);
        let mut full = prefix;
        full.append(path);
        match host_and_port(&hp) {
            Ok((host, port)) => Ok(Endpoint { host, port, path: full }),
            Err(e) => Err(e),
        }
    }

    /// The text of the request that posts `body` to the endpoint.
    pub fn request_text(&self, ep: &Endpoint, body: &str) -> (r: String)
        requires
            byte_len(body@) <= usize::MAX,
        ensures
            r@ == request_spec(ep.path@, ep.host@, body@, token_view(self.token)),
    {
        let mut r = "POST ".to_string();
        r.append(ep.path.as_str());
        r.append(" HTTP/1.1\r\nHost: ");
        r.append(ep.host.as_str());
        r.append("\r\nContent-Type: application/json\r\nContent-Length: ");
        let n = usize_to_string(body.len());
        r.append(n.as_str());
        r.append("\r\nConnection: close\r\n");
        match &self.token {
            Some(t) => {
                r.append("X-Xavier-Token: ");
                r.append(t.as_str());
                r.append("\r\n");
            },
            None => {},
        }
        r.append("\r\n");
        r.append(body);
        proof {
            assert(r@ =~= request_spec(ep.path@, ep.host@, body@, token_view(self.token)));
        }
        r
    }
}

impl Endpoint {
    /// The `host:port` address to connect to.
    pub fn address(&self) -> (r: String)
        ensures
            r@ == self.host@ + ":"@ + dec(self.port as nat),
    {
        let mut r = self.host.clone();
        r.append(":");
        let p = u64_to_string(self.port as u64);
        r.append(p.as_str());
        r
    }
}

/// The URL after `http://`, once its trailing slashes are removed, if it is an
/// `http://` URL.
fn url_rest(base: &String) -> (r: Option<Vec<char>>)
    ensures
        match r {
            Some(rest) => starts_with(strip_trailing_slashes(base@), "http://"@) && rest@
                == strip_trailing_slashes(base@).skip(7),
            None => !starts_with(strip_trailing_slashes(base@), "http://"@),
        },
{
    let v = to_chars(base.as_str());
    let mut e = v.len();
    proof {
        assert(v@.take(e as int) =~= v@);
    }
    while e > 0 && v[e - 1] == '/'
        invariant
            e <= v@.len(),
            strip_trailing_slashes(v@) == strip_trailing_slashes(v@.take(e as int)),
        decreases e,
    {
        proof {
            assert(v@.take(e as int).drop_last() =~= v@.take(e - 1));
        }
        e = e - 1;
    }
    let url = sub_chars(&v, 0, e);
    proof {
        assert(url@ =~= v@.take(e as int));
    }
    let scheme = to_chars("http://");
    proof {
        reveal_strlit("http://");
    }
    if !matches_at(&url, 0, &scheme) {
        return None;
    }
    let rest = sub_chars(&url, 7, url.len());
    proof {
        assert(rest@ =~= url@.skip(7));
    }
    Some(rest)
}

/// The authority (`host[:port]`) and the path of what follows the scheme.
fn split_authority(rest: &Vec<char>) -> (r: (Vec<char>, String))
    ensures
        r.0@ == (match first_occurrence(rest@, 0, seq!['/']) {
            Some(i) => rest@.take(i),
            None => rest@,
        }),
        r.1@ == (match first_occurrence(rest@, 0, seq!['/']) {
            Some(i) => rest@.skip(i),
            None => Seq::<char>::empty(),
        }),
{
    let slash = vec!['/'];
    proof {
        assert(slash@ =~= seq!['/']);
    }
    match find_from(rest, 0, &slash) {
        Some(i) => {
            let hp = sub_chars(rest, 0, i);
            let prefix = from_chars(rest, i, rest.len());
            proof {
                assert(hp@ =~= rest@.take(i as int));
                assert(prefix@ =~= rest@.skip(i as int));
            }
            (hp, prefix)
        },
        None => {
            let hp = sub_chars(rest, 0, rest.len());
            proof {
                assert(hp@ =~= rest@);
            }
            (hp, String::new())
        },
    }
}

/// The host and the port (80 when none is given) of an authority.
#[verifier::spinoff_prover]
#[verifier::rlimit(40)]
fn host_and_port(hp: &Vec<char>) -> (r: Result<(String, u16), XavierError>)
    ensures
        match first_occurrence(hp@, 0, seq![':']) {
            Some(j) => match parse_unsigned(hp@.skip(j + 1), 65535) {
                Ok(port) => r matches Ok((h, p)) && h@ == hp@.take(j) && p == port as u16,
                Err(e) => r matches Err(x) && x@ == XavierErrorModel::Http(
                    "Invalid port: "@ + int_error_message(e),
                ),
            },
            None => r matches Ok((h, p)) && h@ == hp@ && p == 80,
        },
{
    let colon = vec![':'];
    proof {
        assert(colon@ =~= seq![':']);
    }
    match find_from(hp, 0, &colon) {
        Some(j) => {
            proof {
                assert(hp@.subrange(j + 1, hp@.len() as int) =~= hp@.skip(j + 1));
            }
            match parse_unsigned_range(hp, j + 1, hp.len(), 65535) {
                Ok(port) => {
                    let host = from_chars(hp, 0, j);
                    proof {
                        assert(host@ =~= hp@.take(j as int));
                    }
                    Ok((host, port as u16))
                },
                Err(k) => {
                    let mut msg = "Invalid port: ".to_string();
                    let m = int_error_string(k);
                    msg.append(m.as_str());
                    Err(XavierError::Http(msg))
                },
            }
        },
        None => {
            let host = from_chars(hp, 0, hp.len());
            proof {
                assert(hp@.subrange(0, hp@.len() as int) =~= hp@);
            }
            Ok((host, 80))
        },
    }
}

/// A lowercase hexadecimal digit.
pub open spec fn hex_digit(n: nat) -> char {
    if n < 10 {
        (n + 48) as char
    } else {
        (n + 87) as char
    }
}

/// How one character stands in a JSON string literal: the quote and the
/// backslash are escaped, the control characters with a short form too, the
/// other characters below U+0020 as `\u00xx`; any other character stands as it is.
pub open spec fn json_char(c: char) -> Seq<char> {
    if c == '"' {
        seq!['\\', '"']
    } else if c == '\\' {
        seq!['\\', '\\']
    } else if c == '\u{8}' {
        seq!['\\', 'b']
    } else if c == '\t' {
        seq!['\\', 't']
    } else if c == '\n' {
        seq!['\\', 'n']
    } else if c == '\u{c}' {
        seq!['\\', 'f']
    } else if c == '\r' {
        seq!['\\', 'r']
    } else if (c as nat) < 32 {
        seq!['\\', 'u', '0', '0', hex_digit((c as nat) / 16), hex_digit((c as nat) % 16)]
    } else {
        seq![c]
    }
}

/// The characters of a text, each as it stands in a JSON string literal.
pub open spec fn json_escaped(s: Seq<char>) -> Seq<char>
    decreases s.len(),
{
    if s.len() == 0 {
        Seq::empty()
    } else {
        json_escaped(s.drop_last()) + json_char(s.last())
    }
}

/// A text as a JSON string literal: its escaped characters between quotes.
pub open spec fn json_quoted(s: Seq<char>) -> Seq<char> {
    seq!['"'] + json_escaped(s) + seq!['"']
}

/// `serde_json::to_string` on a `&str`, which cannot fail for a text: the text
/// as a JSON string literal (`format_escaped_str` in the crate's serializer).
#[verifier::external_body]
fn quote_json(s: &str) -> (r: String)
    ensures
        r@ == json_quoted(s@),
{
    serde_json::to_string(s).unwrap_or_default()
}

/// The path of the service that stores a memory.
pub open spec fn store_path() -> Seq<char> {
    "/v1/memories"@
}

/// The path of the service that searches memories.
pub open spec fn search_path() -> Seq<char> {
    "/v1/memories/search"@
}

/// The JSON body that stores a memory: `{"content":…,"path":…}`.
pub open spec fn store_body_spec(path: Seq<char>, content: Seq<char>) -> Seq<char> {
    "{\"content\":"@ + json_quoted(content) + ",\"path\":"@ + json_quoted(path) + "}"@
}

/// The JSON body of a search: `{"limit":…,"query":…}`, ten results by default.
pub open spec fn search_body_spec(query: Seq<char>, limit: Option<usize>) -> Seq<char> {
    let n: nat = match limit {
        Some(l) => l as nat,
        None => 10,
    };
    "{\"limit\":"@ + dec(n) + ",\"query\":"@ + json_quoted(query) + "}"@
}

/// The body that stores a memory, from the JSON literals of its path and content.
pub fn store_body_from(path_json: &str, content_json: &str) -> (r: String)
    ensures
        r@ == "{\"content\":"@ + content_json@ + ",\"path\":"@ + path_json@ + "}"@,
{
    let mut r = "{\"content\":".to_string();
    r.append(content_json);
    r.append(",\"path\":");
    r.append(path_json);
    r.append("}");
    r
}

/// The body that stores `content` under `path`.
pub fn store_body(path: &str, content: &str) -> (r: String)
    ensures
        r@ == store_body_spec(path@, content@),
{
    let c = quote_json(content);
    let p = quote_json(path);
    store_body_from(p.as_str(), c.as_str())
}

/// The body of a search, from the JSON literal of its query.
pub fn search_body_from(query_json: &str, limit: Option<usize>) -> (r: String)
    ensures
        r@ == "{\"limit\":"@ + dec(
            match limit {
                Some(l) => l as nat,
                None => 10,
            },
        ) + ",\"query\":"@ + query_json@ + "}"@,
{
    let n: usize = match limit {
        Some(l) => l,
        None => 10,
    };
    let mut r = "{\"limit\":".to_string();
    let d = usize_to_string(n);
    r.append(d.as_str());
    r.append(",\"query\":");
    r.append(query_json);
    r.append("}");
    r
}

/// The body of a search for `query`, with at most `limit` results (ten by default).
pub fn search_body(query: &str, limit: Option<usize>) -> (r: String)
    ensures
        r@ == search_body_spec(query@, limit),
{
    let q = quote_json(query);
    search_body_from(q.as_str(), limit)
}

/// The path that stores memories.
pub fn store_endpoint_path() -> (r: &'static str)
    ensures
        r@ == store_path(),
{
    "/v1/memories"
}

/// The path that searches memories.
pub fn search_endpoint_path() -> (r: &'static str)
    ensures
        r@ == search_path(),
{
    "/v1/memories/search"
}

/// Where the hits of a search reply are: the reply itself is the array of hits,
/// or its `results` member holds them.
#[derive(Debug)]
pub enum SearchHits {
    Hits(JsonValue),
    Results(JsonValue),
}

/// Reads the body of a search reply: it must be JSON, and either an array of hits
/// or an object with a `results` member. The parse error names the body after
/// the JSON reader's message.
pub fn search_reply(body: &str) -> (r: Result<SearchHits, XavierError>)
    ensures
        match json_of_text(body@) {
            None => r matches Err(XavierError::Parse(m)) && exists|e: Seq<char>|
                m@ == "Failed to parse JSON response: "@ + e + ", Body: "@ + body@,
            Some(v) => match v {
                JsonValue::Array(_) => r matches Ok(SearchHits::Hits(h)) && h == v,
                _ => match get_spec(v, "results"@) {
                    Some(x) => r matches Ok(SearchHits::Results(y)) && y == x,
                    None => r matches Err(XavierError::Parse(m)) && m@
                        == "Unexpected response shape: "@ + body@,
                },
            },
        },
{
    let v = match read_json(body) {
        Ok(v) => v,
        Err(e) => {
            let mut msg = "Failed to parse JSON response: ".to_string();
            msg.append(e.as_str());
            msg.append(", Body: ");
            msg.append(body);
            proof {
                assert(msg@ == "Failed to parse JSON response: "@ + e@ + ", Body: "@ + body@);
            }
            return Err(XavierError::Parse(msg));
        },
    };
    if let JsonValue::Array(_) = &v {
        return Ok(SearchHits::Hits(v));
    }
    match take_member(v, "results") {
        Some(x) => Ok(SearchHits::Results(x)),
        None => {
            let mut msg = "Unexpected response shape: ".to_string();
            msg.append(body);
            Err(XavierError::Parse(msg))
        },
    }
}

/// The value of a run of decimal digits, read from the left.
pub open spec fn decimal_value(ds: Seq<char>) -> nat
    decreases ds.len(),
{
    if ds.len() == 0 {
        0
    } else {
        decimal_value(ds.drop_last()) * 10 + digit_value(ds.last())
    }
}

/// A digit's character reads back as the digit.
proof fn lemma_digit_char(d: nat)
    requires
        d < 10,
    ensures
        is_digit(digit_char(d)),
        digit_value(digit_char(d)) == d,
{
    let c = digit_char(d);
    assert(c as u32 == d + 48);
}

/// A number's decimal form is a non-empty run of digits that reads back as it.
proof fn lemma_dec_reads_back(n: nat)
    ensures
        dec(n).len() >= 1,
        forall|i: int| 0 <= i < dec(n).len() ==> is_digit(#[trigger] dec(n)[i]),
        decimal_value(dec(n)) == n,
    decreases n,
{
    if n < 10 {
        lemma_digit_char(n);
        assert(dec(n) =~= seq![digit_char(n)]);
        assert(dec(n).drop_last() =~= Seq::<char>::empty());
        assert(decimal_value(dec(n).drop_last()) == 0);
        assert(decimal_value(dec(n)) == decimal_value(dec(n).drop_last()) * 10 + digit_value(dec(n).last()));
    } else {
        lemma_dec_reads_back(n / 10);
        lemma_digit_char(n % 10);
        let d = dec(n);
        assert(d.drop_last() =~= dec(n / 10));
        assert(d.last() == digit_char(n % 10));
        assert(forall|i: int| 0 <= i < d.len() - 1 ==> d[i] == dec(n / 10)[i]);
        assert((n / 10) * 10 + n % 10 == n) by (nonlinear_arith);
        assert(decimal_value(d) == decimal_value(d.drop_last()) * 10 + digit_value(d.last()));
    }
}

/// The search body carries the caller's limit, ten when none is given: its
/// `limit` member is a run of decimal digits that reads back as that number,
/// and its `query` member is the query as a JSON string.
pub proof fn lemma_search_body_limit(query: Seq<char>, limit: Option<usize>)
    ensures
        exists|d: Seq<char>|
            #![trigger decimal_value(d)]
            d.len() >= 1 && (forall|i: int| 0 <= i < d.len() ==> is_digit(d[i])) && decimal_value(d)
                == (match limit {
                Some(l) => l as nat,
                None => 10nat,
            }) && search_body_spec(query, limit) == "{\"limit\":"@ + d + ",\"query\":"@
                + json_quoted(query) + "}"@,
{
    let n: nat = match limit {
        Some(l) => l as nat,
        None => 10nat,
    };
    lemma_dec_reads_back(n);
    assert(decimal_value(dec(n)) == n);
}

} // verus!
