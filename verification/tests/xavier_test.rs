use swal_agent::http_reply::{interpret_response, parse_response, read_response};
use swal_agent::xavier::{search_body_from, search_reply, SearchHits, store_body, store_body_from, HttpTransport, XavierError};

#[test]
fn xavier_resolve() {
    let t = HttpTransport::new("http://localhost:8006/".to_string(), None);
    let ep = t.resolve("/v1/memories").unwrap();
    assert_eq!((ep.host.as_str(), ep.port, ep.path.as_str()), ("localhost", 8006, "/v1/memories"));
    assert_eq!(ep.address(), "localhost:8006");
    let t = HttpTransport::new("http://example.com/base//".to_string(), None);
    let ep = t.resolve("/x").unwrap();
    assert_eq!((ep.host.as_str(), ep.port, ep.path.as_str()), ("example.com", 80, "/base/x"));
    let t = HttpTransport::new("https://example.com".to_string(), None);
    assert_eq!(
        t.resolve("/x").unwrap_err(),
        XavierError::Http("Only http:// scheme is supported by minimal HTTP client".to_string())
    );
    let t = HttpTransport::new("http://h:port".to_string(), None);
    assert_eq!(t.resolve("/x").unwrap_err(), XavierError::Http("Invalid port: invalid digit found in string".to_string()));
}

#[test]
fn xavier_request_text() {
    let t = HttpTransport::new("http://h:1".to_string(), Some("my-super-secret-token".to_string()));
    let ep = t.resolve("/v1/memories").unwrap();
    let body = store_body_from("\"some/path\"", "\"hello xavier memory\"");
    assert_eq!(body, "{\"content\":\"hello xavier memory\",\"path\":\"some/path\"}");
    assert_eq!(store_body("some/path", "hello xavier memory"), body);
    let req = t.request_text(&ep, "{}");
    assert_eq!(
        req,
        "POST /v1/memories HTTP/1.1\r\nHost: h\r\nContent-Type: application/json\r\nContent-Length: 2\r\nConnection: close\r\nX-Xavier-Token: my-super-secret-token\r\n\r\n{}"
    );
    assert_eq!(search_body_from("\"hello\"", None), "{\"limit\":10,\"query\":\"hello\"}");
    assert_eq!(search_body_from("\"q\"", Some(3)), "{\"limit\":3,\"query\":\"q\"}");
    let utf = HttpTransport::new("http://h".to_string(), None);
    let req = utf.request_text(&utf.resolve("/").unwrap(), "é");
    assert!(req.contains("Content-Length: 2\r\n"));
}

#[test]
fn xavier_response_reading() {
    assert_eq!(interpret_response("HTTP/1.1 200 OK\r\nA: b\r\n\r\nbody", "http/1.1 200 ok\r\na: b"), Some(Ok("body".to_string())));
    assert_eq!(interpret_response("HTTP/1.1 401 Unauthorized\r\n\r\nno", ""), Some(Err(XavierError::Unauthorized)));
    assert_eq!(
        interpret_response("HTTP/1.1 500 Boom\r\n\r\noops", ""),
        Some(Err(XavierError::Http("Server returned error code 500: oops".to_string())))
    );
    assert_eq!(interpret_response("", ""), Some(Err(XavierError::Http("No status line".to_string()))));
    assert_eq!(
        interpret_response("HTTP/1.1\r\n\r\n", ""),
        Some(Err(XavierError::Http("Invalid status line: HTTP/1.1".to_string())))
    );
    let chunked = "HTTP/1.1 200 OK\r\nTransfer-Encoding: chunked\r\n\r\n5\r\nhello\r\n6\r\n world\r\n0\r\n\r\n";
    assert_eq!(parse_response(chunked), Some(Ok("hello world".to_string())));
    assert_eq!(read_response(chunked.as_bytes()), Some(Ok("hello world".to_string())));
    let bad_hex = "HTTP/1.1 200 OK\r\nTransfer-Encoding: chunked\r\n\r\nzz\r\nhello";
    assert_eq!(parse_response(bad_hex), Some(Err(XavierError::Parse("Invalid chunk hex: invalid digit found in string".to_string()))));
    let short = "HTTP/1.1 200 OK\r\nTransfer-Encoding: chunked\r\n\r\n9\r\nhello";
    assert_eq!(parse_response(short), Some(Err(XavierError::Parse("Incomplete chunk body".to_string()))));
    let missing = "HTTP/1.1 201 Created\r\nTransfer-Encoding: chunked\r\n\r\n4";
    assert_eq!(parse_response(missing), Some(Err(XavierError::Parse("Missing chunk data".to_string()))));
    let cut = "HTTP/1.1 200 OK\r\nTransfer-Encoding: chunked\r\n\r\n1\r\né";
    assert_eq!(parse_response(cut), None);
    let accented = "HTTP/1.1 200 OK\r\nTransfer-Encoding: chunked\r\n\r\n2\r\né\r\n0\r\n\r\n";
    assert_eq!(parse_response(accented), Some(Ok("é".to_string())));
}

#[test]
fn xavier_error_texts() {
    assert_eq!(XavierError::Http("x".to_string()).to_string(), "HTTP error: x");
    assert_eq!(XavierError::Unauthorized.to_string(), "Unauthorized");
    assert_eq!(XavierError::Parse("y".to_string()).to_string(), "Parse error: y");
}

#[test]
fn read_response_decodes_invalid_bytes_lossily() {
    let mut bytes = vec![0xFFu8];
    bytes.extend_from_slice(b"HTTP/1.1 200 OK\r\nContent-Type: text/plain\r\n\r\nbody");
    assert_eq!(read_response(&bytes), Some(Ok("body".to_string())));
    let mut bad_body = b"HTTP/1.1 200 OK\r\n\r\nab".to_vec();
    bad_body.push(0xC3);
    assert_eq!(read_response(&bad_body), Some(Ok("ab\u{FFFD}".to_string())));
}

#[test]
fn store_body_escapes_json_strings() {
    let body = store_body("a/b", "x\"y\\z\n\t\r\u{8}\u{c}\u{1}\u{1f}\u{7f}é");
    assert_eq!(
        body,
        "{\"content\":\"x\\\"y\\\\z\\n\\t\\r\\b\\f\\u0001\\u001f\u{7f}é\",\"path\":\"a/b\"}"
    );
}

#[test]
fn search_reply_finds_the_hits() {
    assert!(matches!(search_reply("[{\"score\":1}]"), Ok(SearchHits::Hits(_))));
    assert!(matches!(search_reply("{\"results\":[]}"), Ok(SearchHits::Results(_))));
    match search_reply("{\"other\":1}") {
        Err(XavierError::Parse(m)) => assert_eq!(m, "Unexpected response shape: {\"other\":1}"),
        _ => panic!("Expected a shape error"),
    }
    match search_reply("nope") {
        Err(XavierError::Parse(m)) => {
            assert!(m.starts_with("Failed to parse JSON response: "));
            assert!(m.ends_with(", Body: nope"));
        }
        _ => panic!("Expected a parse error"),
    }
}
