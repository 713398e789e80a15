use swal_agent::json::{canonical_json, parse_json, tool_args, JsonValue};

#[test]
fn parse_json_reads_values() {
    let v = parse_json("{\"a\": [1, \"x\", null, true], \"b\": 2.5}").unwrap();
    match v.get("a") {
        Some(JsonValue::Array(items)) => {
            assert_eq!(items.len(), 4);
            assert!(matches!(&items[0], JsonValue::Number(n) if n == "1"));
            assert!(matches!(&items[1], JsonValue::Str(s) if s == "x"));
            assert!(matches!(&items[2], JsonValue::Null));
            assert!(matches!(&items[3], JsonValue::Bool(true)));
        }
        _ => panic!("Expected an array"),
    }
    assert!(matches!(v.get("b"), Some(JsonValue::Number(n)) if n == "2.5"));
    assert!(parse_json("{").is_none());
    assert!(parse_json("").is_none());
}

#[test]
fn tool_args_fall_back_to_null() {
    assert!(matches!(tool_args("not json"), JsonValue::Null));
    let args = tool_args("{\"text\":\"hi\"}");
    assert_eq!(args.get("text").and_then(|v| v.as_str()).map(|s| s.as_str()), Some("hi"));
}

#[test]
fn canonical_json_is_what_serde_json_writes() {
    assert!(canonical_json("{\"a\":[1,\"x\",null,true]}"));
    assert!(canonical_json("1"));
    assert!(!canonical_json("{ \"a\": 1 }"));
    assert!(!canonical_json("{\"b\":1,\"a\":2}"));
    assert!(!canonical_json("not json"));
}
