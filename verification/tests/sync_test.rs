use swal_agent::sync::{SyncEngine, SyncOp};
use swal_agent::transport::{verify_state_match, EdgeMeshTransport, SyncHandshake, WsRelayTransport};

fn op(id: &str, doc: &str, payload: &str, ts: u64) -> SyncOp {
    SyncOp {
        id: id.to_string(),
        doc_id: doc.to_string(),
        op_type: "insert".to_string(),
        payload: payload.to_string(),
        ts,
    }
}

#[test]
fn test_idempotence() {
    let mut engine = SyncEngine::new();
    let op1 = op("op1", "doc1", r#"{"text":"hello"}"#, 100);
    engine.apply_local(op1.clone());
    assert_eq!(engine.log.len(), 1);

    // Merging the same op again should be idempotent (0 applied)
    let result = engine.merge_remote(vec![op1]);
    assert_eq!(result.applied, 0);
    assert_eq!(result.conflicts, 0);
    assert_eq!(engine.log.len(), 1);
}

#[test]
fn test_convergence() {
    let mut engine_a = SyncEngine::new();
    let mut engine_b = SyncEngine::new();

    let op_a = op("op_a", "doc1", r#"{"x":1}"#, 100);
    let op_b = op("op_b", "doc1", r#"{"y":2}"#, 110);

    engine_a.apply_local(op_a.clone());
    engine_b.apply_local(op_b.clone());

    assert_ne!(engine_a.state_hash(), engine_b.state_hash());

    let res_a = engine_a.merge_remote(engine_b.log.clone());
    let res_b = engine_b.merge_remote(engine_a.log.clone());

    assert_eq!(res_a.applied, 1);
    assert_eq!(res_b.applied, 1);
    assert_eq!(res_a.conflicts, 0);
    assert_eq!(res_b.conflicts, 0);

    assert_eq!(engine_a.state_hash(), engine_b.state_hash());
}

#[test]
fn test_conflict_detection() {
    let mut engine = SyncEngine::new();
    engine.apply_local(op("op_conf", "doc1", r#"{"val":"local"}"#, 100));
    let op_remote = op("op_conf", "doc1", r#"{"val":"remote"}"#, 100);
    let result = engine.merge_remote(vec![op_remote]);
    assert_eq!(result.applied, 0);
    assert_eq!(result.conflicts, 1);
}

#[test]
fn test_edgemesh_transport_serialization_round_trip() {
    let transport = EdgeMeshTransport::new("http://localhost:8080".to_string());
    let copy = transport.clone();
    assert_eq!(transport, copy);
    assert_eq!(copy.endpoint, "http://localhost:8080");
    assert!(transport.send(Vec::new()).is_ok());
    let received = transport.receive().expect("Failed to receive");
    assert!(received.is_empty());
}

#[test]
fn test_ws_relay_transport_compile_check() {
    let transport = WsRelayTransport::new("ws://localhost:9090".to_string());
    assert_eq!(transport.url, "ws://localhost:9090");
    assert!(transport.send(Vec::new()).is_ok());
    let received = transport.receive().expect("Failed to receive");
    assert!(received.is_empty());
}

#[test]
fn test_handshake_state_hash_reuse() {
    let mut engine_a = SyncEngine::new();
    let engine_b = SyncEngine::new();

    let hash_a = engine_a.state_hash();
    let hash_b = engine_b.state_hash();
    assert!(verify_state_match(&hash_a, &hash_b));

    let handshake_a = SyncHandshake::new(hash_a.clone());
    let handshake_b = SyncHandshake::new(hash_b.clone());
    assert_eq!(handshake_a, handshake_b);

    engine_a.apply_local(op("op1", "doc1", r#"{"text":"hello"}"#, 100));
    let new_hash_a = engine_a.state_hash();
    assert_ne!(new_hash_a, hash_b);
    assert!(!verify_state_match(&new_hash_a, &hash_b));
}

#[test]
fn state_hash_is_sixteen_hex_digits() {
    let mut engine = SyncEngine::new();
    engine.apply_local(op("a", "d", "1", 5));
    let h = engine.state_hash();
    assert_eq!(h.len(), 16);
    assert!(h.chars().all(|c| c.is_ascii_hexdigit() && !c.is_ascii_uppercase()));
}

#[test]
fn state_hash_ignores_arrival_order() {
    let mut a = SyncEngine::new();
    let mut b = SyncEngine::new();
    a.merge_remote(vec![op("x", "d", "1", 1), op("y", "d", "2", 2), op("w", "e", "3", 3)]);
    b.merge_remote(vec![op("w", "e", "3", 3), op("x", "d", "1", 1), op("y", "d", "2", 2)]);
    assert_eq!(a.state_hash(), b.state_hash());
}

#[test]
fn merge_twice_changes_nothing() {
    let mut e = SyncEngine::new();
    let batch = vec![op("x", "d", "1", 1), op("y", "d", "2", 2)];
    let first = e.merge_remote(batch.clone());
    assert_eq!(first.applied, 2);
    let log = e.log.clone();
    let merkle = e.merkle.clone();
    let second = e.merge_remote(batch);
    assert_eq!(second.applied, 0);
    assert_eq!(second.conflicts, 0);
    assert_eq!(e.log, log);
    assert_eq!(e.merkle, merkle);
}

#[test]
fn document_hash_accumulates() {
    let mut e = SyncEngine::new();
    e.apply_local(op("x", "d", "1", 1));
    let hx = e.merkle.iter().find(|(k, _)| k == "x").unwrap().1;
    assert_eq!(e.merkle.iter().find(|(k, _)| k == "d").unwrap().1, hx);
    e.apply_local(op("y", "d", "2", 2));
    let hy = e.merkle.iter().find(|(k, _)| k == "y").unwrap().1;
    assert_eq!(e.merkle.iter().find(|(k, _)| k == "d").unwrap().1, hx.wrapping_add(hy));
}

#[test]
fn duplicate_in_one_batch_is_counted_once() {
    let mut e = SyncEngine::new();
    let r = e.merge_remote(vec![op("x", "d", "1", 1), op("x", "d", "2", 1), op("x", "d", "1", 1)]);
    assert_eq!(r.applied, 1);
    assert_eq!(r.conflicts, 1);
    assert_eq!(e.log.len(), 1);
}

#[test]
fn state_hash_ignores_the_order_of_the_log() {
    let ops = vec![op("c", "d1", "{\"v\":3}", 3), op("a", "d1", "{\"v\":1}", 1), op("b", "d2", "{\"v\":2}", 2)];
    let mut forward = SyncEngine::new();
    let mut backward = SyncEngine::new();
    for o in ops.iter() {
        forward.apply_local(o.clone());
    }
    for o in ops.iter().rev() {
        backward.apply_local(o.clone());
    }
    let h = forward.state_hash();
    assert_eq!(h, backward.state_hash());
    assert_eq!(h.len(), 16);
    assert!(h.chars().all(|c| c.is_ascii_hexdigit() && !c.is_ascii_uppercase()));
}

#[test]
fn checked_sync_refuses_payloads_not_written_canonically() {
    let mut e = SyncEngine::new();
    assert!(e.apply_local_checked(op("a", "d", "{\"x\": 1}", 1)).is_none());
    assert!(e.log.is_empty());
    assert!(e.apply_local_checked(op("a", "d", "{\"x\":1}", 1)).is_some());
    assert!(e.merge_remote_checked(vec![op("b", "d", "{\"b\":1,\"a\":2}", 2)]).is_none());
    assert_eq!(e.log.len(), 1);
    let r = e.merge_remote_checked(vec![op("b", "d", "{\"a\":2,\"b\":1}", 2)]).unwrap();
    assert_eq!(r.applied, 1);
    assert_eq!(e.log.len(), 2);
}
