use swal_agent::store::{IndexedDbError, Message, Session, SessionCache};

#[test]
fn session_cache_crud_roundtrip() {
    let mut store = SessionCache::new();
    let session = store.create_session_at("test-session-123", "A test chat session", 1000);
    assert_eq!(session.id, "test-session-123");
    assert_eq!(session.summary, "A test chat session");
    assert_eq!(session.created_at, session.updated_at);

    let msg1 = store.append_message_at("test-session-123", "user", "Hello agent!", 1001).unwrap();
    assert_eq!(msg1.session_id, "test-session-123");
    assert_eq!(msg1.role, "user");
    assert_eq!(msg1.content, "Hello agent!");
    assert_eq!(msg1.id, 1);
    let msg2 = store.append_message_at("test-session-123", "assistant", "Hello! How can I help you today?", 1002).unwrap();
    assert_eq!(msg2.id, 2);

    let fetched = store.get_session("test-session-123").unwrap();
    assert_eq!(fetched.updated_at, 1002);
    assert_eq!(fetched.created_at, 1000);
    let messages = store.get_messages("test-session-123");
    assert_eq!(messages, vec![msg1.clone(), msg2.clone()]);
    assert_eq!(store.list_sessions().len(), 1);

    store.delete_session("test-session-123");
    assert!(store.get_session("test-session-123").is_none());
    assert!(store.get_messages("test-session-123").is_empty());
    assert!(store.list_sessions().is_empty());
}

#[test]
fn appending_to_unknown_session_fails() {
    let mut store = SessionCache::new();
    let e = store.append_message_at("nope", "user", "hi", 1).unwrap_err();
    assert_eq!(e, IndexedDbError::SessionNotFound("nope".to_string()));
    assert_eq!(e.to_string(), "Session not found: nope");
    assert_eq!(store.next_message_id, 1);
}

#[test]
fn sessions_listed_most_recent_first() {
    let mut store = SessionCache::new();
    store.create_session_at("a", "A", 10);
    store.create_session_at("b", "B", 20);
    store.create_session_at("c", "C", 15);
    store.append_message_at("a", "user", "x", 30).unwrap();
    let ids: Vec<String> = store.list_sessions().into_iter().map(|s| s.id).collect();
    assert_eq!(ids, vec!["a".to_string(), "b".to_string(), "c".to_string()]);
}

#[test]
fn load_groups_and_orders_records() {
    let sessions = vec![
        Session { id: "s".to_string(), created_at: 1, updated_at: 1, summary: "old".to_string() },
        Session { id: "s".to_string(), created_at: 1, updated_at: 2, summary: "new".to_string() },
    ];
    let m = |id: i64, sid: &str| Message { id, session_id: sid.to_string(), role: "user".to_string(), content: id.to_string(), ts: 0 };
    let messages = vec![m(5, "s"), m(2, "s"), m(9, "t"), m(3, "s")];
    let mut store = SessionCache::load(sessions, messages);
    assert_eq!(store.get_session("s").unwrap().summary, "new");
    let ids: Vec<i64> = store.get_messages("s").into_iter().map(|x| x.id).collect();
    assert_eq!(ids, vec![2, 3, 5]);
    assert_eq!(store.next_message_id, 10);
    let next = store.append_message_at("s", "user", "later", 3).unwrap();
    assert_eq!(next.id, 10);
    let empty = SessionCache::load(vec![], vec![]);
    assert_eq!(empty.next_message_id, 1);
}

#[test]
fn store_error_texts() {
    assert_eq!(IndexedDbError::Rexie("r".to_string()).to_string(), "IndexedDB/Rexie error: r");
    assert_eq!(IndexedDbError::Serde("s".to_string()).to_string(), "Serde error: s");
    assert_eq!(IndexedDbError::LockError("l".to_string()).to_string(), "Cache lock error: l");
}
