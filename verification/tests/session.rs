use agentcorp::session::{session_start, SessionStatus};
use agentcorp::error::AgentCorpError;
use agentcorp::session::{
    join_path, kept_for_restore, last_compact_position, SessionDir, SessionMessage,
    SessionMessageType, SessionStore,
};

fn store() -> SessionStore {
    SessionStore::new(SessionDir::new("/ws/agents/test/session".to_string()))
}

fn msg(id: u64, t: SessionMessageType, data: &str) -> SessionMessage {
    SessionMessage { msg_id: id, timestamp: String::new(), msg_type: t, data: data.to_string() }
}

#[test]
fn append_and_read_messages() {
    let mut store = store();
    let a = store.append_message(SessionMessageType::System, r#"{"content":"You are an AI"}"#.to_string());
    let b = store.append_message(
        SessionMessageType::UserTask,
        r#"{"text":"Open Safari","screenshot":"step_001.webp"}"#.to_string(),
    );
    let c = store.append_message(
        SessionMessageType::Assistant,
        r#"{"content":"I'll open Safari","tool_calls":[]}"#.to_string(),
    );
    let mut reopened = SessionStore::new(SessionDir::new("/ws/agents/test/session".to_string()));
    let messages = reopened.read_messages(vec![a, b, c]);
    assert_eq!(messages.len(), 3);
    assert_eq!(messages[0].msg_type, SessionMessageType::System);
    assert_eq!(messages[1].msg_type, SessionMessageType::UserTask);
    assert_eq!(messages[2].msg_type, SessionMessageType::Assistant);
    assert_eq!(reopened.msg_counter(), 3);
    assert_eq!(store.msg_counter(), 3);
}

#[test]
fn append_numbers_from_counter() {
    let mut store = store();
    assert_eq!(store.msg_counter(), 0);
    let m = store.append_message(SessionMessageType::UserTask, "{}".to_string());
    assert_eq!(m.msg_id, 1);
    assert!(!m.timestamp.is_empty());
    let loaded = vec![msg(7, SessionMessageType::UserTask, "{}"), msg(3, SessionMessageType::Assistant, "{}")];
    store.read_messages(loaded);
    assert_eq!(store.msg_counter(), 7);
    let next = store.append_message(SessionMessageType::UserTask, "{}".to_string());
    assert_eq!(next.msg_id, 8);
}

#[test]
fn read_empty_log_keeps_counter() {
    let mut store = store();
    store.append_message(SessionMessageType::UserTask, "{}".to_string());
    let got = store.read_messages(Vec::new());
    assert!(got.is_empty());
    assert_eq!(store.msg_counter(), 1);
}

#[test]
fn compact_and_restore() {
    let mut store = store();
    let mut log = Vec::new();
    log.push(store.append_message(SessionMessageType::System, r#"{"content":"sys"}"#.to_string()));
    log.push(store.append_message(SessionMessageType::UserTask, r#"{"text":"old task"}"#.to_string()));
    log.push(store.append_message(SessionMessageType::Assistant, r#"{"content":"old reply"}"#.to_string()));
    log.push(store.append_message(SessionMessageType::UserTask, r#"{"text":"new task"}"#.to_string()));
    log.push(store.append_message(SessionMessageType::Assistant, r#"{"content":"new reply"}"#.to_string()));
    log.push(store.append_message(
        SessionMessageType::Compact,
        r#"{"summary":"Earlier we discussed old stuff","first_kept_msg_id":4}"#.to_string(),
    ));
    let (summary, kept) = store.read_for_restore(log);
    assert_eq!(summary.as_deref(), Some("Earlier we discussed old stuff"));
    assert_eq!(kept.len(), 2);
    assert_eq!(kept[0].msg_type, SessionMessageType::UserTask);
    assert_eq!(kept[1].msg_type, SessionMessageType::Assistant);
}

#[test]
fn find_last_compact_none() {
    let mut store = store();
    let m = store.append_message(SessionMessageType::System, r#"{"content":"sys"}"#.to_string());
    let result = store.find_last_compact(vec![m]);
    assert!(result.is_none());
}

#[test]
fn find_last_compact_takes_last_marker() {
    let mut store = store();
    let log = vec![
        msg(1, SessionMessageType::Compact, r#"{"summary":"first","first_kept_msg_id":1}"#),
        msg(2, SessionMessageType::UserTask, "{}"),
        msg(3, SessionMessageType::Compact, r#"{"summary":"second","first_kept_msg_id":2}"#),
        msg(4, SessionMessageType::Assistant, "{}"),
    ];
    assert_eq!(store.find_last_compact(log), Some(("second".to_string(), 2)));
    assert_eq!(store.msg_counter(), 4);
}

#[test]
fn compact_marker_without_fields() {
    let mut store = store();
    let log = vec![msg(1, SessionMessageType::Compact, "{}"), msg(2, SessionMessageType::UserTask, "{}")];
    assert_eq!(store.find_last_compact(log), Some((String::new(), 0)));
    let log = vec![msg(1, SessionMessageType::Compact, "{}"), msg(2, SessionMessageType::UserTask, "{}")];
    let (summary, kept) = store.read_for_restore(log);
    assert_eq!(summary, None);
    assert_eq!(kept.len(), 1);
}

#[test]
fn restore_without_compaction_drops_system() {
    let mut store = store();
    let log = vec![
        msg(1, SessionMessageType::System, "{}"),
        msg(2, SessionMessageType::UserTask, "{}"),
        msg(3, SessionMessageType::ToolResult, "{}"),
    ];
    let (summary, kept) = store.read_for_restore(log);
    assert!(summary.is_none());
    let ids: Vec<u64> = kept.iter().map(|m| m.msg_id).collect();
    assert_eq!(ids, vec![2, 3]);
}

#[test]
fn kept_for_restore_filters() {
    let log = vec![
        msg(1, SessionMessageType::UserTask, "{}"),
        msg(5, SessionMessageType::Compact, "{}"),
        msg(6, SessionMessageType::Assistant, "{}"),
    ];
    assert_eq!(last_compact_position(&log), Some(1));
    let kept = kept_for_restore(log, 2);
    let ids: Vec<u64> = kept.iter().map(|m| m.msg_id).collect();
    assert_eq!(ids, vec![6]);
}

#[test]
fn load_meta_requires_stored_meta() {
    let store = store();
    assert_eq!(store.load_meta(Some(5u32)), Ok(5));
    match store.load_meta::<u32>(None) {
        Err(AgentCorpError::Session { message }) => assert_eq!(message, "session meta.json not found"),
        _ => panic!("expected a session error"),
    }
}

#[test]
fn session_dir_paths() {
    let d = SessionDir::new("/ws/agents/a/session".to_string());
    assert_eq!(d.meta(), "/ws/agents/a/session/meta.json");
    assert_eq!(d.messages(), "/ws/agents/a/session/messages.jsonl");
    assert_eq!(d.screenshots(), "/ws/agents/a/session/screenshots");
    assert_eq!(join_path("dir/", "x"), "dir/x");
    assert_eq!(join_path("", "x"), "x");
    let s = SessionStore::new(d);
    assert_eq!(s.dir().path(), "/ws/agents/a/session");
}

#[test]
fn appends_number_from_one_and_keep_dir() {
    let mut s = store();
    for k in 1..=5u64 {
        let m = s.append_message(SessionMessageType::UserTask, "{}".to_string());
        assert_eq!(m.msg_id, k);
        assert_eq!(s.msg_counter(), k);
        assert_eq!(s.dir().path(), "/ws/agents/test/session");
    }
    let _ = s.read_messages(vec![]);
    let _ = s.read_for_restore(vec![]);
    assert_eq!(s.msg_counter(), 5);
    assert_eq!(s.dir().path(), "/ws/agents/test/session");
}

#[test]
fn new_session_metadata() {
    let dir = SessionDir::new("/ws/agents/a1/session".to_string());
    let m = session_start(&dir, Some("write docs".to_string()), "2025-01-01T00:00:00+00:00".to_string());
    assert_eq!(m.id, "session");
    assert_eq!(m.task.as_deref(), Some("write docs"));
    assert_eq!(m.status, SessionStatus::Running);
    assert_eq!(m.created_at, "2025-01-01T00:00:00+00:00");
    assert_eq!(m.updated_at, m.created_at);
    assert_eq!(m.total_steps, 0);
    assert_eq!(m.summary, "");
    let trailing = session_start(&SessionDir::new("/ws/s2/".to_string()), None, String::new());
    assert_eq!(trailing.id, "s2");
    let root = session_start(&SessionDir::new("/".to_string()), None, String::new());
    assert_eq!(root.id, "");
    let now = store().start_meta(None);
    assert_eq!(now.id, "session");
    assert_eq!(now.created_at, now.updated_at);
    assert!(!now.created_at.is_empty());
}

#[test]
fn create_session() {
    let meta = store().start_meta(Some("Test task".to_string()));
    assert_eq!(meta.status, SessionStatus::Running);
    assert_eq!(meta.task.as_deref(), Some("Test task"));
}
