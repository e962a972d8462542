use agentcorp::agents::{has_pending_work, team_leader, team_role};
use agentcorp::agents::{
    agent_id_from_millis, delete_agent_plan, log_entries, new_agent_identity,
    parse_task_status_param, team_change, worker_pid, FrozenAgents, TeamChange,
};
use agentcorp::error::AgentCorpError;
use agentcorp::numbers::{i64_to_decimal, parse_i32};
use agentcorp::overlay::NoopOverlay;
use agentcorp::agents::agent_list_line;
use agentcorp::types::{AgentStatus, AgentSummary, TaskStatus};

#[test]
fn parse_i32_follows_str_parse() {
    for s in [
        "0", "42", "-7", "+9", "2147483647", "2147483648", "-2147483648", "-2147483649", "", "-", "+",
        "12a", " 1", "007", "99999999999999999999", "--1",
    ] {
        assert_eq!(parse_i32(s), s.parse::<i32>().ok(), "input {s:?}");
    }
}

#[test]
fn worker_pid_reads_trimmed_number() {
    assert_eq!(worker_pid("1234\n"), Some(1234));
    assert_eq!(worker_pid("  -5 "), Some(-5));
    assert_eq!(worker_pid("abc"), None);
    assert_eq!(worker_pid(""), None);
}

#[test]
fn decimal_writing() {
    assert_eq!(i64_to_decimal(0), "0");
    assert_eq!(i64_to_decimal(-120), "-120");
    assert_eq!(i64_to_decimal(99999), "99999");
    assert_eq!(i64_to_decimal(i64::MAX), i64::MAX.to_string());
}

#[test]
fn default_agent_ids() {
    assert_eq!(agent_id_from_millis(1_700_000_123_456), "agent-23456");
    assert_eq!(agent_id_from_millis(100_000), "agent-0");
    assert_eq!(agent_id_from_millis(-7), "agent--7");
    assert_eq!(agent_id_from_millis(i64::MIN), format!("agent-{}", i64::MIN % 100000));
}

#[test]
fn new_agent_defaults() {
    let (id, name, emoji, text) = new_agent_identity(Some("a1".to_string()), None, None);
    assert_eq!((id.as_str(), name.as_str(), emoji.as_str()), ("a1", "a1", "🤖"));
    assert_eq!(text, "# Identity\n\n**Name:** a1\n**Emoji:** 🤖\n");
    let (id, _, _, _) = new_agent_identity(None, Some("Bot".to_string()), Some("🦊".to_string()));
    assert!(id.starts_with("agent-"));
}

#[test]
fn team_changes() {
    match team_change("ghost", false, None, "t") {
        Err(AgentCorpError::NotFound { what }) => assert_eq!(what, "agent 'ghost'"),
        other => panic!("unexpected {other:?}"),
    }
    assert_eq!(
        team_change("a", true, Some("t1".to_string()), "none"),
        Ok(TeamChange::Leave { team: "t1".to_string() })
    );
    assert_eq!(team_change("a", true, None, "none"), Ok(TeamChange::NotInAnyTeam));
    assert_eq!(
        team_change("a", true, Some("t1".to_string()), "t1"),
        Ok(TeamChange::AlreadyIn { team: "t1".to_string() })
    );
    assert_eq!(
        team_change("a", true, Some("t1".to_string()), "t2"),
        Ok(TeamChange::Join { leave: Some("t1".to_string()), join: "t2".to_string() })
    );
    assert_eq!(
        team_change("a", true, None, "t2"),
        Ok(TeamChange::Join { leave: None, join: "t2".to_string() })
    );
}

#[test]
fn leaders_cannot_be_deleted() {
    assert_eq!(delete_agent_plan("a", None), Ok(None));
    assert_eq!(
        delete_agent_plan("a", Some(("t".to_string(), "b".to_string()))),
        Ok(Some("t".to_string()))
    );
    match delete_agent_plan("a", Some(("t".to_string(), "a".to_string()))) {
        Err(AgentCorpError::Agent { message }) => {
            assert_eq!(message, "agent 'a' is the leader of team 't' — change leader first")
        }
        other => panic!("unexpected {other:?}"),
    }
}

#[test]
fn freeze_then_revive_roundtrip() {
    let mut f = FrozenAgents::new();
    assert_eq!(f.freeze(vec!["alice".to_string(), "bob".to_string()]), 2);
    assert_eq!(f.sleeping(), 2);
    assert_eq!(f.revive(), vec!["alice", "bob"]);
    assert_eq!(f.sleeping(), 0);
    assert!(f.revive().is_empty());
}

#[test]
fn strict_task_status() {
    assert_eq!(parse_task_status_param("in_progress"), Some(TaskStatus::InProgress));
    assert_eq!(parse_task_status_param("failed"), Some(TaskStatus::Failed));
    assert_eq!(parse_task_status_param("Done"), None);
}

#[test]
fn log_view() {
    let server = vec!["s1".to_string()];
    let agents = vec![("alice".to_string(), vec!["a1".to_string(), "a2".to_string()])];
    assert_eq!(
        log_entries(&server, &agents),
        vec![
            ("server".to_string(), "s1".to_string()),
            ("agent:alice".to_string(), "a1".to_string()),
            ("agent:alice".to_string(), "a2".to_string()),
        ]
    );
}

#[test]
fn noop_overlay_does_nothing() {
    let o = NoopOverlay;
    o.show("draw");
    o.dismiss();
}

#[test]
fn agent_list_lines() {
    let mut a = AgentSummary {
        id: "a1".to_string(),
        name: "Alice".to_string(),
        emoji: "🦊".to_string(),
        status: AgentStatus::Idle,
        team_id: None,
        team_name: None,
    };
    assert_eq!(agent_list_line(&a), "🦊 a1 Alice");
    a.team_id = Some("t1".to_string());
    assert_eq!(agent_list_line(&a), "🦊 a1 Alice [team: t1]");
}

#[test]
fn decimal_of_extremes() {
    assert_eq!(i64_to_decimal(i64::MIN), i64::MIN.to_string());
    assert_eq!(i64_to_decimal(i64::MAX), i64::MAX.to_string());
    assert_eq!(i64_to_decimal(-7), "-7");
    assert_eq!(i64_to_decimal(0), "0");
}

#[test]
fn team_leaders_roles_and_heartbeat_work() {
    assert_eq!(team_leader(r#"{"leader":"alice","members":[]}"#), Some("alice".to_string()));
    assert_eq!(team_leader(r#"{"members":[]}"#), None);
    assert_eq!(team_role("alice", "alice"), "leader");
    assert_eq!(team_role("alice", "bob"), "worker");
    let tasks = vec![
        (TaskStatus::Done, None),
        (TaskStatus::Pending, Some("carol".to_string())),
    ];
    assert!(!has_pending_work(&tasks, "bob"));
    assert!(has_pending_work(&tasks, "carol"));
    let mut open = tasks.clone();
    open.push((TaskStatus::Pending, None));
    assert!(has_pending_work(&open, "bob"));
    assert!(!has_pending_work(&vec![], "bob"));
}
