use agentcorp::agents::{toggle_agent_json, toggle_items, AgentJsonToggle};
use agentcorp::agents::{
    find_agent_team, lists_member, parse_identity, priority_from_request, session_message_type_label,
};
use agentcorp::cli::{
    agent_id_from_nanos, default_priority, default_role, generate_agent_id, parse_member_spec,
    serve_port, Commands,
};
use agentcorp::logs::{tail_lines, tail_of_file};
use agentcorp::session::SessionMessageType;
use agentcorp::text::{lines_of, str_contains, trim_str};
use agentcorp::transport::RemoteTransport;
use agentcorp::types::{priority_label, task_status_label, MessagePriority, TaskStatus};
use agentcorp::web::{format_section_name, render_markdown, status_badge_class};

#[test]
fn tail_lines_reads_last_n() {
    let lines = tail_lines("a\nb\nc\nd\ne\n", 3);
    assert_eq!(lines, vec!["c", "d", "e"]);
}

#[test]
fn tail_lines_missing_file() {
    let lines = tail_of_file(None, 10);
    assert!(lines.is_empty());
    assert!(tail_lines("", 10).is_empty());
    assert_eq!(tail_of_file(Some("a\nb\nc"), 2), vec!["b", "c"]);
}

#[test]
fn tail_lines_short_text() {
    assert_eq!(tail_lines("a\r\nb", 5), vec!["a", "b"]);
    assert_eq!(tail_lines("a\nb\n", 0), Vec::<String>::new());
}

#[test]
fn lines_follow_str_lines() {
    for text in ["", "\n", "a", "a\n", "a\r\nb\r", "\n\nx\n", "x\ry\n"] {
        let expected: Vec<String> = text.lines().map(|l| l.to_string()).collect();
        assert_eq!(lines_of(text), expected, "text {text:?}");
    }
}

#[test]
fn trim_follows_str_trim() {
    for text in ["", "  ", " a b ", "\u{3000}x\u{a0}", "\n\tq"] {
        assert_eq!(trim_str(text), text.trim());
    }
}

#[test]
fn contains_substrings() {
    assert!(str_contains("abc", ""));
    assert!(str_contains("abc", "bc"));
    assert!(!str_contains("abc", "cb"));
    assert!(!str_contains("", "a"));
}

#[test]
fn find_agent_team_returns_none_when_no_teams() {
    assert!(find_agent_team(&vec![], "alice").is_none());
}

#[test]
fn find_agent_team_finds_matching_team() {
    let team_json = r#"{"id":"my-team","name":"My Team","members":[{"id":"alice","role":"leader"},{"id":"bob","role":"dev"}],"leader":"alice","status":"running","created_at":"2025-01-01T00:00:00Z"}"#;
    let teams = vec![("my-team".to_string(), Some(team_json.to_string()))];
    let result = find_agent_team(&teams, "alice");
    assert!(result.is_some());
    assert!(result.unwrap().ends_with("my-team"));
}

#[test]
fn find_agent_team_returns_none_for_nonmember() {
    let team_json = r#"{"id":"my-team","name":"My Team","members":[{"id":"bob","role":"dev"}],"leader":"bob","status":"running","created_at":"2025-01-01T00:00:00Z"}"#;
    let teams = vec![("my-team".to_string(), Some(team_json.to_string()))];
    assert!(find_agent_team(&teams, "charlie").is_none());
}

#[test]
fn find_agent_team_skips_unreadable_and_takes_first() {
    let alice = r#"{"members":[{"id":"alice","role":"dev"}]}"#;
    let teams = vec![
        ("a".to_string(), None),
        ("b".to_string(), Some(alice.to_string())),
        ("c".to_string(), Some(alice.to_string())),
    ];
    assert_eq!(find_agent_team(&teams, "alice"), Some("b".to_string()));
}

#[test]
fn find_agent_team_matches_member_ids_not_substrings() {
    let team_json = r#"{"id":"my-team","members":[{"id":"bob","role":"dev"}],"leader":"bob","name":"alice's old team"}"#;
    let teams = vec![("my-team".to_string(), Some(team_json.to_string()))];
    assert!(find_agent_team(&teams, "bo").is_none());
    assert!(find_agent_team(&teams, "alice").is_none());
    assert_eq!(find_agent_team(&teams, "bob"), Some("my-team".to_string()));
    assert!(!lists_member("not json", "bob"));
}

#[test]
fn identity_parsing() {
    let (name, emoji) = parse_identity("name: Alice \nemoji:  🦊\nname: Other", "a1");
    assert_eq!((name.as_str(), emoji.as_str()), ("Alice", "🦊"));
    let (name, emoji) = parse_identity("# Identity\n\n**Name:** Bob\n", "b1");
    assert_eq!((name.as_str(), emoji.as_str()), ("b1", "🤖"));
    let (name, _) = parse_identity("name:name: x", "c1");
    assert_eq!(name, "x");
}

#[test]
fn request_priority_is_exact() {
    assert_eq!(priority_from_request("steer"), MessagePriority::Steer);
    assert_eq!(priority_from_request("Steer"), MessagePriority::Collect);
    assert_eq!(priority_from_request(&default_priority()), MessagePriority::Collect);
    assert!(MessagePriority::Steer.is_steer());
    assert_eq!(priority_label(MessagePriority::Collect), "collect");
}

#[test]
fn toggle_disable_is_idempotent_and_enable_removes() {
    let items: Vec<String> = vec!["\"web_search\"".to_string(), "3".to_string()];
    let once = toggle_items(items, "shell", true, "\"shell\"".to_string());
    assert_eq!(once, vec!["\"web_search\"", "3", "\"shell\""]);
    let twice = toggle_items(once, "shell", true, "\"shell\"".to_string());
    assert_eq!(twice.len(), 3);
    let enabled = toggle_items(twice, "shell", false, String::new());
    assert_eq!(enabled, vec!["\"web_search\"", "3"]);
}

#[test]
fn member_specs() {
    assert_eq!(parse_member_spec("alice:leader"), ("alice".to_string(), "leader".to_string()));
    assert_eq!(parse_member_spec("bob"), ("bob".to_string(), "member".to_string()));
    assert_eq!(parse_member_spec("c:x:y"), ("c".to_string(), "x:y".to_string()));
    assert_eq!(default_role(), "member");
}

#[test]
fn agent_ids() {
    assert_eq!(agent_id_from_nanos(0), "000000");
    assert_eq!(agent_id_from_nanos(255), "0000ff");
    assert_eq!(agent_id_from_nanos(0xFFFFFF), "000000");
    assert_eq!(agent_id_from_nanos(999_999_999), format!("{:06x}", 999_999_999u32 % 0xFFFFFF));
    let id = generate_agent_id();
    assert_eq!(id.len(), 6);
    assert!(id.chars().all(|c| c.is_ascii_hexdigit() && !c.is_ascii_uppercase()));
}

#[test]
fn commands_and_ports() {
    let w = Commands::Worker { agent_id: "a".to_string(), workspace_path: "/w".to_string() };
    assert!(!w.needs_workspace_init());
    assert!(Commands::Status.needs_workspace_init());
    assert_eq!(serve_port(None), 28789);
    assert_eq!(serve_port(Some(8080)), 8080);
}

#[test]
fn labels() {
    assert_eq!(task_status_label(TaskStatus::InProgress), "inprogress");
    assert_eq!(task_status_label(TaskStatus::Done), "done");
    assert_eq!(session_message_type_label(SessionMessageType::UserTask), "user_task");
    assert_eq!(session_message_type_label(SessionMessageType::SystemHint), "system_hint");
    assert_eq!(status_badge_class("running"), "badge badge-success");
    assert_eq!(status_badge_class("idle"), "badge badge-ghost");
    assert_eq!(status_badge_class("error"), "badge badge-error");
    assert_eq!(status_badge_class("stopped"), "badge badge-info");
}

#[test]
fn section_names() {
    assert_eq!(format_section_name("max_steps"), "Max steps");
    assert_eq!(format_section_name("llm"), "Llm");
    assert_eq!(format_section_name(""), "");
    assert_eq!(format_section_name("ß_x"), "SS x");
}

#[test]
fn remote_transport_urls() {
    let t = RemoteTransport::new("http://host:1/".to_string());
    assert_eq!(t.endpoint(), "http://host:1");
    assert_eq!(t.message_url("bob"), "http://host:1/api/agents/bob/message");
    assert_eq!(t.priority_field(MessagePriority::Steer), "steer");
    let u = RemoteTransport::new("http://h///".to_string());
    assert_eq!(u.endpoint(), "http://h");
}

#[test]
fn renders_paragraph() {
    let result = render_markdown("hello world");
    assert!(result.contains("<p>hello world</p>"));
}

#[test]
fn renders_bold() {
    let result = render_markdown("**bold**");
    assert!(result.contains("<strong>bold</strong>"));
}

#[test]
fn renders_code_block() {
    let result = render_markdown("```\nlet x = 1;\n```");
    assert!(result.contains("<code>"));
    assert!(result.contains("let x = 1;"));
}

#[test]
fn renders_empty_string() {
    let result = render_markdown("");
    assert!(result.is_empty());
}

#[test]
fn renders_heading() {
    let result = render_markdown("# Title");
    assert!(result.contains("<h1>Title</h1>"));
}

#[test]
fn renders_link() {
    let result = render_markdown("[click](https://example.com)");
    assert!(result.contains("<a"));
    assert!(result.contains("https://example.com"));
    assert!(result.contains("click"));
}

#[test]
fn toggling_agent_json() {
    assert!(matches!(toggle_agent_json(None, "tools", "shell", true), AgentJsonToggle::AgentNotFound));
    for bad in ["[1]", "not json", r#"{"tools": 3}"#, r#"{"tools": {"disabled": "x"}}"#] {
        assert!(matches!(toggle_agent_json(Some(bad), "tools", "shell", true), AgentJsonToggle::Malformed));
    }
    let text = r#"{"id":"a1","tools":{"disabled":["click"],"extra":1},"skills":{}}"#;
    let out = match toggle_agent_json(Some(text), "tools", "shell", true) {
        AgentJsonToggle::Updated(t) => t,
        _ => panic!("expected an update"),
    };
    let v: serde_json::Value = serde_json::from_str(&out).unwrap();
    assert_eq!(v["id"], "a1");
    assert_eq!(v["tools"]["extra"], 1);
    assert_eq!(v["tools"]["disabled"], serde_json::Value::from(vec!["click", "shell"]));
    let back = match toggle_agent_json(Some(&out), "tools", "click", false) {
        AgentJsonToggle::Updated(t) => t,
        _ => panic!("expected an update"),
    };
    let v: serde_json::Value = serde_json::from_str(&back).unwrap();
    assert_eq!(v["tools"]["disabled"], serde_json::Value::from(vec!["shell"]));
    let fresh = match toggle_agent_json(Some(r#"{"id":"a2"}"#), "skills", "web", true) {
        AgentJsonToggle::Updated(t) => t,
        _ => panic!("expected an update"),
    };
    let v: serde_json::Value = serde_json::from_str(&fresh).unwrap();
    assert_eq!(v["skills"]["disabled"], serde_json::Value::from(vec!["web"]));
    assert_eq!(v["id"], "a2");
}
