use std::sync::Arc;

use agentcorp::error::AgentCorpError;
use agentcorp::tool::args::{parse_priority, parse_task_status};
use agentcorp::tool::memory::{MemorySearchTool, MemoryWriteTool, MEMORY_SEARCH_LIMIT};
use agentcorp::tool::registry::{reachable_server_tools, ToolRegistry};
use agentcorp::tool::team::{
    require_team_dir, AssignTaskTool, ClaimTaskTool, CompleteTaskTool, CreateTaskTool, ListTasksTool,
    SendMessageTool, ToolContext, UpdateTaskTool,
};
use agentcorp::types::{MessagePriority, TaskStatus, TaskSummary};

fn ctx(team: Option<&str>) -> Arc<ToolContext> {
    Arc::new(ToolContext {
        agent_id: "alice".to_string(),
        memory_dir: "/ws/agents/alice/memory".to_string(),
        team_dir: team.map(|t| t.to_string()),
    })
}

fn tool_error(r: AgentCorpError) -> (String, String) {
    match r {
        AgentCorpError::Tool { tool, message } => (tool, message),
        other => panic!("not a tool error: {other:?}"),
    }
}

fn dummy_registry() -> ToolRegistry<&'static str> {
    let mut reg = ToolRegistry::new();
    reg.register(
        "dummy".to_string(),
        "A dummy tool".to_string(),
        r#"{"type":"object","properties":{}}"#.to_string(),
        "dummy tool",
    );
    reg
}

#[test]
fn register_and_get() {
    let reg = dummy_registry();
    assert_eq!(reg.len(), 1);
    assert!(reg.get("dummy").is_some());
    assert!(reg.get("nonexistent").is_none());
}

#[test]
fn schema_generation() {
    let reg = dummy_registry();
    let schemas = reg.get_schemas();
    assert_eq!(schemas.len(), 1);
    assert_eq!(schemas[0].schema_type, "function");
    assert_eq!(schemas[0].function.name, "dummy");
}

#[test]
fn filter_disabled() {
    let reg = dummy_registry();
    let filtered = reg.get_schemas_filtered(&vec!["dummy".to_owned()]);
    assert!(filtered.is_empty());
    let unfiltered = reg.get_schemas_filtered(&vec![]);
    assert_eq!(unfiltered.len(), 1);
}

#[test]
fn registry_names_sorted() {
    let mut reg: ToolRegistry<u8> = ToolRegistry::new();
    assert!(reg.is_empty());
    for (i, n) in ["shell", "click", "memory_search"].iter().enumerate() {
        reg.register(n.to_string(), String::new(), "{}".to_string(), i as u8);
    }
    assert_eq!(reg.names(), vec!["click", "memory_search", "shell"]);
    let names: Vec<String> = reg.get_schemas().into_iter().map(|s| s.function.name).collect();
    assert_eq!(names, vec!["click", "memory_search", "shell"]);
    assert_eq!(reg.get("click"), Some(&1));
    assert!(reg.contains("shell"));
    assert!(!reg.contains("type"));
    let left: Vec<String> = reg
        .get_schemas_filtered(&vec!["click".to_string()])
        .into_iter()
        .map(|s| s.function.name)
        .collect();
    assert_eq!(left, vec!["shell", "memory_search"]);
}

#[test]
fn priorities_and_statuses() {
    assert_eq!(parse_priority("steer"), MessagePriority::Steer);
    assert_eq!(parse_priority("STEER"), MessagePriority::Steer);
    assert_eq!(parse_priority("collect"), MessagePriority::Collect);
    assert_eq!(parse_priority("urgent"), MessagePriority::Collect);
    assert_eq!(parse_task_status("Pending"), Some(TaskStatus::Pending));
    assert_eq!(parse_task_status("claimed"), Some(TaskStatus::Claimed));
    assert_eq!(parse_task_status("IN_PROGRESS"), Some(TaskStatus::InProgress));
    assert_eq!(parse_task_status("done"), Some(TaskStatus::Done));
    assert_eq!(parse_task_status("failed"), Some(TaskStatus::Failed));
    assert_eq!(parse_task_status("inprogress"), None);
}

#[test]
fn team_tools_need_a_team() {
    let c = ctx(None);
    assert_eq!(
        tool_error(require_team_dir(&c).unwrap_err()),
        ("team".to_string(), "agent is not part of a team".to_string())
    );
    let t = ClaimTaskTool::new(c.clone());
    assert_eq!(
        tool_error(t.request(r#"{"task_id":"t1"}"#).unwrap_err()).1,
        "agent is not part of a team"
    );
    assert!(ListTasksTool::new(c).request("{}").is_err());
}

#[test]
fn claim_and_complete_requests() {
    let c = ctx(Some("/ws/teams/alpha"));
    let claim = ClaimTaskTool::new(c.clone());
    assert_eq!(claim.name(), "claim_task");
    assert_eq!(
        claim.request(r#"{"task_id":"t1"}"#).unwrap(),
        ("/ws/teams/alpha".to_string(), "t1".to_string(), "alice".to_string())
    );
    assert_eq!(
        tool_error(claim.request("{}").unwrap_err()),
        ("claim_task".to_string(), "missing 'task_id' parameter".to_string())
    );
    assert_eq!(claim.reply("Fix bug", "t1"), "claimed task 'Fix bug' (id: t1)");
    let done = CompleteTaskTool::new(c.clone());
    let (_, id, agent, result) = done.request(r#"{"task_id":"t2"}"#).unwrap();
    assert_eq!((id.as_str(), agent.as_str(), result.as_str()), ("t2", "alice", "done"));
    assert_eq!(done.reply("X", "t2"), "completed task 'X' (id: t2)");
}

#[test]
fn create_update_assign_requests() {
    let c = ctx(Some("/ws/teams/alpha"));
    let create = CreateTaskTool::new(c.clone());
    let (_, title, desc, by) = create.request("{}").unwrap();
    assert_eq!((title.as_str(), desc.as_str(), by.as_str()), ("untitled", "", "alice"));
    assert_eq!(create.reply("T", "9"), "created task 'T' (id: 9)");

    let update = UpdateTaskTool::new(c.clone());
    let (_, u) = update
        .request(r#"{"task_id":"t3","status":"Done","assigned_to":"bob"}"#)
        .unwrap();
    assert_eq!(u.task_id, "t3");
    assert_eq!(u.status, Some(TaskStatus::Done));
    assert_eq!(u.assigned_to.as_deref(), Some("bob"));
    assert_eq!(u.result, None);
    assert_eq!(update.reply("T", "t3"), "updated task 'T' (id: t3)");

    let assign = AssignTaskTool::new(c);
    assert_eq!(
        tool_error(assign.request(r#"{"task_id":"t3"}"#).unwrap_err()),
        ("assign_task".to_string(), "missing 'agent_id' parameter".to_string())
    );
    let (_, task, who) = assign.request(r#"{"task_id":"t3","agent_id":"bob"}"#).unwrap();
    assert_eq!((task.as_str(), who.as_str()), ("t3", "bob"));
    assert_eq!(assign.reply("T", "bob"), "assigned task 'T' to bob");
}

#[test]
fn send_message_request() {
    let send = SendMessageTool::new(ctx(None));
    let (to, content, p) = send.request(r#"{"to":"bob","content":"hi","priority":"Steer"}"#).unwrap();
    assert_eq!((to.as_str(), content.as_str(), p), ("bob", "hi", MessagePriority::Steer));
    let (_, _, p) = send.request(r#"{"to":"bob","content":"hi"}"#).unwrap();
    assert_eq!(p, MessagePriority::Collect);
    assert_eq!(
        tool_error(send.request(r#"{"content":"hi"}"#).unwrap_err()).1,
        "missing 'to' parameter"
    );
    assert_eq!(
        tool_error(send.request(r#"{"to":"bob"}"#).unwrap_err()).1,
        "missing 'content' parameter"
    );
    assert_eq!(send.reply("bob"), "sent message to bob");
    assert_eq!(send.sender(), "alice");
}

#[test]
fn list_tasks_text() {
    let list = ListTasksTool::new(ctx(Some("/ws/teams/alpha")));
    assert_eq!(list.request(r#"{"status":"pending"}"#).unwrap().1, Some(TaskStatus::Pending));
    assert_eq!(list.request(r#"{"status":"weird"}"#).unwrap().1, None);
    assert_eq!(list.reply(&vec![]), "no tasks found");
    let tasks = vec![
        TaskSummary {
            id: "t1".to_string(),
            title: "A".to_string(),
            description: "do a".to_string(),
            status: TaskStatus::InProgress,
            assigned_to: Some("bob".to_string()),
        },
        TaskSummary {
            id: "t2".to_string(),
            title: "B".to_string(),
            description: "do b".to_string(),
            status: TaskStatus::Pending,
            assigned_to: None,
        },
    ];
    assert_eq!(
        list.reply(&tasks),
        "- [t1] A (status: InProgress, assigned: bob)\n  do a\n- [t2] B (status: Pending, assigned: none)\n  do b"
    );
}

#[test]
fn memory_tool_requests() {
    let search = MemorySearchTool::new(ctx(None));
    assert_eq!(search.request(r#"{"query":"x"}"#), ("x".to_string(), MEMORY_SEARCH_LIMIT));
    assert_eq!(search.request(r#"{"query":"x","limit":3}"#), ("x".to_string(), 3));
    assert_eq!(search.request("{}"), (String::new(), 10));
    let write = MemoryWriteTool::new(ctx(None));
    assert_eq!(
        write.request(r#"{"content":"c"}"#).unwrap(),
        ("MEMORY.md".to_string(), "c".to_string())
    );
    assert_eq!(
        tool_error(write.request(r#"{"file":"MEMORY.md"}"#).unwrap_err()),
        ("write_memory".to_string(), "missing 'content' parameter".to_string())
    );
    assert_eq!(write.reply("MEMORY.md"), "written to MEMORY.md");
    assert_eq!(write.memory_dir(), "/ws/agents/alice/memory");
}

#[test]
fn tool_parameters_are_json_objects() {
    let c = ctx(None);
    let schemas = [
        SendMessageTool::new(c.clone()).parameters(),
        ListTasksTool::new(c.clone()).parameters(),
        CreateTaskTool::new(c.clone()).parameters(),
        ClaimTaskTool::new(c.clone()).parameters(),
        CompleteTaskTool::new(c.clone()).parameters(),
        UpdateTaskTool::new(c.clone()).parameters(),
        AssignTaskTool::new(c.clone()).parameters(),
        MemorySearchTool::new(c.clone()).parameters(),
        MemoryWriteTool::new(c).parameters(),
    ];
    for s in schemas {
        let v: serde_json::Value = serde_json::from_str(s).unwrap();
        assert_eq!(v["type"], "object");
    }
}

#[test]
fn register_if_absent_skips_taken_names() {
    let mut reg: ToolRegistry<u8> = ToolRegistry::new();
    assert!(reg.register_if_absent("a".to_string(), "first".to_string(), "{}".to_string(), 1));
    assert!(!reg.register_if_absent("a".to_string(), "second".to_string(), "{}".to_string(), 2));
    assert_eq!(reg.len(), 1);
    assert_eq!(reg.get("a"), Some(&1));
    let schemas = reg.get_schemas();
    assert_eq!(schemas[0].function.description, "first");
    assert_eq!(schemas[0].schema_type, "function");
}

fn tool(n: &str, k: u8) -> (String, String, String, u8) {
    (n.to_string(), format!("tool {n}"), "{}".to_string(), k)
}

#[test]
fn discovered_tools_skip_unreachable_servers_and_taken_names() {
    let servers = vec![
        (true, Some(vec![tool("fs__read", 1), tool("fs__write", 2)])),
        (false, Some(vec![tool("db__query", 3)])),
        (true, None),
        (true, Some(vec![tool("fs__read", 4), tool("web__get", 5)])),
    ];
    let tools = reachable_server_tools(servers);
    let names: Vec<&str> = tools.iter().map(|t| t.0.as_str()).collect();
    assert_eq!(names, vec!["fs__read", "fs__write", "fs__read", "web__get"]);
    let mut reg: ToolRegistry<u8> = ToolRegistry::new();
    reg.register("web__get".to_string(), String::new(), "{}".to_string(), 0);
    assert_eq!(reg.register_new_tools(tools), 2);
    assert_eq!(reg.names(), vec!["fs__read", "fs__write", "web__get"]);
    assert_eq!(reg.get("fs__read"), Some(&1));
    assert_eq!(reg.get("web__get"), Some(&0));
}

#[test]
fn calling_unknown_tool_is_an_error() {
    let reg = dummy_registry();
    assert_eq!(reg.tool_for_call("dummy").ok(), Some(&"dummy tool"));
    match reg.tool_for_call("missing") {
        Err(AgentCorpError::Tool { tool, message }) => {
            assert_eq!(tool, "missing");
            assert_eq!(message, "tool not found");
        }
        _ => panic!("expected a tool error"),
    }
}
