use agentcorp::chat::{chat_header, steer_badge, strip_tag_prefix};
use agentcorp::grouping::{group_agents, group_tools};
use agentcorp::web::{
    log_level_badge_class, message_priority_class, next_task_status, task_counts, task_status_class,
};

#[test]
fn tag_prefix_is_stripped_at_first_marker() {
    assert_eq!(strip_tag_prefix("[from lead] do it"), "do it");
    assert_eq!(strip_tag_prefix("[a] b] c"), "b] c");
    assert_eq!(strip_tag_prefix("[no marker"), "[no marker");
    assert_eq!(strip_tag_prefix("plain [x] y"), "plain [x] y");
    assert_eq!(strip_tag_prefix(""), "");
    assert_eq!(strip_tag_prefix("[x] "), "");
}

#[test]
fn chat_headers_by_sender() {
    assert_eq!(chat_header(r#"{"content":"hi"}"#), "You");
    assert_eq!(chat_header(r#"{"sender":"user"}"#), "You");
    assert_eq!(chat_header(r#"{"sender":"system"}"#), "System");
    assert_eq!(chat_header(r#"{"sender":"supervisor"}"#), "System");
    assert_eq!(chat_header(r#"{"sender":"alice"}"#), "alice");
}

#[test]
fn steer_badge_only_for_steer() {
    assert_eq!(steer_badge(r#"{"priority":"steer"}"#), " \u{26A1} steer");
    assert_eq!(steer_badge(r#"{"priority":"collect"}"#), "");
    assert_eq!(steer_badge(r#"{}"#), "");
}

#[test]
fn task_board_status_progression() {
    assert_eq!(next_task_status("pending"), Some(("claimed", "Claim")));
    assert_eq!(next_task_status("claimed"), Some(("in_progress", "Start")));
    assert_eq!(next_task_status("in_progress"), Some(("done", "Complete")));
    assert_eq!(next_task_status("done"), None);
    assert_eq!(next_task_status("weird"), None);
}

#[test]
fn task_board_classes() {
    assert_eq!(task_status_class("done"), "badge badge-success badge-sm");
    assert_eq!(task_status_class("in_progress"), "badge badge-primary badge-sm");
    assert_eq!(task_status_class("claimed"), "badge badge-info badge-sm");
    assert_eq!(task_status_class("pending"), "badge badge-ghost badge-sm");
    assert_eq!(message_priority_class("steer"), "badge badge-warning badge-xs");
    assert_eq!(message_priority_class("collect"), "badge badge-primary badge-xs");
}

#[test]
fn task_counts_per_status() {
    let statuses: Vec<String> = ["pending", "claimed", "done", "in_progress", "pending", "blocked"]
        .iter()
        .map(|s| s.to_string())
        .collect();
    assert_eq!(task_counts(&statuses), (2, 2, 1));
    assert_eq!(task_counts(&vec![]), (0, 0, 0));
}

#[test]
fn agents_grouped_by_team() {
    let t = |id: &str, name: &str| (false, Some(id.to_string()), Some(name.to_string()));
    let agents = vec![
        t("zeta", "Zeta Team"),
        (false, None, None),
        (true, None, None),
        t("alpha", "Alpha"),
        (false, Some("beta".to_string()), None),
        t("zeta", "Renamed"),
        (true, None, None),
    ];
    let (system, teams, ungrouped) = group_agents(&agents);
    assert_eq!(system, Some(2));
    assert_eq!(
        teams,
        vec![
            ("alpha".to_string(), "Alpha".to_string(), vec![3]),
            ("zeta".to_string(), "Zeta Team".to_string(), vec![0, 5]),
        ]
    );
    assert_eq!(ungrouped, vec![1, 4]);
    assert_eq!(group_agents(&vec![]), (None, vec![], vec![]));
}

#[test]
fn tools_grouped_with_other() {
    let groups: Vec<String> = ["memory", "", "browser", "memory", ""].iter().map(|s| s.to_string()).collect();
    assert_eq!(
        group_tools(&groups),
        vec![
            ("browser".to_string(), vec![2]),
            ("memory".to_string(), vec![0, 3]),
            ("other".to_string(), vec![1, 4]),
        ]
    );
}

#[test]
fn log_level_badges_ignore_case() {
    assert_eq!(log_level_badge_class("ERROR"), "badge badge-error badge-sm");
    assert_eq!(log_level_badge_class("Warn"), "badge badge-warning badge-sm");
    assert_eq!(log_level_badge_class("info"), "badge badge-primary badge-sm");
    assert_eq!(log_level_badge_class("DEBUG"), "badge badge-ghost badge-sm");
    assert_eq!(log_level_badge_class("trace"), "badge badge-sm");
}
