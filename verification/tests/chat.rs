use agentcorp::chat::{extract_message_text, find_tool_input, get_str_member};

#[test]
fn extract_text_from_string_content() {
    let data = r#"{"content": "hello"}"#;
    assert_eq!(extract_message_text(data), "hello");
}

#[test]
fn extract_text_from_array_content() {
    let data = r#"{"content": [
        {"type": "text", "text": "line1"},
        {"type": "image", "url": "img"},
        {"type": "text", "text": "line2"}
    ]}"#;
    assert_eq!(extract_message_text(data), "line1\nline2");
}

#[test]
fn extract_text_from_data_string() {
    assert_eq!(extract_message_text(r#""hello world""#), "hello world");
}

#[test]
fn extract_text_falls_back_to_text_error_and_pretty() {
    assert_eq!(extract_message_text(r#"{"text": "t"}"#), "t");
    assert_eq!(extract_message_text(r#"{"error": "boom"}"#), "boom");
    assert_eq!(extract_message_text(r#"{"a":1}"#), "{\n  \"a\": 1\n}");
    assert_eq!(extract_message_text(r#"{"content": []}"#), "");
}

#[test]
fn string_members() {
    assert_eq!(get_str_member(r#"{"k": "v"}"#, "k"), Some("v".to_string()));
    assert_eq!(get_str_member(r#"{"k": 3}"#, "k"), None);
    assert_eq!(get_str_member(r#"{"k": "v"}"#, "x"), None);
}

fn msg(kind: &str, data: &str) -> (String, String) {
    (kind.to_string(), data.to_string())
}

#[test]
fn tool_input_by_id_is_pretty_printed() {
    let msgs = vec![
        msg("assistant", r#"{"tool_calls": [
            {"id": "a", "function": {"name": "f", "arguments": "{\"x\":1}"}},
            {"id": "b", "function": {"name": "g", "arguments": "plain"}}
        ]}"#),
        msg("tool_result", r#"{}"#),
    ];
    assert_eq!(find_tool_input(&msgs, 1, "a", ""), "{\n  \"x\": 1\n}");
    assert_eq!(find_tool_input(&msgs, 1, "b", ""), "plain");
    assert_eq!(find_tool_input(&msgs, 1, "", "g"), "plain");
    assert_eq!(find_tool_input(&msgs, 1, "zz", ""), "");
}

#[test]
fn tool_input_searches_only_latest_assistant() {
    let msgs = vec![
        msg("assistant", r#"{"tool_calls": [{"id": "a", "function": {"name": "f", "arguments": "old"}}]}"#),
        msg("assistant", r#"{"content": "no calls"}"#),
        msg("tool_result", r#"{}"#),
    ];
    assert_eq!(find_tool_input(&msgs, 2, "a", ""), "");
    assert_eq!(find_tool_input(&msgs, 1, "a", ""), "old");
    assert_eq!(find_tool_input(&msgs, 0, "a", ""), "");
}
