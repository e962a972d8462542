//! Reading tool arguments (a JSON object, as text) and building tool errors.

use vstd::prelude::*;
use crate::error::AgentCorpError;
use crate::json::{json_get_str, json_str_field};
use crate::text::{concat, concat3, str_eq, str_to_lowercase, unicode_lowercase};
use crate::types::{MessagePriority, TaskStatus};

verus! {

/// The message of a missing required parameter.
pub open spec fn missing_param_message(key: Seq<char>) -> Seq<char> {
    "missing '"@ + key + "' parameter"@
}

/// `e` is a tool error of `tool` with `message`.
pub open spec fn is_tool_error(e: AgentCorpError, tool: Seq<char>, message: Seq<char>) -> bool {
    e matches AgentCorpError::Tool { tool: t, message: m } && t@ == tool && m@ == message
}

/// The string argument `key`, or `default` when it is absent or not a string.
pub open spec fn str_arg_or_spec(args: Seq<char>, key: Seq<char>, default: Seq<char>) -> Seq<char> {
    match json_str_field(args, key) {
        Some(v) => v,
        None => default,
    }
}

/// A tool error.
pub fn tool_error(tool: &str, message: String) -> (e: AgentCorpError)
    ensures
        is_tool_error(e, tool@, message@),
{
    AgentCorpError::Tool { tool: tool.to_owned(), message }
}

/// The required string argument `key`; its absence is an error of `tool`.
pub fn required_str_arg(args: &str, key: &str, tool: &str) -> (r: Result<String, AgentCorpError>)
    ensures
        match json_str_field(args@, key@) {
            Some(v) => r matches Ok(s) && s@ == v,
            None => r matches Err(e) && is_tool_error(e, tool@, missing_param_message(key@)),
        },
{
    match json_get_str(args, key) {
        Some(s) => Ok(s),
        None => Err(tool_error(tool, concat3("missing '", key, "' parameter"))),
    }
}

/// The string argument `key`, or `default`.
pub fn str_arg_or(args: &str, key: &str, default: &str) -> (r: String)
    ensures
        r@ == str_arg_or_spec(args@, key@, default@),
{
    match json_get_str(args, key) {
        Some(s) => s,
        None => default.to_owned(),
    }
}

/// Message priority from its name, case-insensitively: `steer` steers,
/// anything else collects.
pub open spec fn parse_priority_spec(s: Seq<char>) -> MessagePriority {
    if unicode_lowercase(s) == "steer"@ {
        MessagePriority::Steer
    } else {
        MessagePriority::Collect
    }
}

pub fn parse_priority(s: &str) -> (p: MessagePriority)
    ensures
        p == parse_priority_spec(s@),
{
    let lower = str_to_lowercase(s);
    if str_eq(lower.as_str(), "steer") {
        MessagePriority::Steer
    } else {
        MessagePriority::Collect
    }
}

/// Task status from its name, case-insensitively.
pub open spec fn parse_task_status_spec(s: Seq<char>) -> Option<TaskStatus> {
    let l = unicode_lowercase(s);
    if l == "pending"@ {
        Some(TaskStatus::Pending)
    } else if l == "claimed"@ {
        Some(TaskStatus::Claimed)
    } else if l == "in_progress"@ {
        Some(TaskStatus::InProgress)
    } else if l == "done"@ {
        Some(TaskStatus::Done)
    } else if l == "failed"@ {
        Some(TaskStatus::Failed)
    } else {
        None
    }
}

pub fn parse_task_status(s: &str) -> (r: Option<TaskStatus>)
    ensures
        r == parse_task_status_spec(s@),
{
    let lower = str_to_lowercase(s);
    let l = lower.as_str();
    if str_eq(l, "pending") {
        Some(TaskStatus::Pending)
    } else if str_eq(l, "claimed") {
        Some(TaskStatus::Claimed)
    } else if str_eq(l, "in_progress") {
        Some(TaskStatus::InProgress)
    } else if str_eq(l, "done") {
        Some(TaskStatus::Done)
    } else if str_eq(l, "failed") {
        Some(TaskStatus::Failed)
    } else {
        None
    }
}

/// The optional string argument `key` read as a task status name.
pub open spec fn status_arg_spec(args: Seq<char>) -> Option<TaskStatus> {
    match json_str_field(args, "status"@) {
        Some(v) => parse_task_status_spec(v),
        None => None,
    }
}

/// The `status` argument as a task status, if present and known.
pub fn status_arg(args: &str) -> (r: Option<TaskStatus>)
    ensures
        r == status_arg_spec(args@),
{
    match json_get_str(args, "status") {
        Some(v) => parse_task_status(v.as_str()),
        None => None,
    }
}

/// `verb task 'title' (id: id)`, the reply of the task tools.
pub open spec fn task_reply_spec(verb: Seq<char>, title: Seq<char>, id: Seq<char>) -> Seq<char> {
    verb + " task '"@ + title + "' (id: "@ + id + ")"@
}

pub fn task_reply(verb: &str, title: &str, id: &str) -> (r: String)
    ensures
        r@ == task_reply_spec(verb@, title@, id@),
{
    let a = concat3(verb, " task '", title);
    let b = concat3(a.as_str(), "' (id: ", id);
    concat(b.as_str(), ")")
}

} // verus!
