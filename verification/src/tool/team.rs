//! Team tools: messaging other agents and working the team task board.
//! Each tool reads its arguments and says what to do; the caller performs
//! the board or inbox operation and asks the tool for its reply.

use std::sync::Arc;
use vstd::prelude::*;
use crate::error::AgentCorpError;
use crate::json::json_str_field;
use crate::text::{concat, concat3, join_lines};
use crate::tool::args::{
    is_tool_error, missing_param_message, parse_priority, parse_priority_spec, required_str_arg,
    status_arg, status_arg_spec, str_arg_or, str_arg_or_spec, task_reply, task_reply_spec, tool_error,
};
use crate::types::{task_status_debug, task_status_debug_spec, MessagePriority, TaskStatus, TaskSummary};

verus! {

/// What the tools know of the agent that runs them.
pub struct ToolContext {
    pub agent_id: String,
    /// The agent's memory directory.
    pub memory_dir: String,
    /// The agent's team directory, when it belongs to a team.
    pub team_dir: Option<String>,
}

/// The error of a team tool used by an agent outside any team.
pub open spec fn not_in_team_error(e: AgentCorpError) -> bool {
    is_tool_error(e, "team"@, "agent is not part of a team"@)
}

/// The team directory of the agent, or an error when it has none.
pub fn require_team_dir(ctx: &ToolContext) -> (r: Result<String, AgentCorpError>)
    ensures
        match ctx.team_dir {
            Some(d) => r matches Ok(s) && s@ == d@,
            None => r matches Err(e) && not_in_team_error(e),
        },
{
    match &ctx.team_dir {
        Some(d) => Ok(d.clone()),
        None => Err(tool_error("team", "agent is not part of a team".to_owned())),
    }
}

/// Sends a message to another agent's inbox.
pub struct SendMessageTool {
    ctx: Arc<ToolContext>,
}

impl SendMessageTool {
    pub fn new(ctx: Arc<ToolContext>) -> (t: Self)
        ensures
            t.context() == *ctx,
    {
        SendMessageTool { ctx }
    }

    /// The context the tool runs in.
    pub closed spec fn context(&self) -> ToolContext {
        *self.ctx
    }

    pub fn name(&self) -> (r: &'static str)
        ensures
            r@ == "send_message"@,
    {
        "send_message"
    }

    pub fn description(&self) -> (r: &'static str)
        ensures
            r@ == "Send a message to another agent's inbox"@,
    {
        "Send a message to another agent's inbox"
    }

    /// The JSON schema of the arguments.
    pub fn parameters(&self) -> (r: &'static str)
        ensures
            r@ == "{\"type\":\"object\",\"properties\":{\"to\":{\"type\":\"string\",\"description\":\"Target agent ID\"},\"content\":{\"type\":\"string\",\"description\":\"Message content\"},\"priority\":{\"type\":\"string\",\"enum\":[\"collect\",\"steer\"],\"description\":\"Message priority (default: collect)\"}},\"required\":[\"to\",\"content\"]}"@,
    {
        "{\"type\":\"object\",\"properties\":{\"to\":{\"type\":\"string\",\"description\":\"Target agent ID\"},\"content\":{\"type\":\"string\",\"description\":\"Message content\"},\"priority\":{\"type\":\"string\",\"enum\":[\"collect\",\"steer\"],\"description\":\"Message priority (default: collect)\"}},\"required\":[\"to\",\"content\"]}"
    }

    /// The sending agent.
    pub fn sender(&self) -> (s: String)
        ensures
            s@ == self.context().agent_id@,
    {
        self.ctx.agent_id.clone()
    }

    /// (target agent, content, priority) of a send: `to` and `content` are
    /// required; the priority defaults to collect.
    pub fn request(&self, args: &str) -> (r: Result<(String, String, MessagePriority), AgentCorpError>)
        ensures
            match (json_str_field(args@, "to"@), json_str_field(args@, "content"@)) {
                (Some(to), Some(content)) => r matches Ok((t, c, p)) && t@ == to && c@ == content
                    && p == match json_str_field(args@, "priority"@) {
                        Some(ps) => parse_priority_spec(ps),
                        None => MessagePriority::Collect,
                    },
                (None, _) => r matches Err(e) && is_tool_error(e, "send_message"@, missing_param_message("to"@)),
                (Some(_), None) => r matches Err(e) && is_tool_error(e, "send_message"@, missing_param_message("content"@)),
            },
    {
        let to = match required_str_arg(args, "to", "send_message") {
            Ok(t) => t,
            Err(e) => return Err(e),
        };
        let content = match required_str_arg(args, "content", "send_message") {
            Ok(c) => c,
            Err(e) => return Err(e),
        };
        let priority = match crate::json::json_get_str(args, "priority") {
            Some(p) => parse_priority(p.as_str()),
            None => MessagePriority::Collect,
        };
        Ok((to, content, priority))
    }

    /// The reply once the message is in the inbox.
    pub fn reply(&self, to: &str) -> (r: String)
        ensures
            r@ == "sent message to "@ + to@,
    {
        concat("sent message to ", to)
    }
}

/// One task as the task list shows it.
pub open spec fn task_line_spec(t: TaskSummary) -> Seq<char> {
    "- ["@ + t.id@ + "] "@ + t.title@ + " (status: "@ + task_status_debug_spec(t.status)
        + ", assigned: "@ + (match t.assigned_to {
        Some(a) => a@,
        None => "none"@,
    }) + ")\n  "@ + t.description@
}

/// The task list text: one entry per task, or `no tasks found`.
pub open spec fn task_list_spec(tasks: Seq<TaskSummary>) -> Seq<char> {
    if tasks.len() == 0 {
        "no tasks found"@
    } else {
        join_lines(tasks.map_values(|t: TaskSummary| task_line_spec(t)))
    }
}

/// One task as the task list shows it.
pub fn task_line(t: &TaskSummary) -> (r: String)
    ensures
        r@ == task_line_spec(*t),
{
    let a = concat3("- [", t.id.as_str(), "] ");
    let b = concat3(a.as_str(), t.title.as_str(), " (status: ");
    let c = concat3(b.as_str(), task_status_debug(t.status), ", assigned: ");
    let d = match &t.assigned_to {
        Some(x) => concat(c.as_str(), x.as_str()),
        None => concat(c.as_str(), "none"),
    };
    concat3(d.as_str(), ")\n  ", t.description.as_str())
}

/// The text that lists tasks.
pub fn task_list_text(tasks: &Vec<TaskSummary>) -> (r: String)
    ensures
        r@ == task_list_spec(tasks@),
{
    if tasks.len() == 0 {
        return "no tasks found".to_owned();
    }
    let ghost lines = tasks@.map_values(|t: TaskSummary| task_line_spec(t));
    let mut out = task_line(&tasks[0]);
    assert(lines.take(1).drop_last() =~= Seq::<Seq<char>>::empty());
    assert(out@ == join_lines(lines.take(1)));
    let mut i: usize = 1;
    while i < tasks.len()
        invariant
            1 <= i <= tasks@.len(),
            lines == tasks@.map_values(|t: TaskSummary| task_line_spec(t)),
            out@ == join_lines(lines.take(i as int)),
        decreases tasks.len() - i,
    {
        let line = task_line(&tasks[i]);
        out = concat3(out.as_str(), "\n", line.as_str());
        proof {
            assert(lines.take(i + 1).drop_last() =~= lines.take(i as int));
            assert(lines.take(i + 1).last() == line@);
        }
        i = i + 1;
    }
    assert(lines.take(i as int) =~= lines);
    out
}

/// Lists tasks on the team task board.
pub struct ListTasksTool {
    ctx: Arc<ToolContext>,
}

impl ListTasksTool {
    pub fn new(ctx: Arc<ToolContext>) -> (t: Self)
        ensures
            t.context() == *ctx,
    {
        ListTasksTool { ctx }
    }

    /// The context the tool runs in.
    pub closed spec fn context(&self) -> ToolContext {
        *self.ctx
    }

    pub fn name(&self) -> (r: &'static str)
        ensures
            r@ == "list_tasks"@,
    {
        "list_tasks"
    }

    pub fn description(&self) -> (r: &'static str)
        ensures
            r@ == "List tasks on the team task board"@,
    {
        "List tasks on the team task board"
    }

    /// The JSON schema of the arguments.
    pub fn parameters(&self) -> (r: &'static str)
        ensures
            r@ == "{\"type\":\"object\",\"properties\":{\"status\":{\"type\":\"string\",\"enum\":[\"pending\",\"claimed\",\"in_progress\",\"done\",\"failed\"],\"description\":\"Filter by status (optional)\"}}}"@,
    {
        "{\"type\":\"object\",\"properties\":{\"status\":{\"type\":\"string\",\"enum\":[\"pending\",\"claimed\",\"in_progress\",\"done\",\"failed\"],\"description\":\"Filter by status (optional)\"}}}"
    }

    /// (team directory, status filter): the agent must be in a team; an
    /// unknown or absent status means no filter.
    pub fn request(&self, args: &str) -> (r: Result<(String, Option<TaskStatus>), AgentCorpError>)
        ensures
            match self.context().team_dir {
                Some(d) => r matches Ok((t, s)) && t@ == d@ && s == status_arg_spec(args@),
                None => r matches Err(e) && not_in_team_error(e),
            },
    {
        let team = match require_team_dir(&self.ctx) {
            Ok(t) => t,
            Err(e) => return Err(e),
        };
        Ok((team, status_arg(args)))
    }

    /// The reply for the tasks found.
    pub fn reply(&self, tasks: &Vec<TaskSummary>) -> (r: String)
        ensures
            r@ == task_list_spec(tasks@),
    {
        task_list_text(tasks)
    }
}

/// Creates a task on the team task board.
pub struct CreateTaskTool {
    ctx: Arc<ToolContext>,
}

impl CreateTaskTool {
    pub fn new(ctx: Arc<ToolContext>) -> (t: Self)
        ensures
            t.context() == *ctx,
    {
        CreateTaskTool { ctx }
    }

    /// The context the tool runs in.
    pub closed spec fn context(&self) -> ToolContext {
        *self.ctx
    }

    pub fn name(&self) -> (r: &'static str)
        ensures
            r@ == "create_task"@,
    {
        "create_task"
    }

    pub fn description(&self) -> (r: &'static str)
        ensures
            r@ == "Create a new task on the team task board"@,
    {
        "Create a new task on the team task board"
    }

    /// The JSON schema of the arguments.
    pub fn parameters(&self) -> (r: &'static str)
        ensures
            r@ == "{\"type\":\"object\",\"properties\":{\"title\":{\"type\":\"string\",\"description\":\"Task title\"},\"description\":{\"type\":\"string\",\"description\":\"Task description\"}},\"required\":[\"title\",\"description\"]}"@,
    {
        "{\"type\":\"object\",\"properties\":{\"title\":{\"type\":\"string\",\"description\":\"Task title\"},\"description\":{\"type\":\"string\",\"description\":\"Task description\"}},\"required\":[\"title\",\"description\"]}"
    }

    /// (team directory, title, description, creator): the title defaults to
    /// `untitled` and the description to empty; the creator is the agent.
    pub fn request(&self, args: &str) -> (r: Result<(String, String, String, String), AgentCorpError>)
        ensures
            match self.context().team_dir {
                Some(d) => r matches Ok((t, title, desc, by)) && t@ == d@
                    && title@ == str_arg_or_spec(args@, "title"@, "untitled"@)
                    && desc@ == str_arg_or_spec(args@, "description"@, ""@)
                    && by@ == self.context().agent_id@,
                None => r matches Err(e) && not_in_team_error(e),
            },
    {
        let team = match require_team_dir(&self.ctx) {
            Ok(t) => t,
            Err(e) => return Err(e),
        };
        let title = str_arg_or(args, "title", "untitled");
        let description = str_arg_or(args, "description", "");
        Ok((team, title, description, self.ctx.agent_id.clone()))
    }

    pub fn reply(&self, title: &str, id: &str) -> (r: String)
        ensures
            r@ == task_reply_spec("created"@, title@, id@),
    {
        task_reply("created", title, id)
    }
}

/// Claims an available task.
pub struct ClaimTaskTool {
    ctx: Arc<ToolContext>,
}

impl ClaimTaskTool {
    pub fn new(ctx: Arc<ToolContext>) -> (t: Self)
        ensures
            t.context() == *ctx,
    {
        ClaimTaskTool { ctx }
    }

    /// The context the tool runs in.
    pub closed spec fn context(&self) -> ToolContext {
        *self.ctx
    }

    pub fn name(&self) -> (r: &'static str)
        ensures
            r@ == "claim_task"@,
    {
        "claim_task"
    }

    pub fn description(&self) -> (r: &'static str)
        ensures
            r@ == "Claim an available task from the task board"@,
    {
        "Claim an available task from the task board"
    }

    /// The JSON schema of the arguments.
    pub fn parameters(&self) -> (r: &'static str)
        ensures
            r@ == "{\"type\":\"object\",\"properties\":{\"task_id\":{\"type\":\"string\",\"description\":\"Task ID to claim\"}},\"required\":[\"task_id\"]}"@,
    {
        "{\"type\":\"object\",\"properties\":{\"task_id\":{\"type\":\"string\",\"description\":\"Task ID to claim\"}},\"required\":[\"task_id\"]}"
    }

    /// (team directory, task id, claiming agent); `task_id` is required.
    pub fn request(&self, args: &str) -> (r: Result<(String, String, String), AgentCorpError>)
        ensures
            match (self.context().team_dir, json_str_field(args@, "task_id"@)) {
                (None, _) => r matches Err(e) && not_in_team_error(e),
                (Some(d), Some(id)) => r matches Ok((t, i, a)) && t@ == d@ && i@ == id
                    && a@ == self.context().agent_id@,
                (Some(_), None) => r matches Err(e)
                    && is_tool_error(e, "claim_task"@, missing_param_message("task_id"@)),
            },
    {
        let team = match require_team_dir(&self.ctx) {
            Ok(t) => t,
            Err(e) => return Err(e),
        };
        let id = match required_str_arg(args, "task_id", "claim_task") {
            Ok(i) => i,
            Err(e) => return Err(e),
        };
        Ok((team, id, self.ctx.agent_id.clone()))
    }

    pub fn reply(&self, title: &str, id: &str) -> (r: String)
        ensures
            r@ == task_reply_spec("claimed"@, title@, id@),
    {
        task_reply("claimed", title, id)
    }
}

/// Marks a task as completed.
pub struct CompleteTaskTool {
    ctx: Arc<ToolContext>,
}

impl CompleteTaskTool {
    pub fn new(ctx: Arc<ToolContext>) -> (t: Self)
        ensures
            t.context() == *ctx,
    {
        CompleteTaskTool { ctx }
    }

    /// The context the tool runs in.
    pub closed spec fn context(&self) -> ToolContext {
        *self.ctx
    }

    pub fn name(&self) -> (r: &'static str)
        ensures
            r@ == "complete_task"@,
    {
        "complete_task"
    }

    pub fn description(&self) -> (r: &'static str)
        ensures
            r@ == "Mark a task as completed with a result"@,
    {
        "Mark a task as completed with a result"
    }

    /// The JSON schema of the arguments.
    pub fn parameters(&self) -> (r: &'static str)
        ensures
            r@ == "{\"type\":\"object\",\"properties\":{\"task_id\":{\"type\":\"string\",\"description\":\"Task ID to complete\"},\"result\":{\"type\":\"string\",\"description\":\"Result description\"}},\"required\":[\"task_id\",\"result\"]}"@,
    {
        "{\"type\":\"object\",\"properties\":{\"task_id\":{\"type\":\"string\",\"description\":\"Task ID to complete\"},\"result\":{\"type\":\"string\",\"description\":\"Result description\"}},\"required\":[\"task_id\",\"result\"]}"
    }

    /// (team directory, task id, agent, result): `task_id` is required, the
    /// result defaults to `done`.
    pub fn request(&self, args: &str) -> (r: Result<(String, String, String, String), AgentCorpError>)
        ensures
            match (self.context().team_dir, json_str_field(args@, "task_id"@)) {
                (None, _) => r matches Err(e) && not_in_team_error(e),
                (Some(d), Some(id)) => r matches Ok((t, i, a, res)) && t@ == d@ && i@ == id
                    && a@ == self.context().agent_id@ && res@ == str_arg_or_spec(args@, "result"@, "done"@),
                (Some(_), None) => r matches Err(e)
                    && is_tool_error(e, "complete_task"@, missing_param_message("task_id"@)),
            },
    {
        let team = match require_team_dir(&self.ctx) {
            Ok(t) => t,
            Err(e) => return Err(e),
        };
        let id = match required_str_arg(args, "task_id", "complete_task") {
            Ok(i) => i,
            Err(e) => return Err(e),
        };
        let result = str_arg_or(args, "result", "done");
        Ok((team, id, self.ctx.agent_id.clone(), result))
    }

    pub fn reply(&self, title: &str, id: &str) -> (r: String)
        ensures
            r@ == task_reply_spec("completed"@, title@, id@),
    {
        task_reply("completed", title, id)
    }
}

/// What an update changes: the optional new status, assignee and result.
pub struct TaskUpdate {
    pub task_id: String,
    pub status: Option<TaskStatus>,
    pub assigned_to: Option<String>,
    pub result: Option<String>,
}

/// Updates fields of a task.
pub struct UpdateTaskTool {
    ctx: Arc<ToolContext>,
}

impl UpdateTaskTool {
    pub fn new(ctx: Arc<ToolContext>) -> (t: Self)
        ensures
            t.context() == *ctx,
    {
        UpdateTaskTool { ctx }
    }

    /// The context the tool runs in.
    pub closed spec fn context(&self) -> ToolContext {
        *self.ctx
    }

    pub fn name(&self) -> (r: &'static str)
        ensures
            r@ == "update_task"@,
    {
        "update_task"
    }

    pub fn description(&self) -> (r: &'static str)
        ensures
            r@ == "Update fields on a task"@,
    {
        "Update fields on a task"
    }

    /// The JSON schema of the arguments.
    pub fn parameters(&self) -> (r: &'static str)
        ensures
            r@ == "{\"type\":\"object\",\"properties\":{\"task_id\":{\"type\":\"string\",\"description\":\"Task ID to update\"},\"status\":{\"type\":\"string\",\"enum\":[\"pending\",\"claimed\",\"in_progress\",\"done\",\"failed\"],\"description\":\"New status\"},\"assigned_to\":{\"type\":\"string\",\"description\":\"Agent to assign to\"},\"result\":{\"type\":\"string\",\"description\":\"Result text\"}},\"required\":[\"task_id\"]}"@,
    {
        "{\"type\":\"object\",\"properties\":{\"task_id\":{\"type\":\"string\",\"description\":\"Task ID to update\"},\"status\":{\"type\":\"string\",\"enum\":[\"pending\",\"claimed\",\"in_progress\",\"done\",\"failed\"],\"description\":\"New status\"},\"assigned_to\":{\"type\":\"string\",\"description\":\"Agent to assign to\"},\"result\":{\"type\":\"string\",\"description\":\"Result text\"}},\"required\":[\"task_id\"]}"
    }

    /// (team directory, update): `task_id` is required; an unknown status
    /// name leaves the status unchanged.
    pub fn request(&self, args: &str) -> (r: Result<(String, TaskUpdate), AgentCorpError>)
        ensures
            match (self.context().team_dir, json_str_field(args@, "task_id"@)) {
                (None, _) => r matches Err(e) && not_in_team_error(e),
                (Some(d), Some(id)) => r matches Ok((t, u)) && t@ == d@ && u.task_id@ == id
                    && u.status == status_arg_spec(args@)
                    && (match json_str_field(args@, "assigned_to"@) {
                        Some(a) => u.assigned_to matches Some(x) && x@ == a,
                        None => u.assigned_to is None,
                    })
                    && (match json_str_field(args@, "result"@) {
                        Some(a) => u.result matches Some(x) && x@ == a,
                        None => u.result is None,
                    }),
                (Some(_), None) => r matches Err(e)
                    && is_tool_error(e, "update_task"@, missing_param_message("task_id"@)),
            },
    {
        let team = match require_team_dir(&self.ctx) {
            Ok(t) => t,
            Err(e) => return Err(e),
        };
        let id = match required_str_arg(args, "task_id", "update_task") {
            Ok(i) => i,
            Err(e) => return Err(e),
        };
        let status = status_arg(args);
        let assigned_to = crate::json::json_get_str(args, "assigned_to");
        let result = crate::json::json_get_str(args, "result");
        Ok((team, TaskUpdate { task_id: id, status, assigned_to, result }))
    }

    pub fn reply(&self, title: &str, id: &str) -> (r: String)
        ensures
            r@ == task_reply_spec("updated"@, title@, id@),
    {
        task_reply("updated", title, id)
    }
}

/// Assigns a task to an agent.
pub struct AssignTaskTool {
    ctx: Arc<ToolContext>,
}

impl AssignTaskTool {
    pub fn new(ctx: Arc<ToolContext>) -> (t: Self)
        ensures
            t.context() == *ctx,
    {
        AssignTaskTool { ctx }
    }

    /// The context the tool runs in.
    pub closed spec fn context(&self) -> ToolContext {
        *self.ctx
    }

    pub fn name(&self) -> (r: &'static str)
        ensures
            r@ == "assign_task"@,
    {
        "assign_task"
    }

    pub fn description(&self) -> (r: &'static str)
        ensures
            r@ == "Assign a task to a specific agent"@,
    {
        "Assign a task to a specific agent"
    }

    /// The JSON schema of the arguments.
    pub fn parameters(&self) -> (r: &'static str)
        ensures
            r@ == "{\"type\":\"object\",\"properties\":{\"task_id\":{\"type\":\"string\",\"description\":\"Task ID\"},\"agent_id\":{\"type\":\"string\",\"description\":\"Agent to assign to\"}},\"required\":[\"task_id\",\"agent_id\"]}"@,
    {
        "{\"type\":\"object\",\"properties\":{\"task_id\":{\"type\":\"string\",\"description\":\"Task ID\"},\"agent_id\":{\"type\":\"string\",\"description\":\"Agent to assign to\"}},\"required\":[\"task_id\",\"agent_id\"]}"
    }

    /// (team directory, task id, agent to assign): both ids are required.
    pub fn request(&self, args: &str) -> (r: Result<(String, String, String), AgentCorpError>)
        ensures
            match (self.context().team_dir, json_str_field(args@, "task_id"@), json_str_field(args@, "agent_id"@)) {
                (None, _, _) => r matches Err(e) && not_in_team_error(e),
                (Some(_), None, _) => r matches Err(e)
                    && is_tool_error(e, "assign_task"@, missing_param_message("task_id"@)),
                (Some(_), Some(_), None) => r matches Err(e)
                    && is_tool_error(e, "assign_task"@, missing_param_message("agent_id"@)),
                (Some(d), Some(id), Some(a)) => r matches Ok((t, i, who)) && t@ == d@ && i@ == id && who@ == a,
            },
    {
        let team = match require_team_dir(&self.ctx) {
            Ok(t) => t,
            Err(e) => return Err(e),
        };
        let id = match required_str_arg(args, "task_id", "assign_task") {
            Ok(i) => i,
            Err(e) => return Err(e),
        };
        let agent = match required_str_arg(args, "agent_id", "assign_task") {
            Ok(a) => a,
            Err(e) => return Err(e),
        };
        Ok((team, id, agent))
    }

    /// `assigned task 'title' to agent`.
    pub fn reply(&self, title: &str, agent_id: &str) -> (r: String)
        ensures
            r@ == "assigned task '"@ + title@ + "' to "@ + agent_id@,
    {
        let a = concat3("assigned task '", title, "' to ");
        concat(a.as_str(), agent_id)
    }
}

} // verus!
