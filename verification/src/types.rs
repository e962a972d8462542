//! Plain data types shared by the tools and the agent views.

use vstd::prelude::*;
use crate::text::simple_lower;

verus! {

/// Run state of an agent.
#[derive(Debug, Clone, Copy, PartialEq, Eq, Structural)]
pub enum AgentStatus {
    Idle,
    Running,
    Stopped,
    Error,
}

/// One line of an agent list.
#[derive(Debug)]
pub struct AgentSummary {
    pub id: String,
    pub name: String,
    pub emoji: String,
    pub status: AgentStatus,
    pub team_id: Option<String>,
    pub team_name: Option<String>,
}

/// Everything shown about a single agent.
#[derive(Debug)]
pub struct AgentDetail {
    pub id: String,
    pub name: String,
    pub emoji: String,
    pub status: AgentStatus,
    pub team_id: Option<String>,
    pub team_name: Option<String>,
    pub tools: Vec<String>,
    pub skills: Vec<String>,
    pub mcp_servers: Vec<String>,
    pub sandbox_profile: String,
    pub has_soul: bool,
    /// Filesystem path to the agent directory.
    pub location: String,
}

/// How urgently a message should reach an agent: `Steer` interrupts,
/// `Collect` waits for the next turn.
#[derive(Debug, Clone, Copy, PartialEq, Eq, Structural)]
pub enum MessagePriority {
    Collect,
    Steer,
}

/// Where a task stands on a team task board.
#[derive(Debug, Clone, Copy, PartialEq, Eq, Structural)]
pub enum TaskStatus {
    Pending,
    Claimed,
    InProgress,
    Done,
    Failed,
}

/// What the tools show of a task.
#[derive(Debug)]
pub struct TaskSummary {
    pub id: String,
    pub title: String,
    pub description: String,
    pub status: TaskStatus,
    pub assigned_to: Option<String>,
}

impl MessagePriority {
    /// Whether the message interrupts the agent.
    pub fn is_steer(&self) -> (b: bool)
        ensures
            b == (*self == MessagePriority::Steer),
    {
        match self {
            MessagePriority::Steer => true,
            MessagePriority::Collect => false,
        }
    }
}

/// The name that the `Debug` form of a task status shows.
pub open spec fn task_status_debug_spec(s: TaskStatus) -> Seq<char> {
    match s {
        TaskStatus::Pending => "Pending"@,
        TaskStatus::Claimed => "Claimed"@,
        TaskStatus::InProgress => "InProgress"@,
        TaskStatus::Done => "Done"@,
        TaskStatus::Failed => "Failed"@,
    }
}

/// The `Debug` name of a task status (`Pending`, `InProgress`, ...).
pub fn task_status_debug(s: TaskStatus) -> (r: &'static str)
    ensures
        r@ == task_status_debug_spec(s),
{
    match s {
        TaskStatus::Pending => "Pending",
        TaskStatus::Claimed => "Claimed",
        TaskStatus::InProgress => "InProgress",
        TaskStatus::Done => "Done",
        TaskStatus::Failed => "Failed",
    }
}

/// The lowercased `Debug` name of a task status, as the task board API
/// reports it (`in_progress` shows as `inprogress`).
pub open spec fn task_status_label_spec(s: TaskStatus) -> Seq<char> {
    match s {
        TaskStatus::Pending => "pending"@,
        TaskStatus::Claimed => "claimed"@,
        TaskStatus::InProgress => "inprogress"@,
        TaskStatus::Done => "done"@,
        TaskStatus::Failed => "failed"@,
    }
}

/// The lowercased `Debug` name of a task status.
pub fn task_status_label(s: TaskStatus) -> (r: &'static str)
    ensures
        r@ == task_status_label_spec(s),
{
    match s {
        TaskStatus::Pending => "pending",
        TaskStatus::Claimed => "claimed",
        TaskStatus::InProgress => "inprogress",
        TaskStatus::Done => "done",
        TaskStatus::Failed => "failed",
    }
}

/// The lowercased `Debug` name of a message priority.
pub fn priority_label(p: MessagePriority) -> (r: &'static str)
    ensures
        p == MessagePriority::Steer ==> r@ == "steer"@,
        p == MessagePriority::Collect ==> r@ == "collect"@,
{
    match p {
        MessagePriority::Steer => "steer",
        MessagePriority::Collect => "collect",
    }
}

/// Distinct task statuses show distinct `Debug` names, and the label the
/// task board reports is that name lowercased, letter for letter.
pub proof fn lemma_task_status_names(a: TaskStatus, b: TaskStatus)
    ensures
        a != b ==> task_status_debug_spec(a) != task_status_debug_spec(b),
        task_status_label_spec(a) == task_status_debug_spec(a).map_values(|c: char| simple_lower(c)),
{
    reveal_strlit("Pending");
    reveal_strlit("Claimed");
    reveal_strlit("InProgress");
    reveal_strlit("Done");
    reveal_strlit("Failed");
    reveal_strlit("pending");
    reveal_strlit("claimed");
    reveal_strlit("inprogress");
    reveal_strlit("done");
    reveal_strlit("failed");
    assert("Pending"@[0] != "Claimed"@[0]);
    assert("Pending"@ != "Claimed"@);
    assert("pending"@ =~= "Pending"@.map_values(|c: char| simple_lower(c)));
    assert("claimed"@ =~= "Claimed"@.map_values(|c: char| simple_lower(c)));
    assert("inprogress"@ =~= "InProgress"@.map_values(|c: char| simple_lower(c)));
    assert("done"@ =~= "Done"@.map_values(|c: char| simple_lower(c)));
    assert("failed"@ =~= "Failed"@.map_values(|c: char| simple_lower(c)));
}

} // verus!
