//! Command-line commands and the small rules of the command handlers.

use vstd::prelude::*;
use crate::text::{chars_of, string_from_chars, sub_chars};

verus! {

/// Agent management commands.
#[derive(Debug)]
pub enum AgentCmd {
    /// Create a new agent (the id is generated when omitted).
    Create { id: Option<String>, name: Option<String>, emoji: Option<String> },
    /// List all agents.
    List,
    /// Show agent details.
    Show { id: String },
    /// Delete an agent (removes it from its team and stops its worker).
    Delete { id: String },
    /// Change an agent's team; `none` leaves the current team.
    Team { id: String, team_id: String },
}

/// Team management commands.
#[derive(Debug)]
pub enum TeamCmd {
    /// Create a team from members given as `id:role`.
    Create { name: String, members: Vec<String>, leader: Option<String> },
    /// List all teams.
    List,
    /// Show team details.
    Show { id: String },
    /// Delete a team.
    Delete { id: String },
}

/// Configuration commands.
#[derive(Debug, Clone, Copy, PartialEq, Eq, Structural)]
pub enum ConfigCmd {
    /// Show the current configuration.
    Show,
    /// Show the configuration file path.
    Path,
}

/// The program's commands.
#[derive(Debug)]
pub enum Commands {
    /// Start the server (initializing the workspace if needed).
    Start { port: Option<u16> },
    /// Stop the running server.
    Stop,
    /// Restart the server.
    Restart { port: Option<u16> },
    /// Show workspace status.
    Status,
    /// Manage agents.
    Agent(AgentCmd),
    /// Manage teams.
    Team(TeamCmd),
    /// Run as the worker process of one agent.
    Worker { agent_id: String, workspace_path: String },
    /// Run the HTTP server in the foreground.
    Serve { port: Option<u16>, pid_file: Option<String> },
}

/// The parsed command line.
#[derive(Debug)]
pub struct Cli {
    pub command: Commands,
}

impl Commands {
    /// Every command but `worker` first makes sure the workspace exists.
    pub fn needs_workspace_init(&self) -> (b: bool)
        ensures
            b == !(self is Worker),
    {
        match self {
            Commands::Worker { .. } => false,
            _ => true,
        }
    }
}

/// The default server port.
pub const DEFAULT_SERVER_PORT: u16 = 28789;

/// The port to serve on: the given one, or the default.
pub fn serve_port(port: Option<u16>) -> (p: u16)
    ensures
        p == match port {
            Some(x) => x,
            None => DEFAULT_SERVER_PORT,
        },
{
    match port {
        Some(x) => x,
        None => DEFAULT_SERVER_PORT,
    }
}

/// The role of a team member given without one.
pub fn default_role() -> (r: String)
    ensures
        r@ == "member"@,
{
    "member".to_owned()
}

/// The priority of a message sent without one.
pub fn default_priority() -> (r: String)
    ensures
        r@ == "collect"@,
{
    "collect".to_owned()
}

/// Position of the first `:` at or after `i` (`s.len()` when there is none).
pub open spec fn colon_at_or_after(s: Seq<char>, i: int) -> int
    decreases s.len() - i,
{
    if i < 0 || i >= s.len() {
        s.len() as int
    } else if s[i] == ':' {
        i
    } else {
        colon_at_or_after(s, i + 1)
    }
}

/// A member given as `id:role` (split at the first `:`), or `id` alone,
/// whose role is then `member`.
pub open spec fn member_spec_parts(s: Seq<char>) -> (Seq<char>, Seq<char>) {
    let c = colon_at_or_after(s, 0);
    if c < s.len() {
        (s.take(c), s.skip(c + 1))
    } else {
        (s, "member"@)
    }
}

/// Split a member given as `id:role` into (id, role).
pub fn parse_member_spec(spec: &str) -> (r: (String, String))
    ensures
        r.0@ == member_spec_parts(spec@).0,
        r.1@ == member_spec_parts(spec@).1,
{
    let s = chars_of(spec);
    let mut i: usize = 0;
    while i < s.len() && s[i] != ':'
        invariant
            s@ == spec@,
            i <= s@.len(),
            colon_at_or_after(s@, 0) == colon_at_or_after(s@, i as int),
        decreases s.len() - i,
    {
        i = i + 1;
    }
    if i < s.len() {
        let id = sub_chars(&s, 0, i);
        let role = sub_chars(&s, i + 1, s.len());
        assert(id@ =~= s@.take(i as int));
        assert(role@ =~= s@.skip(i + 1));
        (string_from_chars(id.as_slice()), string_from_chars(role.as_slice()))
    } else {
        (string_from_chars(s.as_slice()), "member".to_owned())
    }
}

/// A lowercase hexadecimal digit.
pub open spec fn hex_digit(d: int) -> char {
    if d < 10 {
        (('0' as int) + d) as char
    } else {
        (('a' as int) + d - 10) as char
    }
}

/// `v` in six lowercase hexadecimal digits, zero-padded.
pub open spec fn hex6_spec(v: int) -> Seq<char> {
    seq![
        hex_digit((v / 0x100000) % 16),
        hex_digit((v / 0x10000) % 16),
        hex_digit((v / 0x1000) % 16),
        hex_digit((v / 0x100) % 16),
        hex_digit((v / 0x10) % 16),
        hex_digit(v % 16),
    ]
}

fn hex_char(d: u32) -> (c: char)
    requires
        d < 16,
    ensures
        c == hex_digit(d as int),
{
    let table = ['0', '1', '2', '3', '4', '5', '6', '7', '8', '9', 'a', 'b', 'c', 'd', 'e', 'f'];
    let c = table[d as usize];
    assert(c == hex_digit(d as int)) by {
        assert(table@[d as int] == c);
        assert(('0' as int) + 1 == '1' as int);
    }
    c
}

/// The agent id of a sub-second nanosecond count.
pub open spec fn agent_id_spec(nanos: u32) -> Seq<char> {
    hex6_spec((nanos % 0xFFFFFF) as int)
}

/// The six-hex-digit id of a sub-second nanosecond count: the count modulo
/// `0xFFFFFF`, zero-padded.
pub fn agent_id_from_nanos(nanos: u32) -> (id: String)
    ensures
        id@ == agent_id_spec(nanos),
{
    let v = nanos % 0xFFFFFF;
    let digits = [
        hex_char((v / 0x100000) % 16),
        hex_char((v / 0x10000) % 16),
        hex_char((v / 0x1000) % 16),
        hex_char((v / 0x100) % 16),
        hex_char((v / 0x10) % 16),
        hex_char(v % 16),
    ];
    let r = string_from_chars(&digits);
    assert(r@ =~= hex6_spec(v as int));
    r
}

#[verifier::external_type_specification]
#[verifier::external_body]
pub struct ExSystemTime(std::time::SystemTime);

/// `SystemTime::now`. Nothing is stated of the result: it is the clock.
#[verifier::external_body]
fn system_now() -> std::time::SystemTime {
    std::time::SystemTime::now()
}

/// `SystemTime::duration_since(UNIX_EPOCH)`, zero for a time before the
/// epoch. Nothing is stated of the result: it depends on the time given.
#[verifier::external_body]
fn since_epoch(t: std::time::SystemTime) -> core::time::Duration {
    t.duration_since(std::time::UNIX_EPOCH).unwrap_or_default()
}

/// `Duration::subsec_nanos`: the fractional part of a duration in
/// nanoseconds, which the documentation bounds below one second.
#[verifier::external_body]
fn subsec_nanos(d: &core::time::Duration) -> (n: u32)
    ensures
        n < 1_000_000_000,
{
    d.subsec_nanos()
}

/// A fresh agent id: six lowercase hexadecimal digits taken from the
/// clock's sub-second nanoseconds.
pub fn generate_agent_id() -> (id: String)
    ensures
        exists|n: u32| n < 1_000_000_000 && id@ == #[trigger] agent_id_spec(n),
{
    let now = system_now();
    let d = since_epoch(now);
    let n = subsec_nanos(&d);
    agent_id_from_nanos(n)
}

} // verus!

verus! {

/// A generated agent id is six characters, each a lowercase hexadecimal
/// digit.
pub proof fn lemma_agent_id_shape(nanos: u32)
    ensures
        agent_id_spec(nanos).len() == 6,
        forall|k: int| 0 <= k < 6 ==> {
            let c = #[trigger] agent_id_spec(nanos)[k];
            ('0' <= c <= '9') || ('a' <= c <= 'f')
        },
{
    let v = (nanos % 0xFFFFFF) as int;
    assert forall|k: int| 0 <= k < 6 implies {
        let c = #[trigger] agent_id_spec(nanos)[k];
        ('0' <= c <= '9') || ('a' <= c <= 'f')
    } by {
        assert forall|d: int| 0 <= d < 16 implies {
            let c = #[trigger] hex_digit(d);
            ('0' <= c <= '9') || ('a' <= c <= 'f')
        } by {}
    }
}

} // verus!
