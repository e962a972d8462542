//! Rules of the agent, team and tool endpoints: identities, message
//! priorities, team lookup and the per-agent disabled lists.

use vstd::prelude::*;
use crate::chat::{get_str_member, str_member};
use crate::json::{
    json_array_items, json_as_str, json_get, json_get_str, json_is_object, json_str_field, json_items, json_member, json_object,
    json_quote, json_quoted, json_set_disabled, json_string, json_with_disabled,
};
use crate::memory::bm25::string_views;
use crate::session::SessionMessageType;
use crate::text::{
    chars_of, lines_of, lines_spec, starts_with_spec, str_eq,
    string_from_chars, sub_chars, trim_chars, trim_spec,
};
use crate::types::MessagePriority;

verus! {

/// The first line that starts with `p`.
pub open spec fn first_with_prefix(lines: Seq<Seq<char>>, p: Seq<char>) -> Option<Seq<char>>
    decreases lines.len(),
{
    if lines.len() == 0 {
        None
    } else if starts_with_spec(lines[0], p) {
        Some(lines[0])
    } else {
        first_with_prefix(lines.drop_first(), p)
    }
}

/// `l` with every leading repetition of the non-empty `p` removed
/// (what `str::trim_start_matches` does).
pub open spec fn strip_prefixes(l: Seq<char>, p: Seq<char>) -> Seq<char>
    decreases l.len(),
{
    if p.len() > 0 && starts_with_spec(l, p) {
        strip_prefixes(l.skip(p.len() as int), p)
    } else {
        l
    }
}

/// The value of an identity field `key` (such as `name:`): the first line
/// starting with it, without the key and trimmed; `default` when no line
/// starts with it.
pub open spec fn identity_field(content: Seq<char>, key: Seq<char>, default: Seq<char>) -> Seq<char> {
    match first_with_prefix(lines_spec(content), key) {
        Some(l) => trim_spec(strip_prefixes(l, key)),
        None => default,
    }
}

/// Whether `s` starts with `p`.
pub fn starts_with(s: &Vec<char>, p: &Vec<char>) -> (b: bool)
    ensures
        b == starts_with_spec(s@, p@),
{
    if p.len() > s.len() {
        return false;
    }
    let mut k: usize = 0;
    while k < p.len()
        invariant
            p@.len() <= s@.len(),
            k <= p@.len(),
            forall|m: int| 0 <= m < k ==> s@[m] == p@[m],
        decreases p.len() - k,
    {
        if s[k] != p[k] {
            assert(s@.take(p@.len() as int)[k as int] != p@[k as int]);
            return false;
        }
        k = k + 1;
    }
    assert(s@.take(p@.len() as int) =~= p@);
    true
}

/// The identity field `key` of `content`, or `default`.
pub fn identity_value(content: &str, key: &str, default: &str) -> (r: String)
    ensures
        r@ == identity_field(content@, key@, default@),
{
    let lines = lines_of(content);
    let k = chars_of(key);
    let mut i: usize = 0;
    let ghost ls = string_views(lines@);
    assert(ls.skip(0) =~= ls);
    while i < lines.len()
        invariant
            i <= lines@.len(),
            ls == string_views(lines@),
            ls == lines_spec(content@),
            k@ == key@,
            first_with_prefix(ls, key@) == first_with_prefix(ls.skip(i as int), key@),
        decreases lines.len() - i,
    {
        let l = chars_of(lines[i].as_str());
        proof {
            let t = ls.skip(i as int);
            assert(t[0] == l@);
            assert(t.drop_first() =~= ls.skip(i + 1));
        }
        if starts_with(&l, &k) {
            let mut cur = l;
            if k.len() > 0 {
                while starts_with(&cur, &k)
                    invariant
                        k@ == key@,
                        k@.len() > 0,
                        strip_prefixes(l@, key@) == strip_prefixes(cur@, key@),
                    decreases cur@.len(),
                {
                    let n = cur.len();
                    cur = sub_chars(&cur, k.len(), n);
                }
            }
            let t = trim_chars(&cur);
            return string_from_chars(t.as_slice());
        }
        i = i + 1;
    }
    assert(ls.skip(i as int).len() == 0);
    let d = chars_of(default);
    string_from_chars(d.as_slice())
}

/// (name, emoji) of an agent from its `IDENTITY.md` text: the values of
/// the `name:` and `emoji:` lines, defaulting to the agent id and a robot.
pub fn parse_identity(content: &str, agent_id: &str) -> (r: (String, String))
    ensures
        r.0@ == identity_field(content@, "name:"@, agent_id@),
        r.1@ == identity_field(content@, "emoji:"@, "🤖"@),
{
    (identity_value(content, "name:", agent_id), identity_value(content, "emoji:", "🤖"))
}

/// The priority of a message sent through the API: exactly `steer` steers,
/// anything else collects.
pub fn priority_from_request(priority: &str) -> (p: MessagePriority)
    ensures
        p == if priority@ == "steer"@ { MessagePriority::Steer } else { MessagePriority::Collect },
{
    if str_eq(priority, "steer") {
        MessagePriority::Steer
    } else {
        MessagePriority::Collect
    }
}

/// Some entry of a team's member list has `id` equal to the agent id.
pub open spec fn member_ids_include(members: Seq<Seq<char>>, agent: Seq<char>) -> bool {
    exists|i: int| 0 <= i < members.len() && #[trigger] str_member(members[i], "id"@) == Some(agent)
}

/// A team definition (`team.json` text) lists the agent among its
/// `members`: one of them has the agent's id.
pub open spec fn team_lists_member(definition: Seq<char>, agent: Seq<char>) -> bool {
    match json_member(definition, "members"@) {
        Some(m) => match json_items(m) {
            Some(members) => member_ids_include(members, agent),
            None => false,
        },
        None => false,
    }
}

/// The first team (in the order given) whose definition lists the agent
/// as a member; teams without a readable definition are skipped.
pub open spec fn first_team_listing(teams: Seq<(String, Option<String>)>, agent: Seq<char>) -> Option<int>
    decreases teams.len(),
{
    if teams.len() == 0 {
        None
    } else if teams[0].1 matches Some(c) && team_lists_member(c@, agent) {
        Some(0)
    } else {
        match first_team_listing(teams.drop_first(), agent) {
            Some(i) => Some(i + 1),
            None => None,
        }
    }
}

/// Whether the team definition `definition` lists `agent_id` as a member.
pub fn lists_member(definition: &str, agent_id: &str) -> (b: bool)
    ensures
        b == team_lists_member(definition@, agent_id@),
{
    let members = match json_get(definition, "members") {
        Some(m) => json_array_items(m.as_str()),
        None => None,
    };
    let members = match members {
        Some(v) => v,
        None => return false,
    };
    let ghost mv = string_views(members@);
    assert(members@.map_values(|s: String| s@) =~= mv);
    let mut k: usize = 0;
    while k < members.len()
        invariant
            k <= members@.len(),
            mv == string_views(members@),
            team_lists_member(definition@, agent_id@) == member_ids_include(mv, agent_id@),
            forall|j: int| 0 <= j < k ==> #[trigger] str_member(mv[j], "id"@) != Some(agent_id@),
        decreases members.len() - k,
    {
        let id = get_str_member(members[k].as_str(), "id");
        let hit = match &id {
            Some(x) => str_eq(x.as_str(), agent_id),
            None => false,
        };
        assert(mv[k as int] == members@[k as int]@);
        if hit {
            assert(str_member(mv[k as int], "id"@) == Some(agent_id@));
            return true;
        }
        k = k + 1;
    }
    false
}

/// The team of an agent, from the teams' (name, definition text) pairs:
/// the first team whose definition lists the agent as a member.
pub fn find_agent_team(teams: &Vec<(String, Option<String>)>, agent_id: &str) -> (r: Option<String>)
    ensures
        match first_team_listing(teams@, agent_id@) {
            Some(i) => r matches Some(name) && name@ == teams@[i].0@,
            None => r is None,
        },
{
    let mut i: usize = 0;
    assert(teams@.skip(0) =~= teams@);
    while i < teams.len()
        invariant
            i <= teams@.len(),
            first_team_listing(teams@, agent_id@) == match first_team_listing(teams@.skip(i as int), agent_id@) {
                Some(j) => Some(j + i),
                None => None,
            },
        decreases teams.len() - i,
    {
        proof {
            let t = teams@.skip(i as int);
            assert(t[0] == teams@[i as int]);
            assert(t.drop_first() =~= teams@.skip(i + 1));
        }
        let hit = match &teams[i].1 {
            Some(c) => lists_member(c.as_str(), agent_id),
            None => false,
        };
        if hit {
            return Some(teams[i].0.clone());
        }
        i = i + 1;
    }
    assert(teams@.skip(i as int).len() == 0);
    assert(teams@.skip(0) =~= teams@);
    None
}

/// An item of a disabled list (JSON text) names `name`: it is the JSON
/// string `name` (items that are not strings name nothing).
pub open spec fn item_names(item: Seq<char>, name: Seq<char>) -> bool {
    json_string(item) == Some(name)
}

/// Some item of the list names `name`.
pub open spec fn items_name(items: Seq<Seq<char>>, name: Seq<char>) -> bool {
    exists|k: int| 0 <= k < items.len() && item_names(#[trigger] items[k], name)
}

/// A disabled list after turning `name` off (`disabled`) or on:
/// disabling appends `entry` unless the name is already listed; enabling
/// removes every item that names it and keeps the others in order.
pub open spec fn toggled_items(items: Seq<Seq<char>>, name: Seq<char>, disabled: bool, entry: Seq<char>) -> Seq<Seq<char>> {
    if disabled {
        if items_name(items, name) {
            items
        } else {
            items.push(entry)
        }
    } else {
        items.filter(|it: Seq<char>| !item_names(it, name))
    }
}

/// Turn `name` off or on in a disabled list of JSON items (see
/// `toggled_items`); `entry` is the item that disabling appends.
pub fn toggle_items(items: Vec<String>, name: &str, disabled: bool, entry: String) -> (r: Vec<String>)
    ensures
        string_views(r@) == toggled_items(string_views(items@), name@, disabled, entry@),
{
    let ghost input = string_views(items@);
    if disabled {
        let mut k: usize = 0;
        while k < items.len()
            invariant
                disabled,
                k <= items@.len(),
                input == string_views(items@),
                forall|j: int| 0 <= j < k ==> !item_names(#[trigger] input[j], name@),
            decreases items.len() - k,
        {
            let hit = match json_as_str(items[k].as_str()) {
                Some(v) => str_eq(v.as_str(), name),
                None => false,
            };
            assert(input[k as int] == items@[k as int]@);
            if hit {
                assert(item_names(input[k as int], name@));
                assert(items_name(input, name@));
                return items;
            }
            k = k + 1;
        }
        let mut items = items;
        items.push(entry);
        assert(string_views(items@) =~= input.push(entry@));
        items
    } else {
        let ghost f = |it: Seq<char>| !item_names(it, name@);
        let mut out: Vec<String> = Vec::new();
        let mut k: usize = 0;
        while k < items.len()
            invariant
                k <= items@.len(),
                input == string_views(items@),
                f == (|it: Seq<char>| !item_names(it, name@)),
                string_views(out@) == input.take(k as int).filter(f),
            decreases items.len() - k,
        {
            proof {
                assert(input.take(k + 1) =~= input.take(k as int).push(input[k as int]));
                input.take(k as int).lemma_filter_push(input[k as int], f);
            }
            let hit = match json_as_str(items[k].as_str()) {
                Some(v) => str_eq(v.as_str(), name),
                None => false,
            };
            assert(input[k as int] == items@[k as int]@);
            if !hit {
                let ghost before = out@;
                out.push(items[k].clone());
                assert(string_views(out@) =~= string_views(before).push(input[k as int]));
            }
            k = k + 1;
        }
        assert(input.take(k as int) =~= input);
        out
    }
}

/// Turning a name off leaves it listed (given an entry that names it),
/// turning it on leaves it unlisted, and each is idempotent: doing it a
/// second time changes nothing.
pub proof fn lemma_toggle_items(items: Seq<Seq<char>>, name: Seq<char>, disabled: bool, entry: Seq<char>)
    requires
        disabled ==> item_names(entry, name),
    ensures
        disabled ==> items_name(toggled_items(items, name, disabled, entry), name),
        !disabled ==> !items_name(toggled_items(items, name, disabled, entry), name),
        toggled_items(toggled_items(items, name, disabled, entry), name, disabled, entry)
            == toggled_items(items, name, disabled, entry),
{
    let f = |it: Seq<char>| !item_names(it, name);
    let r = toggled_items(items, name, disabled, entry);
    if disabled {
        if !items_name(items, name) {
            assert(item_names(r[items.len() as int], name));
        }
    } else {
        assert forall|k: int| 0 <= k < r.len() implies !item_names(#[trigger] r[k], name) by {
            items.lemma_filter_pred(f, k);
        }
        let rr = r.filter(f);
        assert(rr =~= r) by {
            lemma_filter_keeps_all(r, f);
        }
    }
}

/// A name is matched against a disabled list by exact string: disabling a
/// name that no listed JSON string equals appends the entry, disabling a
/// listed one changes nothing, and enabling keeps exactly the items that
/// are not the JSON string `name`, in their order.
pub proof fn lemma_toggle_matches_exact_strings(items: Seq<Seq<char>>, name: Seq<char>, entry: Seq<char>)
    ensures
        (forall|k: int| 0 <= k < items.len() ==> json_string(#[trigger] items[k]) != Some(name))
            ==> toggled_items(items, name, true, entry) == items.push(entry),
        (exists|k: int| 0 <= k < items.len() && json_string(#[trigger] items[k]) == Some(name))
            ==> toggled_items(items, name, true, entry) == items,
        forall|it: Seq<char>| #[trigger] toggled_items(items, name, false, entry).contains(it)
            <==> (items.contains(it) && json_string(it) != Some(name)),
        toggled_items(items, name, false, entry) == items.filter(|it: Seq<char>| json_string(it) != Some(name)),
{
    broadcast use vstd::seq_lib::group_filter_ensures;
    let f = |it: Seq<char>| !item_names(it, name);
    let g = |it: Seq<char>| json_string(it) != Some(name);
    assert(f =~= g);
    let r = items.filter(f);
    assert(toggled_items(items, name, false, entry) == r);
    if forall|k: int| 0 <= k < items.len() ==> json_string(#[trigger] items[k]) != Some(name) {
        assert(!items_name(items, name));
    }
    if exists|k: int| 0 <= k < items.len() && json_string(#[trigger] items[k]) == Some(name) {
        let k = choose|k: int| 0 <= k < items.len() && json_string(#[trigger] items[k]) == Some(name);
        assert(item_names(items[k], name));
    }
    assert forall|it: Seq<char>| #[trigger] r.contains(it) <==> (items.contains(it) && json_string(it) != Some(name)) by {
        if r.contains(it) {
            items.lemma_filter_contains_rev(f, it);
            let i = choose|i: int| 0 <= i < r.len() && r[i] == it;
            items.lemma_filter_pred(f, i);
        }
        if items.contains(it) && json_string(it) != Some(name) {
            let i = choose|i: int| 0 <= i < items.len() && items[i] == it;
            items.lemma_filter_contains(f, i);
        }
    }
}

proof fn lemma_filter_keeps_all(s: Seq<Seq<char>>, f: spec_fn(Seq<char>) -> bool)
    requires
        forall|k: int| 0 <= k < s.len() ==> f(#[trigger] s[k]),
    ensures
        s.filter(f) == s,
    decreases s.len(),
{
    reveal(Seq::filter);
    if s.len() > 0 {
        lemma_filter_keeps_all(s.drop_last(), f);
        assert(s.drop_last().push(s.last()) =~= s);
    } else {
        assert(s.filter(f) =~= s);
    }
}

/// An agent's `agent.json` text is malformed for a toggle of `section`:
/// it is no JSON object, or its `section` is no object, or that section's
/// `disabled` is no array.
pub open spec fn disabled_malformed(text: Seq<char>, section: Seq<char>) -> bool {
    ||| !json_object(text)
    ||| match json_member(text, section) {
        Some(sec) => !json_object(sec) || match json_member(sec, "disabled"@) {
            Some(l) => json_items(l) is None,
            None => false,
        },
        None => false,
    }
}

/// The items of `section`'s `disabled` list (none when the section or the
/// list is absent).
pub open spec fn disabled_items(text: Seq<char>, section: Seq<char>) -> Seq<Seq<char>> {
    match json_member(text, section) {
        Some(sec) => match json_member(sec, "disabled"@) {
            Some(l) => match json_items(l) {
                Some(v) => v,
                None => seq![],
            },
            None => seq![],
        },
        None => seq![],
    }
}

/// What toggling a tool or skill in an agent's `agent.json` comes to.
pub enum AgentJsonToggle {
    /// The agent has no (readable) `agent.json`: the agent is not found.
    AgentNotFound,
    /// The document has not the expected shape: a server-side error.
    Malformed,
    /// The new text of `agent.json`.
    Updated(String),
}

/// Turn the tool or skill `name` off (`disabled`) or on in the `section`
/// (`tools` or `skills`) of an agent's `agent.json` text (`None` when the
/// agent has none). The section and its `disabled` list are created when
/// absent; the list is changed as `toggled_items` says, disabling adding
/// the JSON string `name`; everything else in the document is kept.
pub fn toggle_agent_json(agent_json: Option<&str>, section: &str, name: &str, disabled: bool) -> (r: AgentJsonToggle)
    ensures
        agent_json is None <==> r is AgentNotFound,
        agent_json matches Some(t) ==> {
            let items = toggled_items(disabled_items(t@, section@), name@, disabled, json_quoted(name@));
            &&& (r is Malformed <==> disabled_malformed(t@, section@) || json_with_disabled(t@, section@, items) is None)
            &&& (r matches AgentJsonToggle::Updated(out) ==> json_with_disabled(t@, section@, items) == Some(out@))
        },
{
    let text = match agent_json {
        Some(t) => t,
        None => return AgentJsonToggle::AgentNotFound,
    };
    if !json_is_object(text) {
        return AgentJsonToggle::Malformed;
    }
    let items: Vec<String> = match json_get(text, section) {
        None => Vec::new(),
        Some(sec) => {
            if !json_is_object(sec.as_str()) {
                return AgentJsonToggle::Malformed;
            }
            match json_get(sec.as_str(), "disabled") {
                None => Vec::new(),
                Some(l) => match json_array_items(l.as_str()) {
                    Some(v) => v,
                    None => return AgentJsonToggle::Malformed,
                },
            }
        },
    };
    assert(string_views(items@) =~= disabled_items(text@, section@));
    let entry = json_quote(name);
    let new_items = toggle_items(items, name, disabled, entry);
    assert(new_items@.map_values(|s: String| s@) =~= string_views(new_items@));
    match json_set_disabled(text, section, &new_items) {
        Some(out) => AgentJsonToggle::Updated(out),
        None => AgentJsonToggle::Malformed,
    }
}

/// The leader of a team, from its definition (`team.json` text): the
/// string under `leader`, if there is one.
pub fn team_leader(definition: &str) -> (r: Option<String>)
    ensures
        match r {
            Some(l) => json_str_field(definition@, "leader"@) == Some(l@),
            None => json_str_field(definition@, "leader"@) is None,
        },
{
    json_get_str(definition, "leader")
}

/// The role of an agent in its team: `leader` when it leads the team,
/// `worker` otherwise.
pub fn team_role(leader: &str, agent_id: &str) -> (r: &'static str)
    ensures
        r@ == if leader@ == agent_id@ { "leader"@ } else { "worker"@ },
{
    if str_eq(leader, agent_id) {
        "leader"
    } else {
        "worker"
    }
}

/// A task the heartbeat counts as work for `agent`: pending, and either
/// unassigned or assigned to the agent.
pub open spec fn is_pending_work(t: (crate::types::TaskStatus, Option<String>), agent: Seq<char>) -> bool {
    &&& t.0 == crate::types::TaskStatus::Pending
    &&& match t.1 {
        None => true,
        Some(a) => a@ == agent,
    }
}

/// Whether the heartbeat wakes an agent: some task of its team's board
/// (status and assignee) is pending work for it.
pub fn has_pending_work(tasks: &Vec<(crate::types::TaskStatus, Option<String>)>, agent_id: &str) -> (b: bool)
    ensures
        b == exists|k: int| 0 <= k < tasks@.len() && is_pending_work(#[trigger] tasks@[k], agent_id@),
{
    let mut k: usize = 0;
    while k < tasks.len()
        invariant
            k <= tasks@.len(),
            forall|j: int| 0 <= j < k ==> !is_pending_work(#[trigger] tasks@[j], agent_id@),
        decreases tasks.len() - k,
    {
        let t = &tasks[k];
        let pending = match t.0 {
            crate::types::TaskStatus::Pending => true,
            _ => false,
        };
        let mine = match &t.1 {
            None => true,
            Some(a) => str_eq(a.as_str(), agent_id),
        };
        if pending && mine {
            assert(is_pending_work(tasks@[k as int], agent_id@));
            return true;
        }
        k = k + 1;
    }
    false
}

/// The name of a session message type in the session API.
pub fn session_message_type_label(t: SessionMessageType) -> (r: &'static str)
    ensures
        t == SessionMessageType::System ==> r@ == "system"@,
        t == SessionMessageType::UserTask ==> r@ == "user_task"@,
        t == SessionMessageType::Assistant ==> r@ == "assistant"@,
        t == SessionMessageType::ToolResult ==> r@ == "tool_result"@,
        t == SessionMessageType::Screenshot ==> r@ == "screenshot"@,
        t == SessionMessageType::UserReply ==> r@ == "user_reply"@,
        t == SessionMessageType::SystemHint ==> r@ == "system_hint"@,
        t == SessionMessageType::Compact ==> r@ == "compact"@,
{
    match t {
        SessionMessageType::System => "system",
        SessionMessageType::UserTask => "user_task",
        SessionMessageType::Assistant => "assistant",
        SessionMessageType::ToolResult => "tool_result",
        SessionMessageType::Screenshot => "screenshot",
        SessionMessageType::UserReply => "user_reply",
        SessionMessageType::SystemHint => "system_hint",
        SessionMessageType::Compact => "compact",
    }
}

} // verus!

verus! {

/// The worker's process id from the text of its `worker.pid` file: the
/// trimmed text read as a signed 32-bit integer.
pub fn worker_pid(content: &str) -> (pid: Option<i32>)
    ensures
        pid == crate::numbers::parse_i32_spec(trim_spec(content@)),
{
    let t = crate::text::trim_str(content);
    crate::numbers::parse_i32(t.as_str())
}

/// What changing an agent's team membership comes to.
#[derive(Debug, PartialEq, Eq)]
pub enum TeamChange {
    /// Leave this team (the target was `none`).
    Leave { team: String },
    /// The target was `none` and the agent is in no team.
    NotInAnyTeam,
    /// The agent is already in the target team.
    AlreadyIn { team: String },
    /// Leave the current team, if any, and join the target as a member.
    Join { leave: Option<String>, join: String },
}

/// Decide a team change for an agent: `target` is a team id or `none`;
/// `current` is the agent's team. An agent that does not exist is an error.
pub fn team_change(agent_id: &str, agent_exists: bool, current: Option<String>, target: &str)
    -> (r: Result<TeamChange, crate::error::AgentCorpError>)
    ensures
        !agent_exists ==> (r matches Err(crate::error::AgentCorpError::NotFound { what })
            && what@ == "agent '"@ + agent_id@ + "'"@),
        agent_exists && target@ == "none"@ ==> match current {
            Some(t) => r matches Ok(TeamChange::Leave { team }) && team@ == t@,
            None => r == Ok::<TeamChange, crate::error::AgentCorpError>(TeamChange::NotInAnyTeam),
        },
        agent_exists && target@ != "none"@ ==> match current {
            Some(t) => if t@ == target@ {
                r matches Ok(TeamChange::AlreadyIn { team }) && team@ == target@
            } else {
                r matches Ok(TeamChange::Join { leave: Some(l), join }) && l@ == t@ && join@ == target@
            },
            None => r matches Ok(TeamChange::Join { leave: None, join }) && join@ == target@,
        },
{
    if !agent_exists {
        return Err(crate::error::AgentCorpError::NotFound {
            what: crate::text::concat3("agent '", agent_id, "'"),
        });
    }
    if str_eq(target, "none") {
        match current {
            Some(t) => Ok(TeamChange::Leave { team: t }),
            None => Ok(TeamChange::NotInAnyTeam),
        }
    } else {
        match current {
            Some(t) => {
                if str_eq(t.as_str(), target) {
                    Ok(TeamChange::AlreadyIn { team: target.to_owned() })
                } else {
                    Ok(TeamChange::Join { leave: Some(t), join: target.to_owned() })
                }
            },
            None => Ok(TeamChange::Join { leave: None, join: target.to_owned() }),
        }
    }
}

/// Decide whether an agent may be deleted, given its team and that team's
/// leader: a team leader may not be deleted; a member leaves its team first
/// (the team to leave is returned).
pub fn delete_agent_plan(agent_id: &str, membership: Option<(String, String)>)
    -> (r: Result<Option<String>, crate::error::AgentCorpError>)
    ensures
        match membership {
            None => r == Ok::<Option<String>, crate::error::AgentCorpError>(None),
            Some((team, leader)) => if leader@ == agent_id@ {
                r matches Err(crate::error::AgentCorpError::Agent { message })
                    && message@ == "agent '"@ + agent_id@ + "' is the leader of team '"@ + team@
                        + "' — change leader first"@
            } else {
                r matches Ok(Some(t)) && t@ == team@
            },
        },
{
    match membership {
        None => Ok(None),
        Some((team, leader)) => {
            if str_eq(leader.as_str(), agent_id) {
                let a = crate::text::concat3("agent '", agent_id, "' is the leader of team '");
                let b = crate::text::concat3(a.as_str(), team.as_str(), "' — change leader first");
                Err(crate::error::AgentCorpError::Agent { message: b })
            } else {
                Ok(Some(team))
            }
        },
    }
}

/// The id of an agent created without one, from a millisecond timestamp:
/// `agent-` and the timestamp modulo 100000 (a remainder that keeps the
/// timestamp's sign).
pub open spec fn agent_id_from_millis_spec(millis: i64) -> Seq<char> {
    "agent-"@ + crate::numbers::int_decimal(truncated_rem(millis as int, 100000))
}

/// The remainder of a division that rounds toward zero (Rust's `%`): it
/// has the sign of the dividend.
pub open spec fn truncated_rem(a: int, b: int) -> int {
    if a >= 0 {
        a % b
    } else {
        -((-a) % b)
    }
}

pub fn agent_id_from_millis(millis: i64) -> (id: String)
    ensures
        id@ == agent_id_from_millis_spec(millis),
{
    let r = if millis >= 0 {
        millis % 100000
    } else {
        let m = (-(millis + 1)) as u64 + 1;
        -((m % 100000) as i64)
    };
    assert(r == truncated_rem(millis as int, 100000));
    let d = crate::numbers::i64_to_decimal(r);
    crate::text::concat("agent-", d.as_str())
}

/// The current time in milliseconds since the epoch: the system clock
/// converted with chrono's `From<SystemTime> for DateTime<Utc>` (which
/// also takes clocks set before 1970), then `timestamp_millis`. Nothing is
/// stated of the result: it is the clock.
#[verifier::external_body]
fn now_millis() -> i64 {
    chrono::DateTime::<chrono::Utc>::from(std::time::SystemTime::now()).timestamp_millis()
}

/// The `IDENTITY.md` text written for a new agent.
pub open spec fn identity_md_spec(name: Seq<char>, emoji: Seq<char>) -> Seq<char> {
    "# Identity\n\n**Name:** "@ + name + "\n**Emoji:** "@ + emoji + "\n"@
}

/// What a new agent is created with: its id (given, or made from the
/// clock), its name (given, or its id), its emoji (given, or a robot), and
/// the `IDENTITY.md` text that records them.
pub fn new_agent_identity(id: Option<String>, name: Option<String>, emoji: Option<String>)
    -> (r: (String, String, String, String))
    ensures
        id matches Some(i) ==> r.0@ == i@,
        id is None ==> exists|m: i64| r.0@ == #[trigger] agent_id_from_millis_spec(m),
        r.1@ == match name {
            Some(n) => n@,
            None => r.0@,
        },
        r.2@ == match emoji {
            Some(e) => e@,
            None => "🤖"@,
        },
        r.3@ == identity_md_spec(r.1@, r.2@),
{
    let agent_id = match id {
        Some(i) => i,
        None => agent_id_from_millis(now_millis()),
    };
    let agent_name = match name {
        Some(n) => n,
        None => agent_id.clone(),
    };
    let agent_emoji = match emoji {
        Some(e) => e,
        None => "🤖".to_owned(),
    };
    let a = crate::text::concat3("# Identity\n\n**Name:** ", agent_name.as_str(), "\n**Emoji:** ");
    let text = crate::text::concat3(a.as_str(), agent_emoji.as_str(), "\n");
    (agent_id, agent_name, agent_emoji, text)
}

/// The frozen agents of the dashboard: freezing records the running agents
/// (the caller then stops them all); reviving hands them back to be
/// started and forgets them.
pub struct FrozenAgents {
    frozen: Vec<String>,
}

impl FrozenAgents {
    pub closed spec fn frozen_spec(&self) -> Seq<String> {
        self.frozen@
    }

    pub fn new() -> (f: Self)
        ensures
            f.frozen_spec().len() == 0,
    {
        FrozenAgents { frozen: Vec::new() }
    }

    /// Record the running agents as frozen, replacing any earlier record;
    /// returns how many there are.
    pub fn freeze(&mut self, running: Vec<String>) -> (count: usize)
        ensures
            final(self).frozen_spec() == running@,
            count == running@.len(),
    {
        let n = running.len();
        self.frozen = running;
        n
    }

    /// The number of frozen agents.
    pub fn sleeping(&self) -> (n: usize)
        ensures
            n == self.frozen_spec().len(),
    {
        self.frozen.len()
    }

    /// Hand back the frozen agents to be started, and forget them.
    pub fn revive(&mut self) -> (to_start: Vec<String>)
        ensures
            to_start@ == old(self).frozen_spec(),
            final(self).frozen_spec().len() == 0,
    {
        let mut out: Vec<String> = Vec::new();
        std::mem::swap(&mut out, &mut self.frozen);
        out
    }
}

/// Task status from its exact name in a task board request (`None` is a
/// bad request).
pub fn parse_task_status_param(s: &str) -> (r: Option<crate::types::TaskStatus>)
    ensures
        r == if s@ == "pending"@ {
            Some(crate::types::TaskStatus::Pending)
        } else if s@ == "claimed"@ {
            Some(crate::types::TaskStatus::Claimed)
        } else if s@ == "in_progress"@ {
            Some(crate::types::TaskStatus::InProgress)
        } else if s@ == "done"@ {
            Some(crate::types::TaskStatus::Done)
        } else if s@ == "failed"@ {
            Some(crate::types::TaskStatus::Failed)
        } else {
            None
        },
{
    if str_eq(s, "pending") {
        Some(crate::types::TaskStatus::Pending)
    } else if str_eq(s, "claimed") {
        Some(crate::types::TaskStatus::Claimed)
    } else if str_eq(s, "in_progress") {
        Some(crate::types::TaskStatus::InProgress)
    } else if str_eq(s, "done") {
        Some(crate::types::TaskStatus::Done)
    } else if str_eq(s, "failed") {
        Some(crate::types::TaskStatus::Failed)
    } else {
        None
    }
}

/// One log line with its source.
pub open spec fn tagged(source: Seq<char>, lines: Seq<String>) -> Seq<(Seq<char>, Seq<char>)> {
    lines.map_values(|l: String| (source, l@))
}

/// The log entries of all agents' worker logs, agent by agent.
pub open spec fn agent_log_entries(logs: Seq<(String, Vec<String>)>) -> Seq<(Seq<char>, Seq<char>)>
    decreases logs.len(),
{
    if logs.len() == 0 {
        seq![]
    } else {
        agent_log_entries(logs.drop_last()) + tagged("agent:"@ + logs.last().0@, logs.last().1@)
    }
}

/// (source, line) pairs of a string-pair list.
pub open spec fn entry_views(v: Seq<(String, String)>) -> Seq<(Seq<char>, Seq<char>)> {
    v.map_values(|e: (String, String)| (e.0@, e.1@))
}

fn push_tagged(out: &mut Vec<(String, String)>, source: &str, lines: &Vec<String>)
    ensures
        entry_views(final(out)@) == entry_views(old(out)@) + tagged(source@, lines@),
{
    let ghost base = entry_views(out@);
    let mut k: usize = 0;
    while k < lines.len()
        invariant
            k <= lines@.len(),
            entry_views(out@) == base + tagged(source@, lines@.take(k as int)),
        decreases lines.len() - k,
    {
        let ghost before = out@;
        out.push((source.to_owned(), lines[k].clone()));
        proof {
            assert(entry_views(out@) =~= entry_views(before).push((source@, lines@[k as int]@)));
            assert(tagged(source@, lines@.take(k + 1)) =~= tagged(source@, lines@.take(k as int)).push((source@, lines@[k as int]@)));
        }
        k = k + 1;
    }
    assert(lines@.take(k as int) =~= lines@);
}

/// The log view: the server log's lines (source `server`), then each
/// agent's worker log lines (source `agent:{id}`), in the order given.
pub fn log_entries(server_lines: &Vec<String>, agent_logs: &Vec<(String, Vec<String>)>) -> (r: Vec<(String, String)>)
    ensures
        entry_views(r@) == tagged("server"@, server_lines@) + agent_log_entries(agent_logs@),
{
    let mut out: Vec<(String, String)> = Vec::new();
    push_tagged(&mut out, "server", server_lines);
    assert(entry_views(out@) =~= tagged("server"@, server_lines@));
    let ghost head = entry_views(out@);
    let mut i: usize = 0;
    while i < agent_logs.len()
        invariant
            i <= agent_logs@.len(),
            head == tagged("server"@, server_lines@),
            entry_views(out@) == head + agent_log_entries(agent_logs@.take(i as int)),
        decreases agent_logs.len() - i,
    {
        let source = crate::text::concat("agent:", agent_logs[i].0.as_str());
        push_tagged(&mut out, source.as_str(), &agent_logs[i].1);
        proof {
            assert(agent_logs@.take(i + 1).drop_last() =~= agent_logs@.take(i as int));
            assert(agent_logs@.take(i + 1).last() == agent_logs@[i as int]);
        }
        i = i + 1;
    }
    assert(agent_logs@.take(i as int) =~= agent_logs@);
    out
}

} // verus!

verus! {

/// One line of the agent list: emoji, id and name, then the team in
/// brackets when the agent has one.
pub open spec fn agent_list_line_spec(a: crate::types::AgentSummary) -> Seq<char> {
    a.emoji@ + " "@ + a.id@ + " "@ + a.name@ + match a.team_id {
        Some(t) => " [team: "@ + t@ + "]"@,
        None => ""@,
    }
}

pub fn agent_list_line(a: &crate::types::AgentSummary) -> (r: String)
    ensures
        r@ == agent_list_line_spec(*a),
{
    let x = crate::text::concat3(a.emoji.as_str(), " ", a.id.as_str());
    let y = crate::text::concat3(x.as_str(), " ", a.name.as_str());
    match &a.team_id {
        Some(t) => {
            let z = crate::text::concat3(y.as_str(), " [team: ", t.as_str());
            crate::text::concat(z.as_str(), "]")
        },
        None => {
            proof {
                reveal_strlit("");
                assert(y@ + ""@ =~= y@);
            }
            y
        },
    }
}

} // verus!
