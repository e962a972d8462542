//! A session's message log: ids, compaction markers, and what a restore
//! keeps.

use vstd::prelude::*;
use crate::error::AgentCorpError;
use crate::json::{json_get_str, json_get_u64, json_str_field, json_u64_field};

verus! {

/// Kinds of entries in a session log.
#[derive(Debug, Clone, Copy, PartialEq, Eq, Structural)]
pub enum SessionMessageType {
    System,
    UserTask,
    Assistant,
    ToolResult,
    Screenshot,
    UserReply,
    SystemHint,
    Compact,
}

/// One entry of a session log. `data` is the entry's JSON payload, as text.
#[derive(Debug)]
pub struct SessionMessage {
    pub msg_id: u64,
    pub timestamp: String,
    pub msg_type: SessionMessageType,
    pub data: String,
}

/// `base` joined with the relative name `name` by one path separator.
pub open spec fn join_spec(base: Seq<char>, name: Seq<char>) -> Seq<char> {
    if base.len() == 0 {
        name
    } else if base.last() == '/' {
        base + name
    } else {
        base + seq!['/'] + name
    }
}

/// Join a relative file name onto a directory path.
pub fn join_path(base: &str, name: &str) -> (r: String)
    ensures
        r@ == join_spec(base@, name@),
{
    let b = crate::text::chars_of(base);
    if b.len() == 0 {
        let n = crate::text::chars_of(name);
        crate::text::string_from_chars(n.as_slice())
    } else if b[b.len() - 1] == '/' {
        crate::text::concat(base, name)
    } else {
        proof {
            reveal_strlit("/");
        }
        crate::text::concat3(base, "/", name)
    }
}

/// The directory of one agent's session.
#[derive(Debug)]
pub struct SessionDir {
    path: String,
}

impl SessionDir {
    pub closed spec fn path_spec(&self) -> Seq<char> {
        self.path@
    }

    pub fn new(path: String) -> (d: Self)
        ensures
            d.path_spec() == path@,
    {
        SessionDir { path }
    }

    /// The session directory itself.
    pub fn path(&self) -> (p: &String)
        ensures
            p@ == self.path_spec(),
    {
        &self.path
    }

    /// `meta.json` in the session directory.
    pub fn meta(&self) -> (p: String)
        ensures
            p@ == join_spec(self.path_spec(), "meta.json"@),
    {
        join_path(self.path.as_str(), "meta.json")
    }

    /// `messages.jsonl` in the session directory.
    pub fn messages(&self) -> (p: String)
        ensures
            p@ == join_spec(self.path_spec(), "messages.jsonl"@),
    {
        join_path(self.path.as_str(), "messages.jsonl")
    }

    /// `screenshots/` in the session directory.
    pub fn screenshots(&self) -> (p: String)
        ensures
            p@ == join_spec(self.path_spec(), "screenshots"@),
    {
        join_path(self.path.as_str(), "screenshots")
    }
}

/// The largest message id of a log, if it has any message.
pub open spec fn max_msg_id(msgs: Seq<SessionMessage>) -> Option<u64>
    decreases msgs.len(),
{
    if msgs.len() == 0 {
        None
    } else {
        let last = msgs.last().msg_id;
        match max_msg_id(msgs.drop_last()) {
            Some(m) => Some(if m >= last { m } else { last }),
            None => Some(last),
        }
    }
}

/// Position of the last compaction marker of a log.
pub open spec fn last_compact(msgs: Seq<SessionMessage>) -> Option<int>
    decreases msgs.len(),
{
    if msgs.len() == 0 {
        None
    } else if msgs.last().msg_type == SessionMessageType::Compact {
        Some(msgs.len() - 1)
    } else {
        last_compact(msgs.drop_last())
    }
}

/// The messages a restore keeps: those from `first_kept` on that are
/// neither compaction markers nor system messages, in log order.
pub open spec fn kept_messages(msgs: Seq<SessionMessage>, first_kept: u64) -> Seq<SessionMessage> {
    msgs.filter(restore_keeps(first_kept))
}

/// Whether a restore keeps a message, given the first id to keep.
pub open spec fn restore_keeps(first_kept: u64) -> spec_fn(SessionMessage) -> bool {
    |m: SessionMessage| m.msg_id >= first_kept && m.msg_type != SessionMessageType::Compact
        && m.msg_type != SessionMessageType::System
}

/// The counter after a log has been read: its largest id, or the old value
/// for an empty log.
pub open spec fn synced_counter(old_counter: u64, msgs: Seq<SessionMessage>) -> u64 {
    match max_msg_id(msgs) {
        Some(m) => m,
        None => old_counter,
    }
}

/// The summary a compaction marker records (empty when it has none).
pub open spec fn compact_summary(m: SessionMessage) -> Seq<char> {
    match json_str_field(m.data@, "summary"@) {
        Some(s) => s,
        None => seq![],
    }
}

/// The first id a compaction marker keeps (0 when it names none).
pub open spec fn compact_first_kept(m: SessionMessage) -> u64 {
    match json_u64_field(m.data@, "first_kept_msg_id"@) {
        Some(k) => k,
        None => 0,
    }
}

pub proof fn lemma_last_compact(msgs: Seq<SessionMessage>)
    ensures
        match last_compact(msgs) {
            Some(i) => 0 <= i < msgs.len() && msgs[i].msg_type == SessionMessageType::Compact
                && forall|j: int| i < j < msgs.len() ==> msgs[j].msg_type != SessionMessageType::Compact,
            None => forall|j: int| 0 <= j < msgs.len() ==> msgs[j].msg_type != SessionMessageType::Compact,
        },
    decreases msgs.len(),
{
    if msgs.len() > 0 {
        lemma_last_compact(msgs.drop_last());
        let d = msgs.drop_last();
        assert forall|j: int| 0 <= j < msgs.len() - 1 implies msgs[j] == #[trigger] d[j] by {}
        if msgs.last().msg_type != SessionMessageType::Compact {
            match last_compact(d) {
                Some(i) => {
                    assert(msgs[i] == d[i]);
                    assert forall|j: int| i < j < msgs.len() implies msgs[j].msg_type != SessionMessageType::Compact by {
                        if j < msgs.len() - 1 {
                            assert(msgs[j] == d[j]);
                        }
                    }
                },
                None => {
                    assert forall|j: int| 0 <= j < msgs.len() implies msgs[j].msg_type != SessionMessageType::Compact by {
                        if j < msgs.len() - 1 {
                            assert(msgs[j] == d[j]);
                        }
                    }
                },
            }
        }
    }
}

/// The position of the last compaction marker of `msgs`.
pub fn last_compact_position(msgs: &Vec<SessionMessage>) -> (r: Option<usize>)
    ensures
        match r {
            Some(i) => last_compact(msgs@) == Some(i as int),
            None => last_compact(msgs@) is None,
        },
{
    let mut i: usize = msgs.len();
    assert(msgs@.take(i as int) =~= msgs@);
    while i > 0
        invariant
            i <= msgs@.len(),
            last_compact(msgs@) == last_compact(msgs@.take(i as int)),
        decreases i,
    {
        proof {
            assert(msgs@.take(i as int).drop_last() =~= msgs@.take(i - 1));
        }
        if msgs[i - 1].msg_type == SessionMessageType::Compact {
            return Some(i - 1);
        }
        i = i - 1;
    }
    None
}

/// The messages that a restore keeps, given the first id to keep: those
/// with an id at least `first_kept` that are neither compaction markers nor
/// system messages, in order.
pub fn kept_for_restore(msgs: Vec<SessionMessage>, first_kept: u64) -> (kept: Vec<SessionMessage>)
    ensures
        kept@ == kept_messages(msgs@, first_kept),
{
    let ghost input = msgs@;
    let ghost f = restore_keeps(first_kept);
    let mut msgs = msgs;
    let mut kept: Vec<SessionMessage> = Vec::new();
    assert(input.skip(0) =~= input);
    while msgs.len() > 0
        invariant
            msgs@.len() <= input.len(),
            msgs@ == input.skip(input.len() - msgs@.len()),
            kept@ == input.take(input.len() - msgs@.len()).filter(f),
            f == restore_keeps(first_kept),
        decreases msgs.len(),
    {
        let ghost m = input.len() - msgs@.len();
        let x = msgs.remove(0);
        proof {
            assert(input.skip(m)[0] == x);
            assert(input.take(m + 1) =~= input.take(m).push(x));
            assert(msgs@ =~= input.skip(m + 1));
            input.take(m).lemma_filter_push(x, f);
        }
        if x.msg_id >= first_kept && x.msg_type != SessionMessageType::Compact
            && x.msg_type != SessionMessageType::System {
            kept.push(x);
        }
    }
    assert(input.take(input.len() as int) =~= input);
    kept
}

/// The largest id of a log.
pub fn max_id(msgs: &Vec<SessionMessage>) -> (r: Option<u64>)
    ensures
        r == max_msg_id(msgs@),
{
    let mut best: Option<u64> = None;
    let mut i: usize = 0;
    while i < msgs.len()
        invariant
            i <= msgs@.len(),
            best == max_msg_id(msgs@.take(i as int)),
        decreases msgs.len() - i,
    {
        proof {
            assert(msgs@.take(i + 1).drop_last() =~= msgs@.take(i as int));
        }
        let id = msgs[i].msg_id;
        best = match best {
            Some(m) => Some(if m >= id { m } else { id }),
            None => Some(id),
        };
        i = i + 1;
    }
    assert(msgs@.take(i as int) =~= msgs@);
    best
}

/// The current time as an RFC 3339 string: the system clock converted
/// with chrono's `From<SystemTime> for DateTime<Utc>` (which also takes
/// clocks set before 1970), then `to_rfc3339`. Nothing is stated of the
/// result: it depends on the clock.
#[verifier::external_body]
fn now_rfc3339() -> String {
    chrono::DateTime::<chrono::Utc>::from(std::time::SystemTime::now()).to_rfc3339()
}

/// The last component of a path, as `std::path::Path::file_name` finds it
/// (`None` for a path that ends in `..` or has no component, such as `/`).
pub uninterp spec fn path_last_component(path: Seq<char>) -> Option<Seq<char>>;

/// `Path::new(path).file_name()`, as a string. The result is named, not
/// described: it depends on `path` alone.
#[verifier::external_body]
fn path_file_name(path: &str) -> (r: Option<String>)
    ensures
        match r {
            Some(n) => path_last_component(path@) == Some(n@),
            None => path_last_component(path@) is None,
        },
{
    Some(std::path::Path::new(path).file_name()?.to_string_lossy().to_string())
}

/// The state of a session.
#[derive(Debug, Clone, Copy, PartialEq, Eq, Structural)]
pub enum SessionStatus {
    Running,
    Completed,
    Failed,
}

/// The metadata a new session starts with (its elapsed time starts at zero
/// and a configuration snapshot may be stored beside it).
#[derive(Debug)]
pub struct SessionStart {
    pub id: String,
    pub task: Option<String>,
    pub status: SessionStatus,
    pub created_at: String,
    pub updated_at: String,
    pub total_steps: u32,
    pub summary: String,
}

/// The id of the session kept in `dir`: the directory's own name (empty
/// when the path has none).
pub open spec fn session_id_spec(dir: Seq<char>) -> Seq<char> {
    match path_last_component(dir) {
        Some(n) => n,
        None => seq![],
    }
}

/// The metadata of a session created in `dir` at time `now`: named after
/// its directory, running, created and updated at `now`, with no steps and
/// no summary yet.
pub fn session_start(dir: &SessionDir, task: Option<String>, now: String) -> (m: SessionStart)
    ensures
        m.id@ == session_id_spec(dir.path_spec()),
        m.task == task,
        m.status == SessionStatus::Running,
        m.created_at@ == now@,
        m.updated_at@ == now@,
        m.total_steps == 0,
        m.summary@.len() == 0,
{
    let id = match path_file_name(dir.path().as_str()) {
        Some(n) => n,
        None => String::new(),
    };
    let created_at = now.clone();
    SessionStart {
        id,
        task,
        status: SessionStatus::Running,
        created_at,
        updated_at: now,
        total_steps: 0,
        summary: String::new(),
    }
}

/// Session log operations on one agent's session directory. Reading and
/// writing the files is left to the caller; the store keeps the message
/// counter and decides what each operation yields.
pub struct SessionStore {
    dir: SessionDir,
    msg_counter: u64,
}

impl SessionStore {
    /// The counter of the last message id handed out or read.
    pub closed spec fn counter(&self) -> u64 {
        self.msg_counter
    }

    /// The session directory.
    pub closed spec fn dir_path(&self) -> Seq<char> {
        self.dir.path_spec()
    }

    /// Open a session directory; the counter starts at 0.
    pub fn new(dir: SessionDir) -> (s: Self)
        ensures
            s.counter() == 0,
            s.dir_path() == dir.path_spec(),
    {
        SessionStore { dir, msg_counter: 0 }
    }

    /// The stored session metadata: absent metadata is an error.
    pub fn load_meta<M>(&self, stored: Option<M>) -> (r: Result<M, AgentCorpError>)
        ensures
            r is Ok <==> stored is Some,
            r matches Ok(m) ==> stored == Some(m),
            r matches Err(e) ==> (e matches AgentCorpError::Session { message }
                && message@ == "session meta.json not found"@),
    {
        match stored {
            Some(m) => Ok(m),
            None => Err(AgentCorpError::Session { message: "session meta.json not found".to_owned() }),
        }
    }

    /// Record the next message: its id is the counter plus one, and the
    /// counter moves to it. The caller appends the message to the log.
    pub fn append_message(&mut self, msg_type: SessionMessageType, data: String) -> (msg: SessionMessage)
        requires
            old(self).counter() < u64::MAX,
        ensures
            final(self).counter() == old(self).counter() + 1,
            final(self).dir_path() == old(self).dir_path(),
            msg.msg_id == final(self).counter(),
            msg.msg_type == msg_type,
            msg.data == data,
    {
        self.msg_counter = self.msg_counter + 1;
        SessionMessage { msg_id: self.msg_counter, timestamp: now_rfc3339(), msg_type, data }
    }

    /// Take in the messages read from the log: the counter moves to their
    /// largest id (it stays as it was for an empty log), and the messages
    /// are handed back unchanged.
    pub fn read_messages(&mut self, loaded: Vec<SessionMessage>) -> (msgs: Vec<SessionMessage>)
        ensures
            msgs@ == loaded@,
            final(self).counter() == synced_counter(old(self).counter(), loaded@),
            final(self).dir_path() == old(self).dir_path(),
    {
        if let Some(m) = max_id(&loaded) {
            self.msg_counter = m;
        }
        loaded
    }

    /// The last compaction marker of the log, as (summary, first kept id),
    /// or `None` when the log was never compacted. The counter is synced as
    /// in `read_messages`.
    pub fn find_last_compact(&mut self, loaded: Vec<SessionMessage>) -> (r: Option<(String, u64)>)
        ensures
            final(self).counter() == synced_counter(old(self).counter(), loaded@),
            final(self).dir_path() == old(self).dir_path(),
            r is None <==> last_compact(loaded@) is None,
            r matches Some((s, k)) ==> ({
                let m = loaded@[last_compact(loaded@)->0];
                &&& s@ == compact_summary(m)
                &&& k == compact_first_kept(m)
            }),
    {
        let msgs = self.read_messages(loaded);
        match last_compact_position(&msgs) {
            None => None,
            Some(i) => {
                proof {
                    lemma_last_compact(msgs@);
                }
                let summary = match json_get_str(msgs[i].data.as_str(), "summary") {
                    Some(s) => s,
                    None => String::new(),
                };
                let first = match json_get_u64(msgs[i].data.as_str(), "first_kept_msg_id") {
                    Some(k) => k,
                    None => 0,
                };
                Some((summary, first))
            },
        }
    }

    /// What a restore starts from: the summary of the last compaction marker
    /// (if it has one) and the messages kept after it.
    pub fn read_for_restore(&mut self, loaded: Vec<SessionMessage>) -> (r: (Option<String>, Vec<SessionMessage>))
        ensures
            final(self).counter() == synced_counter(old(self).counter(), loaded@),
            final(self).dir_path() == old(self).dir_path(),
            match last_compact(loaded@) {
                None => r.0 is None && r.1@ == kept_messages(loaded@, 0),
                Some(i) => {
                    &&& (match r.0 {
                        Some(s) => json_str_field(loaded@[i].data@, "summary"@) == Some(s@),
                        None => json_str_field(loaded@[i].data@, "summary"@) is None,
                    })
                    &&& r.1@ == kept_messages(loaded@, compact_first_kept(loaded@[i]))
                },
            },
    {
        let msgs = self.read_messages(loaded);
        let pos = last_compact_position(&msgs);
        proof {
            lemma_last_compact(msgs@);
        }
        let (summary, first) = match pos {
            None => (None, 0u64),
            Some(i) => {
                let s = json_get_str(msgs[i].data.as_str(), "summary");
                let k = match json_get_u64(msgs[i].data.as_str(), "first_kept_msg_id") {
                    Some(k) => k,
                    None => 0,
                };
                (s, k)
            },
        };
        let kept = kept_for_restore(msgs, first);
        (summary, kept)
    }

    /// The metadata of a new session in this store's directory, created
    /// now (see `session_start`); the time comes from the clock, so only
    /// that the session was created and updated at the same moment is
    /// stated of it.
    pub fn start_meta(&self, task: Option<String>) -> (m: SessionStart)
        ensures
            m.id@ == session_id_spec(self.dir_path()),
            m.task == task,
            m.status == SessionStatus::Running,
            m.created_at@ == m.updated_at@,
            m.total_steps == 0,
            m.summary@.len() == 0,
    {
        session_start(&self.dir, task, now_rfc3339())
    }

    /// The current message counter.
    pub fn msg_counter(&self) -> (c: u64)
        ensures
            c == self.counter(),
    {
        self.msg_counter
    }

    /// The session directory.
    pub fn dir(&self) -> (d: &SessionDir)
        ensures
            d.path_spec() == self.dir_path(),
    {
        &self.dir
    }
}

} // verus!

verus! {

pub proof fn lemma_max_msg_id(msgs: Seq<SessionMessage>)
    ensures
        forall|k: int| 0 <= k < msgs.len() ==> (max_msg_id(msgs) matches Some(m) && (#[trigger] msgs[k]).msg_id <= m),
        msgs.len() == 0 <==> max_msg_id(msgs) is None,
    decreases msgs.len(),
{
    if msgs.len() > 0 {
        lemma_max_msg_id(msgs.drop_last());
        assert forall|k: int| 0 <= k < msgs.len() implies (max_msg_id(msgs) matches Some(m) && (#[trigger] msgs[k]).msg_id <= m) by {
            if k < msgs.len() - 1 {
                assert(msgs[k] == msgs.drop_last()[k]);
            }
        }
    }
}

/// One call of `append_message`, as its contract states it: the counter
/// moves up by one, the message gets the new counter as its id and the
/// directory stays.
pub open spec fn append_step(before: SessionStore, after: SessionStore, msg: SessionMessage) -> bool {
    &&& after.counter() == before.counter() + 1
    &&& msg.msg_id == after.counter()
    &&& after.dir_path() == before.dir_path()
}

/// Appending messages one after another to a fresh store (counter 0)
/// hands out the ids 1, 2, ..., k in call order and leaves the counter at
/// k, the number of messages appended.
pub proof fn lemma_appends_number_from_one(stores: Seq<SessionStore>, msgs: Seq<SessionMessage>)
    requires
        stores.len() == msgs.len() + 1,
        stores[0].counter() == 0,
        forall|i: int| 0 <= i < msgs.len() ==> append_step(stores[i], #[trigger] stores[i + 1], msgs[i]),
    ensures
        stores.last().counter() == msgs.len(),
        forall|i: int| 0 <= i < msgs.len() ==> (#[trigger] msgs[i]).msg_id == i + 1,
{
    assert forall|k: int| 0 <= k <= msgs.len() implies (#[trigger] stores[k]).counter() == k by {
        lemma_counter_after_appends(stores, msgs, k);
    }
    assert forall|i: int| 0 <= i < msgs.len() implies (#[trigger] msgs[i]).msg_id == i + 1 by {
        assert(append_step(stores[i], stores[i + 1], msgs[i]));
        assert(stores[i + 1].counter() == i + 1);
    }
}

proof fn lemma_counter_after_appends(stores: Seq<SessionStore>, msgs: Seq<SessionMessage>, k: int)
    requires
        stores.len() == msgs.len() + 1,
        stores[0].counter() == 0,
        forall|i: int| 0 <= i < msgs.len() ==> append_step(stores[i], #[trigger] stores[i + 1], msgs[i]),
        0 <= k <= msgs.len(),
    ensures
        stores[k].counter() == k,
    decreases k,
{
    if k > 0 {
        lemma_counter_after_appends(stores, msgs, k - 1);
        assert(append_step(stores[k - 1], stores[k], msgs[k - 1]));
    }
}

/// A store's session directory never changes: `new` sets it and every
/// call that takes the store mutably (`append_message`, `read_messages`,
/// `find_last_compact`, `read_for_restore`) keeps it, so along any run of
/// such calls it is the directory the store was opened on.
pub proof fn lemma_dir_never_changes(dir: SessionDir, stores: Seq<SessionStore>)
    requires
        stores.len() > 0,
        stores[0].dir_path() == dir.path_spec(),
        forall|i: int| 0 <= i < stores.len() - 1 ==> (#[trigger] stores[i + 1]).dir_path() == stores[i].dir_path(),
    ensures
        forall|i: int| 0 <= i < stores.len() ==> (#[trigger] stores[i]).dir_path() == dir.path_spec(),
{
    assert forall|i: int| 0 <= i < stores.len() implies (#[trigger] stores[i]).dir_path() == dir.path_spec() by {
        lemma_dir_kept(dir, stores, i);
    }
}

proof fn lemma_dir_kept(dir: SessionDir, stores: Seq<SessionStore>, k: int)
    requires
        stores.len() > 0,
        stores[0].dir_path() == dir.path_spec(),
        forall|i: int| 0 <= i < stores.len() - 1 ==> (#[trigger] stores[i + 1]).dir_path() == stores[i].dir_path(),
        0 <= k < stores.len(),
    ensures
        stores[k].dir_path() == dir.path_spec(),
    decreases k,
{
    if k > 0 {
        lemma_dir_kept(dir, stores, k - 1);
        assert(stores[(k - 1) + 1].dir_path() == stores[k - 1].dir_path());
    }
}

/// After a log is read, the counter is at least every id in it, so the id
/// of the next appended message (counter plus one) is new.
pub proof fn lemma_next_id_is_fresh(old_counter: u64, msgs: Seq<SessionMessage>)
    ensures
        forall|k: int| 0 <= k < msgs.len() ==> (#[trigger] msgs[k]).msg_id <= synced_counter(old_counter, msgs),
        forall|k: int| 0 <= k < msgs.len() ==> (#[trigger] msgs[k]).msg_id != synced_counter(old_counter, msgs) + 1,
{
    lemma_max_msg_id(msgs);
}

/// A restore keeps no compaction marker and no system message, keeps only
/// ids from the first kept one on, and keeps every other message.
pub proof fn lemma_restore_keeps(msgs: Seq<SessionMessage>, first_kept: u64)
    ensures
        forall|k: int| 0 <= k < kept_messages(msgs, first_kept).len() ==> {
            let m = #[trigger] kept_messages(msgs, first_kept)[k];
            &&& m.msg_type != SessionMessageType::Compact
            &&& m.msg_type != SessionMessageType::System
            &&& m.msg_id >= first_kept
        },
        forall|i: int| 0 <= i < msgs.len() && (#[trigger] restore_keeps(first_kept)(msgs[i]))
            ==> kept_messages(msgs, first_kept).contains(msgs[i]),
{
    let f = restore_keeps(first_kept);
    let r = kept_messages(msgs, first_kept);
    assert forall|k: int| 0 <= k < r.len() implies {
        let m = #[trigger] r[k];
        &&& m.msg_type != SessionMessageType::Compact
        &&& m.msg_type != SessionMessageType::System
        &&& m.msg_id >= first_kept
    } by {
        msgs.lemma_filter_pred(f, k);
    }
    assert forall|i: int| 0 <= i < msgs.len() && (#[trigger] restore_keeps(first_kept)(msgs[i])) implies r.contains(msgs[i]) by {
        msgs.lemma_filter_contains(f, i);
    }
}

} // verus!
