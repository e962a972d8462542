//! What the chat view shows of session messages whose payloads are JSON.

use vstd::prelude::*;
use crate::json::{
    json_array_items, json_as_str, json_get, json_items, json_member, json_pretty, json_string,
    json_to_pretty,
};
use crate::memory::bm25::string_views;
use crate::text::{
    chars_of, contains_spec, join_lines, join_with_newlines, occurs_at, occurs_at_exec, str_eq,
    substring_of,
};

verus! {

/// The string under `key` of the JSON object `text`.
pub open spec fn str_member(text: Seq<char>, key: Seq<char>) -> Option<Seq<char>> {
    match json_member(text, key) {
        Some(m) => json_string(m),
        None => None,
    }
}

/// The texts of the `{"type": "text", "text": ...}` parts of a content list.
pub open spec fn text_parts(items: Seq<Seq<char>>) -> Seq<Seq<char>>
    decreases items.len(),
{
    if items.len() == 0 {
        seq![]
    } else {
        let rest = text_parts(items.drop_last());
        let p = items.last();
        if str_member(p, "type"@) == Some("text"@) {
            match str_member(p, "text"@) {
                Some(t) => rest.push(t),
                None => rest,
            }
        } else {
            rest
        }
    }
}

/// The text a message payload shows: its `content` when that is a string,
/// or the text parts of its `content` list joined by newlines; otherwise its
/// `text`, its `error`, the payload itself when it is a string, and last
/// the payload pretty-printed.
pub open spec fn message_text_spec(d: Seq<char>) -> Seq<char> {
    let from_content = match json_member(d, "content"@) {
        Some(c) => match json_string(c) {
            Some(s) => Some(s),
            None => match json_items(c) {
                Some(items) => Some(join_lines(text_parts(items))),
                None => None,
            },
        },
        None => None,
    };
    match from_content {
        Some(t) => t,
        None => match str_member(d, "text"@) {
            Some(t) => t,
            None => match str_member(d, "error"@) {
                Some(e) => e,
                None => match json_string(d) {
                    Some(s) => s,
                    None => match json_pretty(d) {
                        Some(p) => p,
                        None => seq![],
                    },
                },
            },
        },
    }
}

/// The string under `key` of the JSON object `text`.
pub fn get_str_member(text: &str, key: &str) -> (r: Option<String>)
    ensures
        match r {
            Some(s) => str_member(text@, key@) == Some(s@),
            None => str_member(text@, key@) is None,
        },
{
    match json_get(text, key) {
        Some(m) => json_as_str(m.as_str()),
        None => None,
    }
}

/// The texts of the text parts of a content list.
pub fn collect_text_parts(items: &Vec<String>) -> (r: Vec<String>)
    ensures
        string_views(r@) == text_parts(string_views(items@)),
{
    let ghost v = string_views(items@);
    let mut out: Vec<String> = Vec::new();
    let mut i: usize = 0;
    while i < items.len()
        invariant
            i <= items@.len(),
            v == string_views(items@),
            string_views(out@) == text_parts(v.take(i as int)),
        decreases items.len() - i,
    {
        proof {
            assert(v.take(i + 1).drop_last() =~= v.take(i as int));
            assert(v.take(i + 1).last() == items@[i as int]@);
        }
        let ty = get_str_member(items[i].as_str(), "type");
        let is_text = match &ty {
            Some(t) => str_eq(t.as_str(), "text"),
            None => false,
        };
        if is_text {
            if let Some(t) = get_str_member(items[i].as_str(), "text") {
                let ghost before = out@;
                out.push(t);
                assert(string_views(out@) =~= string_views(before).push(t@));
            }
        }
        i = i + 1;
    }
    assert(v.take(i as int) =~= v);
    out
}

/// The text of a session message's JSON payload (see `message_text_spec`).
pub fn extract_message_text(data: &str) -> (r: String)
    ensures
        r@ == message_text_spec(data@),
{
    if let Some(c) = json_get(data, "content") {
        if let Some(s) = json_as_str(c.as_str()) {
            return s;
        }
        if let Some(items) = json_array_items(c.as_str()) {
            let parts = collect_text_parts(&items);
            return join_with_newlines(&parts);
        }
    }
    if let Some(t) = get_str_member(data, "text") {
        return t;
    }
    if let Some(e) = get_str_member(data, "error") {
        return e;
    }
    if let Some(s) = json_as_str(data) {
        return s;
    }
    match json_to_pretty(data) {
        Some(p) => p,
        None => String::new(),
    }
}

/// The `id` of a tool call (empty when absent).
pub open spec fn call_id(tc: Seq<char>) -> Seq<char> {
    match str_member(tc, "id"@) {
        Some(s) => s,
        None => seq![],
    }
}

/// The function name of a tool call (empty when absent).
pub open spec fn call_name(tc: Seq<char>) -> Seq<char> {
    match json_member(tc, "function"@) {
        Some(f) => match str_member(f, "name"@) {
            Some(s) => s,
            None => seq![],
        },
        None => seq![],
    }
}

/// The arguments text of a tool call, if it has one.
pub open spec fn call_arguments(tc: Seq<char>) -> Option<Seq<char>> {
    match json_member(tc, "function"@) {
        Some(f) => str_member(f, "arguments"@),
        None => None,
    }
}

/// A tool call answers a result: by id when the result names one,
/// otherwise by function name.
pub open spec fn call_matches(tc: Seq<char>, id: Seq<char>, name: Seq<char>) -> bool {
    if id.len() > 0 {
        call_id(tc) == id
    } else {
        call_name(tc) == name
    }
}

/// The arguments of the first matching call that has arguments.
pub open spec fn first_call_arguments(tcs: Seq<Seq<char>>, id: Seq<char>, name: Seq<char>) -> Option<Seq<char>>
    decreases tcs.len(),
{
    if tcs.len() == 0 {
        None
    } else if call_matches(tcs[0], id, name) && call_arguments(tcs[0]) is Some {
        call_arguments(tcs[0])
    } else {
        first_call_arguments(tcs.drop_first(), id, name)
    }
}

/// Arguments shown pretty-printed when they are JSON, as they are otherwise.
pub open spec fn shown_arguments(args: Seq<char>) -> Seq<char> {
    match json_pretty(args) {
        Some(p) => p,
        None => args,
    }
}

/// The input of the tool call that a tool result at position `upto`
/// answers: the most recent assistant message before it is searched (and
/// only that one); empty when nothing matches.
pub open spec fn tool_input_spec(msgs: Seq<(String, String)>, upto: int, id: Seq<char>, name: Seq<char>) -> Seq<char>
    decreases upto,
{
    if upto <= 0 {
        seq![]
    } else if msgs[upto - 1].0@ != "assistant"@ {
        tool_input_spec(msgs, upto - 1, id, name)
    } else {
        match json_member(msgs[upto - 1].1@, "tool_calls"@) {
            Some(t) => match json_items(t) {
                Some(tcs) => match first_call_arguments(tcs, id, name) {
                    Some(a) => shown_arguments(a),
                    None => seq![],
                },
                None => seq![],
            },
            None => seq![],
        }
    }
}

/// Whether a tool call matches, with its arguments if it has any.
fn call_arguments_if_matching(tc: &str, id: &str, name: &str) -> (r: Option<String>)
    ensures
        match r {
            Some(a) => call_matches(tc@, id@, name@) && call_arguments(tc@) == Some(a@),
            None => !(call_matches(tc@, id@, name@) && call_arguments(tc@) is Some),
        },
{
    proof {
        reveal_strlit("");
    }
    let f = json_get(tc, "function");
    let id_empty = str_eq(id, "");
    assert(""@ =~= Seq::<char>::empty());
    assert(id_empty == (id@.len() == 0)) by {
        if id@.len() == 0 {
            assert(id@ =~= ""@);
        }
    }
    let matches = if !id_empty {
        match get_str_member(tc, "id") {
            Some(x) => str_eq(x.as_str(), id),
            None => str_eq("", id),
        }
    } else {
        let n = match &f {
            Some(fx) => get_str_member(fx.as_str(), "name"),
            None => None,
        };
        match n {
            Some(x) => str_eq(x.as_str(), name),
            None => str_eq("", name),
        }
    };
    assert(matches == call_matches(tc@, id@, name@));
    if !matches {
        return None;
    }
    match &f {
        Some(fx) => get_str_member(fx.as_str(), "arguments"),
        None => None,
    }
}

/// The arguments of the first call in `tcs` that matches and has arguments.
fn first_matching_arguments(tcs: &Vec<String>, id: &str, name: &str) -> (r: Option<String>)
    ensures
        match r {
            Some(a) => first_call_arguments(string_views(tcs@), id@, name@) == Some(a@),
            None => first_call_arguments(string_views(tcs@), id@, name@) is None,
        },
{
    let ghost tv = string_views(tcs@);
    let mut k: usize = 0;
    assert(tv.skip(0) =~= tv);
    while k < tcs.len()
        invariant
            k <= tcs@.len(),
            tv == string_views(tcs@),
            first_call_arguments(tv, id@, name@) == first_call_arguments(tv.skip(k as int), id@, name@),
        decreases tcs.len() - k,
    {
        proof {
            let t = tv.skip(k as int);
            assert(t[0] == tcs@[k as int]@);
            assert(t.drop_first() =~= tv.skip(k + 1));
        }
        let found = call_arguments_if_matching(tcs[k].as_str(), id, name);
        if found.is_some() {
            return found;
        }
        k = k + 1;
    }
    assert(tv.skip(k as int).len() == 0);
    None
}

/// The input of the tool call that the tool result at `current_idx`
/// answers, looked up by `tool_call_id` (or by `tool_name` when the id is
/// empty) in the most recent assistant message before it.
pub fn find_tool_input(msgs: &Vec<(String, String)>, current_idx: usize, tool_call_id: &str, tool_name: &str) -> (r: String)
    requires
        current_idx <= msgs@.len(),
    ensures
        r@ == tool_input_spec(msgs@, current_idx as int, tool_call_id@, tool_name@),
{
    let mut i: usize = current_idx;
    while i > 0
        invariant
            i <= current_idx <= msgs@.len(),
            tool_input_spec(msgs@, current_idx as int, tool_call_id@, tool_name@)
                == tool_input_spec(msgs@, i as int, tool_call_id@, tool_name@),
        decreases i,
    {
        let m = &msgs[i - 1];
        let ghost mv = msgs@[i - 1];
        assert(m.0@ == mv.0@ && m.1@ == mv.1@);
        if !str_eq(m.0.as_str(), "assistant") {
            i = i - 1;
            continue;
        }
        let calls = match json_get(m.1.as_str(), "tool_calls") {
            Some(t) => json_array_items(t.as_str()),
            None => None,
        };
        let tcs = match calls {
            Some(v) => v,
            None => {
                proof {
                    reveal_strlit("");
                }
                return String::new();
            },
        };
        assert(tcs@.map_values(|s: String| s@) =~= string_views(tcs@));
        let r = match first_matching_arguments(&tcs, tool_call_id, tool_name) {
            Some(args) => match json_to_pretty(args.as_str()) {
                Some(p) => p,
                None => args,
            },
            None => String::new(),
        };
        return r;
    }
    String::new()
}

/// A shown message text loses a leading `[..] ` tag: when the text starts
/// with `[` and holds `] `, what follows the first `] ` is shown.
pub open spec fn untagged_spec(text: Seq<char>) -> Seq<char> {
    if text.len() > 0 && text[0] == '[' && contains_spec(text, "] "@) {
        let k = choose|k: int| occurs_at(text, "] "@, k) && forall|j: int| 0 <= j < k ==> !occurs_at(text, "] "@, j);
        text.skip(k + 2)
    } else {
        text
    }
}

/// The text shown in a chat bubble (see `untagged_spec`).
pub fn strip_tag_prefix(text: &str) -> (r: String)
    ensures
        r@ == untagged_spec(text@),
{
    proof {
        reveal_strlit("] ");
    }
    let t = chars_of(text);
    let pat = chars_of("] ");
    assert(pat@.len() == 2);
    if t.len() == 0 || t[0] != '[' {
        return text.to_owned();
    }
    let mut i: usize = 0;
    while i < t.len()
        invariant
            t@ == text@,
            pat@ == "] "@,
            pat@.len() == 2,
            t@.len() > 0 && t@[0] == '[',
            i <= t@.len(),
            forall|j: int| 0 <= j < i ==> !occurs_at(text@, "] "@, j),
        decreases t.len() - i,
    {
        if occurs_at_exec(&t, &pat, i) {
            proof {
                let p = |k: int| occurs_at(text@, "] "@, k) && forall|j: int| 0 <= j < k ==> !occurs_at(text@, "] "@, j);
                assert(p(i as int));
                assert(contains_spec(text@, "] "@));
                let k = choose|k: int| occurs_at(text@, "] "@, k) && forall|j: int| 0 <= j < k ==> !occurs_at(text@, "] "@, j);
                assert(p(k));
                if k < i {
                    assert(!occurs_at(text@, "] "@, k));
                } else if k > i {
                    assert(!occurs_at(text@, "] "@, i as int));
                }
                assert(k == i);
                assert(text@.len() > 0 && text@[0] == '[');
            }
            let r = substring_of(&t, i + 2, t.len());
            assert(r@ =~= text@.skip(i + 2));
            return r;
        }
        i = i + 1;
    }
    assert forall|j: int| !occurs_at(text@, "] "@, j) by {
        if 0 <= j && j < i {
        }
    }
    text.to_owned()
}

/// Who a user-side message is shown as: `You` for the user, `System` for
/// the system or the supervisor, otherwise the sender's own name.
pub open spec fn header_for(sender: Seq<char>) -> Seq<char> {
    if sender == "user"@ {
        "You"@
    } else if sender == "system"@ || sender == "supervisor"@ {
        "System"@
    } else {
        sender
    }
}

/// The sender of a user-side message payload: its `sender`, `user` when it
/// names none.
pub open spec fn sender_of(data: Seq<char>) -> Seq<char> {
    match str_member(data, "sender"@) {
        Some(s) => s,
        None => "user"@,
    }
}

/// The chat header of a user-side message (see `header_for`).
pub fn chat_header(data: &str) -> (r: String)
    ensures
        r@ == header_for(sender_of(data@)),
{
    let sender = match get_str_member(data, "sender") {
        Some(s) => s,
        None => "user".to_owned(),
    };
    if str_eq(sender.as_str(), "user") {
        "You".to_owned()
    } else if str_eq(sender.as_str(), "system") || str_eq(sender.as_str(), "supervisor") {
        "System".to_owned()
    } else {
        sender
    }
}

/// The badge after the header of a steering message: shown when the
/// payload's `priority` is `steer`.
pub fn steer_badge(data: &str) -> (r: &'static str)
    ensures
        r@ == if str_member(data@, "priority"@) == Some("steer"@) { " \u{26A1} steer"@ } else { ""@ },
{
    let steer = match get_str_member(data, "priority") {
        Some(p) => str_eq(p.as_str(), "steer"),
        None => false,
    };
    if steer {
        " \u{26A1} steer"
    } else {
        ""
    }
}

/// The call a tool result with a non-empty `id` answers is found by id
/// alone: the arguments are those of the first call whose id is `id` and
/// that has arguments (none when there is no such call), whatever the
/// function names are.
pub proof fn lemma_call_found_by_id(tcs: Seq<Seq<char>>, id: Seq<char>, name: Seq<char>)
    requires
        id.len() > 0,
    ensures
        match first_call_arguments(tcs, id, name) {
            Some(a) => exists|k: int| 0 <= k < tcs.len()
                && call_id(#[trigger] tcs[k]) == id
                && call_arguments(tcs[k]) == Some(a)
                && forall|j: int| 0 <= j < k ==> !(call_id(#[trigger] tcs[j]) == id && call_arguments(tcs[j]) is Some),
            None => forall|k: int| 0 <= k < tcs.len() ==> !(call_id(#[trigger] tcs[k]) == id && call_arguments(tcs[k]) is Some),
        },
    decreases tcs.len(),
{
    if tcs.len() > 0 {
        let rest = tcs.drop_first();
        lemma_call_found_by_id(rest, id, name);
        if !(call_id(tcs[0]) == id && call_arguments(tcs[0]) is Some) {
            match first_call_arguments(rest, id, name) {
                Some(a) => {
                    let k = choose|k: int| 0 <= k < rest.len()
                        && call_id(#[trigger] rest[k]) == id
                        && call_arguments(rest[k]) == Some(a)
                        && forall|j: int| 0 <= j < k ==> !(call_id(#[trigger] rest[j]) == id && call_arguments(rest[j]) is Some);
                    assert(tcs[k + 1] == rest[k]);
                    assert forall|j: int| 0 <= j < k + 1 implies !(call_id(#[trigger] tcs[j]) == id && call_arguments(tcs[j]) is Some) by {
                        if j > 0 {
                            assert(tcs[j] == rest[j - 1]);
                        }
                    }
                },
                None => {
                    assert forall|k: int| 0 <= k < tcs.len() implies !(call_id(#[trigger] tcs[k]) == id && call_arguments(tcs[k]) is Some) by {
                        if k > 0 {
                            assert(tcs[k] == rest[k - 1]);
                        }
                    }
                },
            }
        }
    }
}

/// A tool result without an id is matched by function name: the arguments
/// are those of the first call with that name that has arguments (none
/// when there is no such call).
pub proof fn lemma_call_found_by_name(tcs: Seq<Seq<char>>, name: Seq<char>)
    ensures
        match first_call_arguments(tcs, seq![], name) {
            Some(a) => exists|k: int| 0 <= k < tcs.len()
                && call_name(#[trigger] tcs[k]) == name
                && call_arguments(tcs[k]) == Some(a)
                && forall|j: int| 0 <= j < k ==> !(call_name(#[trigger] tcs[j]) == name && call_arguments(tcs[j]) is Some),
            None => forall|k: int| 0 <= k < tcs.len() ==> !(call_name(#[trigger] tcs[k]) == name && call_arguments(tcs[k]) is Some),
        },
    decreases tcs.len(),
{
    if tcs.len() > 0 {
        let rest = tcs.drop_first();
        lemma_call_found_by_name(rest, name);
        if !(call_name(tcs[0]) == name && call_arguments(tcs[0]) is Some) {
            match first_call_arguments(rest, seq![], name) {
                Some(a) => {
                    let k = choose|k: int| 0 <= k < rest.len()
                        && call_name(#[trigger] rest[k]) == name
                        && call_arguments(rest[k]) == Some(a)
                        && forall|j: int| 0 <= j < k ==> !(call_name(#[trigger] rest[j]) == name && call_arguments(rest[j]) is Some);
                    assert(tcs[k + 1] == rest[k]);
                    assert forall|j: int| 0 <= j < k + 1 implies !(call_name(#[trigger] tcs[j]) == name && call_arguments(tcs[j]) is Some) by {
                        if j > 0 {
                            assert(tcs[j] == rest[j - 1]);
                        }
                    }
                },
                None => {
                    assert forall|k: int| 0 <= k < tcs.len() implies !(call_name(#[trigger] tcs[k]) == name && call_arguments(tcs[k]) is Some) by {
                        if k > 0 {
                            assert(tcs[k] == rest[k - 1]);
                        }
                    }
                },
            }
        }
    }
}

} // verus!
