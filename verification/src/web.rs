//! Presentation rules of the web interface.

use vstd::prelude::*;
use crate::memory::bm25::string_views;
use crate::text::{chars_of, concat, str_eq, str_to_lowercase, string_from_chars, unicode_lowercase};

verus! {

/// The CSS class of an agent state badge.
pub fn status_badge_class(status: &str) -> (r: &'static str)
    ensures
        r@ == if status@ == "running"@ {
            "badge badge-success"@
        } else if status@ == "idle"@ {
            "badge badge-ghost"@
        } else if status@ == "error"@ {
            "badge badge-error"@
        } else {
            "badge badge-info"@
        },
{
    if str_eq(status, "running") {
        "badge badge-success"
    } else if str_eq(status, "idle") {
        "badge badge-ghost"
    } else if str_eq(status, "error") {
        "badge badge-error"
    } else {
        "badge badge-info"
    }
}

/// The Unicode uppercase mapping of one character (what
/// `char::to_uppercase` yields, collected into a string).
pub uninterp spec fn unicode_uppercase(c: char) -> Seq<char>;

/// `char::to_uppercase`, collected: the uppercase mapping of `c`, which may
/// be several characters. ASCII lowercase letters map to their capitals.
#[verifier::external_body]
fn char_to_uppercase(c: char) -> (r: String)
    ensures
        r@ == unicode_uppercase(c),
        'a' <= c <= 'z' ==> r@ == seq![((c as int) - 32) as char],
{
    c.to_uppercase().to_string()
}

/// A config section name for display: the first character uppercased and
/// every later underscore shown as a space.
pub open spec fn section_name_spec(s: Seq<char>) -> Seq<char> {
    if s.len() == 0 {
        seq![]
    } else {
        unicode_uppercase(s[0]) + s.skip(1).map_values(|c: char| if c == '_' { ' ' } else { c })
    }
}

pub fn format_section_name(name: &str) -> (r: String)
    ensures
        r@ == section_name_spec(name@),
{
    let s = chars_of(name);
    if s.len() == 0 {
        return string_from_chars(s.as_slice());
    }
    let head = char_to_uppercase(s[0]);
    let mut rest: Vec<char> = Vec::new();
    let mut i: usize = 1;
    while i < s.len()
        invariant
            s@ == name@,
            1 <= i <= s@.len(),
            rest@ == s@.subrange(1, i as int).map_values(|c: char| if c == '_' { ' ' } else { c }),
        decreases s.len() - i,
    {
        let c = s[i];
        rest.push(if c == '_' { ' ' } else { c });
        assert(rest@ =~= s@.subrange(1, i + 1).map_values(|c: char| if c == '_' { ' ' } else { c }));
        i = i + 1;
    }
    assert(s@.subrange(1, i as int) =~= s@.skip(1));
    let tail = string_from_chars(rest.as_slice());
    concat(head.as_str(), tail.as_str())
}

/// The HTML that a CommonMark renderer produces for a markdown text.
pub uninterp spec fn markdown_html(md: Seq<char>) -> Seq<char>;

/// Render markdown to HTML with `pulldown_cmark` (`Parser::new` and
/// `html::push_html` into an empty string). The output is named, not
/// described: it depends on the text alone.
#[verifier::external_body]
pub fn render_markdown(md: &str) -> (html: String)
    ensures
        html@ == markdown_html(md@),
{
    let parser = pulldown_cmark::Parser::new(md);
    let mut html_output = String::new();
    pulldown_cmark::html::push_html(&mut html_output, parser);
    html_output
}

/// The brand palette of the interface theme: shade number and colour.
pub fn brand_colors() -> (r: Vec<(i32, &'static str)>)
    ensures
        r@ == seq![
            (10i32, "#030108"), (20i32, "#150C27"), (30i32, "#231543"),
            (40i32, "#2F1B5E"), (50i32, "#3B227B"), (60i32, "#6B4EAB"),
            (70i32, "#7E62BB"), (80i32, "#9177CB"), (90i32, "#A48DDA"),
            (100i32, "#B7A3E8"), (110i32, "#C9B9F0"), (120i32, "#DACFF6"),
            (130i32, "#E8E1FA"), (140i32, "#F1EDFC"), (150i32, "#F8F6FE"),
            (160i32, "#FCFBFF"),
        ],
{
    vec![
        (10, "#030108"), (20, "#150C27"), (30, "#231543"),
        (40, "#2F1B5E"), (50, "#3B227B"), (60, "#6B4EAB"),
        (70, "#7E62BB"), (80, "#9177CB"), (90, "#A48DDA"),
        (100, "#B7A3E8"), (110, "#C9B9F0"), (120, "#DACFF6"),
        (130, "#E8E1FA"), (140, "#F1EDFC"), (150, "#F8F6FE"),
        (160, "#FCFBFF"),
    ]
}

/// The badge class of a task status on the task board.
pub fn task_status_class(status: &str) -> (r: &'static str)
    ensures
        r@ == if status@ == "done"@ {
            "badge badge-success badge-sm"@
        } else if status@ == "in_progress"@ {
            "badge badge-primary badge-sm"@
        } else if status@ == "claimed"@ {
            "badge badge-info badge-sm"@
        } else {
            "badge badge-ghost badge-sm"@
        },
{
    if str_eq(status, "done") {
        "badge badge-success badge-sm"
    } else if str_eq(status, "in_progress") {
        "badge badge-primary badge-sm"
    } else if str_eq(status, "claimed") {
        "badge badge-info badge-sm"
    } else {
        "badge badge-ghost badge-sm"
    }
}

/// The next step of a task and the label of the button that takes it:
/// pending tasks are claimed, claimed ones started, started ones completed;
/// done tasks (and unknown statuses) have no next step.
pub fn next_task_status(status: &str) -> (r: Option<(&'static str, &'static str)>)
    ensures
        status@ == "pending"@ ==> (r matches Some((s, l)) && s@ == "claimed"@ && l@ == "Claim"@),
        status@ == "claimed"@ ==> (r matches Some((s, l)) && s@ == "in_progress"@ && l@ == "Start"@),
        status@ == "in_progress"@ ==> (r matches Some((s, l)) && s@ == "done"@ && l@ == "Complete"@),
        status@ != "pending"@ && status@ != "claimed"@ && status@ != "in_progress"@ ==> r is None,
{
    proof {
        reveal_strlit("pending");
        reveal_strlit("claimed");
        reveal_strlit("in_progress");
        assert("pending"@ != "claimed"@) by {
            assert("pending"@[0] != "claimed"@[0]);
        }
        assert("in_progress"@ != "pending"@ && "in_progress"@ != "claimed"@) by {
            assert("in_progress"@.len() == 11);
        }
    }
    if str_eq(status, "pending") {
        Some(("claimed", "Claim"))
    } else if str_eq(status, "claimed") {
        Some(("in_progress", "Start"))
    } else if str_eq(status, "in_progress") {
        Some(("done", "Complete"))
    } else {
        None
    }
}

/// A task counts as pending.
pub open spec fn is_pending(s: Seq<char>) -> bool {
    s == "pending"@
}

/// A task counts as active: claimed or in progress.
pub open spec fn is_active(s: Seq<char>) -> bool {
    s == "claimed"@ || s == "in_progress"@
}

/// A task counts as done.
pub open spec fn is_done(s: Seq<char>) -> bool {
    s == "done"@
}

/// How many of the task statuses are pending, active and done.
pub fn task_counts(statuses: &Vec<String>) -> (r: (usize, usize, usize))
    ensures
        r.0 == string_views(statuses@).filter(|s: Seq<char>| is_pending(s)).len(),
        r.1 == string_views(statuses@).filter(|s: Seq<char>| is_active(s)).len(),
        r.2 == string_views(statuses@).filter(|s: Seq<char>| is_done(s)).len(),
{
    let ghost v = string_views(statuses@);
    let ghost fp = |s: Seq<char>| is_pending(s);
    let ghost fa = |s: Seq<char>| is_active(s);
    let ghost fd = |s: Seq<char>| is_done(s);
    let mut pending: usize = 0;
    let mut active: usize = 0;
    let mut done: usize = 0;
    let mut i: usize = 0;
    while i < statuses.len()
        invariant
            i <= statuses@.len(),
            v == string_views(statuses@),
            fp == (|s: Seq<char>| is_pending(s)),
            fa == (|s: Seq<char>| is_active(s)),
            fd == (|s: Seq<char>| is_done(s)),
            pending == v.take(i as int).filter(fp).len(),
            active == v.take(i as int).filter(fa).len(),
            done == v.take(i as int).filter(fd).len(),
        decreases statuses.len() - i,
    {
        proof {
            assert(v.take(i + 1) =~= v.take(i as int).push(v[i as int]));
            v.take(i as int).lemma_filter_push(v[i as int], fp);
            v.take(i as int).lemma_filter_push(v[i as int], fa);
            v.take(i as int).lemma_filter_push(v[i as int], fd);
            lemma_filter_len_le(v.take(i as int), fp);
            lemma_filter_len_le(v.take(i as int), fa);
            lemma_filter_len_le(v.take(i as int), fd);
        }
        let s = statuses[i].as_str();
        assert(v[i as int] == s@);
        proof {
            reveal_strlit("pending");
            reveal_strlit("claimed");
            reveal_strlit("in_progress");
            reveal_strlit("done");
            assert("pending"@ != "claimed"@) by {
                assert("pending"@[0] != "claimed"@[0]);
            }
        }
        if str_eq(s, "pending") {
            pending = pending + 1;
        } else if str_eq(s, "claimed") || str_eq(s, "in_progress") {
            active = active + 1;
        } else if str_eq(s, "done") {
            done = done + 1;
        }
        i = i + 1;
    }
    assert(v.take(i as int) =~= v);
    (pending, active, done)
}

proof fn lemma_filter_len_le(s: Seq<Seq<char>>, f: spec_fn(Seq<char>) -> bool)
    ensures
        s.filter(f).len() <= s.len(),
    decreases s.len(),
{
    reveal(Seq::filter);
    if s.len() > 0 {
        lemma_filter_len_le(s.drop_last(), f);
    }
}

/// The badge class of a team message's priority.
pub fn message_priority_class(priority: &str) -> (r: &'static str)
    ensures
        r@ == if priority@ == "steer"@ { "badge badge-warning badge-xs"@ } else { "badge badge-primary badge-xs"@ },
{
    if str_eq(priority, "steer") {
        "badge badge-warning badge-xs"
    } else {
        "badge badge-primary badge-xs"
    }
}

/// The badge class of a log level (given in lowercase).
pub open spec fn level_badge_spec(level: Seq<char>) -> Seq<char> {
    if level == "error"@ {
        "badge badge-error badge-sm"@
    } else if level == "warn"@ {
        "badge badge-warning badge-sm"@
    } else if level == "info"@ {
        "badge badge-primary badge-sm"@
    } else if level == "debug"@ {
        "badge badge-ghost badge-sm"@
    } else {
        "badge badge-sm"@
    }
}

/// The badge class of a log entry's level, whatever its case.
pub fn log_level_badge_class(level: &str) -> (c: &'static str)
    ensures
        c@ == level_badge_spec(unicode_lowercase(level@)),
{
    let l = str_to_lowercase(level);
    if str_eq(l.as_str(), "error") {
        "badge badge-error badge-sm"
    } else if str_eq(l.as_str(), "warn") {
        "badge badge-warning badge-sm"
    } else if str_eq(l.as_str(), "info") {
        "badge badge-primary badge-sm"
    } else if str_eq(l.as_str(), "debug") {
        "badge badge-ghost badge-sm"
    } else {
        "badge badge-sm"
    }
}

} // verus!
