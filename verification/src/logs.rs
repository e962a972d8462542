//! Log tails.

use vstd::prelude::*;
use crate::memory::bm25::string_views;
use crate::text::{lines_of, lines_spec};

verus! {

/// The last `n` lines of a text (all of them when it has fewer), in order.
pub open spec fn tail_spec(text: Seq<char>, n: nat) -> Seq<Seq<char>> {
    let l = lines_spec(text);
    if l.len() <= n {
        l
    } else {
        l.skip(l.len() - n)
    }
}

/// The last `n` lines of `content`, in their order.
pub fn tail_lines(content: &str, n: usize) -> (lines: Vec<String>)
    ensures
        string_views(lines@) == tail_spec(content@, n as nat),
{
    let all = lines_of(content);
    if all.len() <= n {
        return all;
    }
    let skip = all.len() - n;
    let ghost av = all@;
    let mut all = all;
    let mut out: Vec<String> = Vec::new();
    let mut dropped: usize = 0;
    while dropped < skip
        invariant
            skip <= av.len(),
            dropped <= skip,
            all@ == av.skip(dropped as int),
        decreases skip - dropped,
    {
        all.remove(0);
        dropped = dropped + 1;
        assert(all@ =~= av.skip(dropped as int));
    }
    assert(string_views(all@) =~= string_views(av).skip(skip as int));
    all
}

/// The last `n` lines of a log file, given its content (`None` when the
/// file is missing or unreadable, which has no lines).
pub fn tail_of_file(content: Option<&str>, n: usize) -> (lines: Vec<String>)
    ensures
        match content {
            Some(c) => string_views(lines@) == tail_spec(c@, n as nat),
            None => lines@.len() == 0,
        },
{
    match content {
        Some(c) => tail_lines(c, n),
        None => Vec::new(),
    }
}

} // verus!

verus! {

/// A tail has at most `n` lines, and they are the last lines of the text.
pub proof fn lemma_tail(text: Seq<char>, n: nat)
    ensures
        tail_spec(text, n).len() <= n,
        tail_spec(text, n).len() <= lines_spec(text).len(),
        forall|k: int| 0 <= k < tail_spec(text, n).len() ==> #[trigger] tail_spec(text, n)[k]
            == lines_spec(text)[lines_spec(text).len() - tail_spec(text, n).len() + k],
{
}

/// A tail holds exactly `min(n, lines)` lines: every line of a text with at
/// most `n` lines, else the last `n`; each line of the tail is the
/// corresponding line of the text, so nothing is dropped or reordered.
pub proof fn lemma_tail_length(text: Seq<char>, n: nat)
    ensures
        lines_spec(text).len() <= n ==> tail_spec(text, n) == lines_spec(text),
        tail_spec(text, n).len() == if lines_spec(text).len() <= n { lines_spec(text).len() } else { n },
        forall|k: int| 0 <= k < tail_spec(text, n).len() ==> #[trigger] tail_spec(text, n)[k]
            == lines_spec(text)[lines_spec(text).len() - tail_spec(text, n).len() + k],
{
    let l = lines_spec(text);
    if l.len() <= n {
        assert(tail_spec(text, n) =~= l);
    }
}

} // verus!
