//! Tokenization for BM25 search, and the integer statistics that BM25
//! scoring is computed from.

use vstd::prelude::*;
use crate::text::{
    char_is_alphanumeric, char_is_whitespace, chars_of, simple_case, simple_lower, str_to_lowercase,
    string_from_chars,
    unicode_alphanumeric, unicode_lowercase, unicode_whitespace,
};

verus! {

/// CJK unified ideographs, U+4E00 through U+9FFF.
pub open spec fn is_cjk_spec(c: char) -> bool {
    '\u{4e00}' <= c <= '\u{9fff}'
}

/// A character that belongs to a non-CJK word: neither CJK nor whitespace.
pub open spec fn is_word_char(c: char) -> bool {
    !is_cjk_spec(c) && !unicode_whitespace(c)
}

/// End of the maximal run of CJK characters that starts at `i`.
pub open spec fn cjk_run_end(s: Seq<char>, i: int) -> int
    decreases s.len() - i,
{
    if 0 <= i < s.len() && is_cjk_spec(s[i]) {
        cjk_run_end(s, i + 1)
    } else {
        i
    }
}

/// End of the maximal run of word characters that starts at `i`.
pub open spec fn word_run_end(s: Seq<char>, i: int) -> int
    decreases s.len() - i,
{
    if 0 <= i < s.len() && is_word_char(s[i]) {
        word_run_end(s, i + 1)
    } else {
        i
    }
}

/// Tokens of a CJK run: the run itself when it is one character long,
/// otherwise its overlapping bigrams.
pub open spec fn cjk_tokens(run: Seq<char>) -> Seq<Seq<char>> {
    if run.len() == 1 {
        seq![run]
    } else {
        Seq::new((run.len() - 1) as nat, |k: int| run.subrange(k, k + 2))
    }
}

/// A word with every character that is not alphanumeric removed.
pub open spec fn clean_word(w: Seq<char>) -> Seq<char> {
    w.filter(|c: char| unicode_alphanumeric(c))
}

pub proof fn lemma_run_ends(s: Seq<char>, i: int)
    requires
        0 <= i <= s.len(),
    ensures
        i <= cjk_run_end(s, i) <= s.len(),
        i <= word_run_end(s, i) <= s.len(),
    decreases s.len() - i,
{
    if i < s.len() {
        lemma_run_ends(s, i + 1);
    }
}

/// Tokens of the (already lowercased) characters `s` from position `i` on:
/// a CJK run gives its bigrams (or itself when single), whitespace
/// separates, and a run of other characters gives one token made of its
/// alphanumeric characters when there is at least one.
pub open spec fn tokens_from(s: Seq<char>, i: int) -> Seq<Seq<char>>
    decreases s.len() - i,
{
    if i < 0 || i >= s.len() {
        seq![]
    } else if is_cjk_spec(s[i]) {
        let j = cjk_run_end(s, i);
        proof {
            lemma_run_ends(s, i + 1);
        }
        cjk_tokens(s.subrange(i, j)) + tokens_from(s, j)
    } else if unicode_whitespace(s[i]) {
        tokens_from(s, i + 1)
    } else {
        let j = word_run_end(s, i);
        proof {
            lemma_run_ends(s, i + 1);
        }
        let w = clean_word(s.subrange(i, j));
        (if w.len() > 0 { seq![w] } else { seq![] }) + tokens_from(s, j)
    }
}

/// The tokens of a text: those of its Unicode lowercase form.
pub open spec fn tokenize_spec(text: Seq<char>) -> Seq<Seq<char>> {
    tokens_from(unicode_lowercase(text), 0)
}

/// A text made only of ASCII characters and CJK ideographs.
pub open spec fn all_simple_case(s: Seq<char>) -> bool {
    forall|i: int| 0 <= i < s.len() ==> simple_case(#[trigger] s[i])
}

/// The lowercase form of an `all_simple_case` text.
pub open spec fn simple_lowercase(s: Seq<char>) -> Seq<char> {
    s.map_values(|c: char| simple_lower(c))
}

/// The character sequences of a list of strings.
pub open spec fn string_views(v: Seq<String>) -> Seq<Seq<char>> {
    v.map_values(|t: String| t@)
}

pub fn is_cjk(c: char) -> (b: bool)
    ensures
        b == is_cjk_spec(c),
{
    '\u{4e00}' <= c && c <= '\u{9fff}'
}

/// Tokenize text that is already lowercased (see `tokenize`).
pub fn tokenize_lowered(chars: &Vec<char>) -> (tokens: Vec<String>)
    ensures
        string_views(tokens@) == tokens_from(chars@, 0),
{
    let s = chars;
    let n = s.len();
    let mut tokens: Vec<String> = Vec::new();
    let mut i: usize = 0;
    while i < n
        invariant
            n == s@.len(),
            i <= n,
            tokens_from(s@, 0) == string_views(tokens@) + tokens_from(s@, i as int),
        decreases n - i,
    {
        let ghost out0 = string_views(tokens@);
        proof {
            lemma_run_ends(s@, i as int);
        }
        if is_cjk(s[i]) {
            let start = i;
            while i < n && is_cjk(s[i])
                invariant
                    n == s@.len(),
                    start <= i <= n,
                    cjk_run_end(s@, start as int) == cjk_run_end(s@, i as int),
                    string_views(tokens@) == out0,
                decreases n - i,
            {
                i = i + 1;
            }
            let ghost run = s@.subrange(start as int, i as int);
            assert(i > start) by {
                assert(cjk_run_end(s@, start as int) == cjk_run_end(s@, start + 1));
                lemma_run_ends(s@, start + 1);
            }
            if i - start == 1 {
                let one = string_from_chars(&[s[start]]);
                tokens.push(one);
                proof {
                    assert(one@ =~= run);
                    assert(string_views(tokens@) =~= out0 + cjk_tokens(run));
                }
            } else {
                let mut k: usize = start;
                while k + 1 < i
                    invariant
                        n == s@.len(),
                        start <= k < i <= n,
                        i - start >= 2,
                        run == s@.subrange(start as int, i as int),
                        string_views(tokens@) == out0 + cjk_tokens(run).take(k - start),
                    decreases i - k,
                {
                    let pair = string_from_chars(&[s[k], s[k + 1]]);
                    let ghost before = tokens@;
                    tokens.push(pair);
                    proof {
                        assert(string_views(tokens@) =~= string_views(before).push(pair@));
                        assert(pair@ =~= run.subrange(k - start, k - start + 2));
                        assert(cjk_tokens(run).take(k + 1 - start) =~= cjk_tokens(run).take(k - start).push(pair@));
                        assert(string_views(tokens@) =~= out0 + cjk_tokens(run).take(k + 1 - start));
                    }
                    k = k + 1;
                }
                assert(cjk_tokens(run).take(k - start) =~= cjk_tokens(run));
            }
        } else if char_is_whitespace(s[i]) {
            i = i + 1;
        } else {
            let start = i;
            let mut clean: Vec<char> = Vec::new();
            while i < n && !is_cjk(s[i]) && !char_is_whitespace(s[i])
                invariant
                    n == s@.len(),
                    start <= i <= n,
                    word_run_end(s@, start as int) == word_run_end(s@, i as int),
                    clean@ == clean_word(s@.subrange(start as int, i as int)),
                    string_views(tokens@) == out0,
                decreases n - i,
            {
                let c = s[i];
                if char_is_alphanumeric(c) {
                    clean.push(c);
                }
                proof {
                    let f = |c: char| unicode_alphanumeric(c);
                    assert(s@.subrange(start as int, i + 1) =~= s@.subrange(start as int, i as int).push(c));
                    s@.subrange(start as int, i as int).lemma_filter_push(c, f);
                }
                i = i + 1;
            }
            let ghost w = clean_word(s@.subrange(start as int, i as int));
            assert(i > start) by {
                assert(word_run_end(s@, start as int) == word_run_end(s@, start + 1));
                lemma_run_ends(s@, start + 1);
            }
            if clean.len() > 0 {
                let word = string_from_chars(clean.as_slice());
                tokens.push(word);
                proof {
                    assert(string_views(tokens@) =~= out0 + seq![w]);
                }
            } else {
                assert(string_views(tokens@) =~= out0 + Seq::<Seq<char>>::empty());
            }
        }
    }
    assert(tokens_from(s@, i as int) =~= Seq::<Seq<char>>::empty());
    assert(string_views(tokens@) + Seq::<Seq<char>>::empty() =~= string_views(tokens@));
    tokens
}

/// Tokenize text in two modes: CJK characters (U+4E00..U+9FFF) are split
/// into overlapping bigrams, other text is split on whitespace with the
/// characters that are not alphanumeric removed. Everything is lowercased
/// first.
pub fn tokenize(text: &str) -> (tokens: Vec<String>)
    ensures
        string_views(tokens@) == tokenize_spec(text@),
        all_simple_case(text@) ==> string_views(tokens@) == tokens_from(simple_lowercase(text@), 0),
{
    let lower = str_to_lowercase(text);
    let chars = chars_of(lower.as_str());
    tokenize_lowered(&chars)
}

} // verus!

verus! {

/// How many times `t` occurs in `toks`.
pub open spec fn count_token(toks: Seq<Seq<char>>, t: Seq<char>) -> nat {
    toks.filter(equals_token(t)).len()
}

/// The predicate "is the token `t`".
pub open spec fn equals_token(t: Seq<char>) -> spec_fn(Seq<char>) -> bool {
    |x: Seq<char>| x == t
}

/// The predicate "holds the token `t`".
pub open spec fn holds_token(t: Seq<char>) -> spec_fn(Seq<Seq<char>>) -> bool {
    |d: Seq<Seq<char>>| count_token(d, t) > 0
}

/// How many of the token lists contain `t`.
pub open spec fn lists_containing(lists: Seq<Seq<Seq<char>>>, t: Seq<char>) -> nat {
    lists.filter(holds_token(t)).len()
}

/// The token lists of the texts of `docs` (the second item of each pair).
pub open spec fn doc_token_lists(docs: Seq<(String, String)>) -> Seq<Seq<Seq<char>>> {
    Seq::new(docs.len(), |i: int| tokenize_spec(docs[i].1@))
}

/// The integer statistics that BM25 ranks documents by.
pub struct TermStats {
    /// Tokens of the query, repeats included, in order.
    pub query_tokens: Vec<String>,
    /// Number of tokens of each document.
    pub doc_lengths: Vec<usize>,
    /// `term_freq[i][k]`: occurrences of query token `k` in document `i`.
    pub term_freq: Vec<Vec<usize>>,
    /// `doc_freq[k]`: number of documents that contain query token `k`.
    pub doc_freq: Vec<usize>,
}

/// The statistics are those of the documents `docs` and the query `query`.
pub open spec fn stats_of(stats: TermStats, docs: Seq<(String, String)>, query: Seq<char>) -> bool {
    let q = tokenize_spec(query);
    let dts = doc_token_lists(docs);
    &&& string_views(stats.query_tokens@) == q
    &&& stats.doc_lengths@.len() == docs.len()
    &&& stats.term_freq@.len() == docs.len()
    &&& stats.doc_freq@.len() == q.len()
    &&& forall|i: int| 0 <= i < docs.len() ==> #[trigger] stats.doc_lengths@[i] == dts[i].len()
    &&& forall|i: int| 0 <= i < docs.len() ==> (#[trigger] stats.term_freq@[i])@.len() == q.len()
    &&& forall|i: int, k: int| 0 <= i < docs.len() && 0 <= k < q.len()
        ==> #[trigger] stats.term_freq@[i]@[k] == count_token(dts[i], q[k])
    &&& forall|k: int| 0 <= k < q.len() ==> #[trigger] stats.doc_freq@[k] == lists_containing(dts, q[k])
}

/// A document matches when it holds at least one query token.
pub open spec fn doc_matches(stats: TermStats, i: int) -> bool {
    exists|k: int| 0 <= k < stats.query_tokens@.len() && #[trigger] stats.term_freq@[i]@[k] > 0
}

proof fn lemma_count_token_step(toks: Seq<Seq<char>>, t: Seq<char>, j: int)
    requires
        0 <= j < toks.len(),
    ensures
        count_token(toks.take(j + 1), t) == count_token(toks.take(j), t) + if toks[j] == t { 1int } else { 0int },
        count_token(toks.take(j), t) <= j,
{
    let f = equals_token(t);
    assert(toks.take(j + 1) =~= toks.take(j).push(toks[j]));
    toks.take(j).lemma_filter_push(toks[j], f);
    toks.take(j).lemma_filter_len(f);
}

proof fn lemma_lists_containing_step(lists: Seq<Seq<Seq<char>>>, t: Seq<char>, j: int)
    requires
        0 <= j < lists.len(),
    ensures
        lists_containing(lists.take(j + 1), t) == lists_containing(lists.take(j), t)
            + if count_token(lists[j], t) > 0 { 1int } else { 0int },
        lists_containing(lists.take(j), t) <= j,
{
    let f = holds_token(t);
    assert(lists.take(j + 1) =~= lists.take(j).push(lists[j]));
    lists.take(j).lemma_filter_push(lists[j], f);
    lists.take(j).lemma_filter_len(f);
}

/// Occurrences of `t` in `toks`.
fn count_occurrences(toks: &Vec<String>, t: &String) -> (n: usize)
    ensures
        n == count_token(string_views(toks@), t@),
{
    let ghost ts = string_views(toks@);
    let mut n: usize = 0;
    let mut j: usize = 0;
    while j < toks.len()
        invariant
            ts == string_views(toks@),
            j <= toks.len(),
            n == count_token(ts.take(j as int), t@),
        decreases toks.len() - j,
    {
        proof {
            lemma_count_token_step(ts, t@, j as int);
        }
        if toks[j] == *t {
            n = n + 1;
        }
        j = j + 1;
    }
    assert(ts.take(j as int) =~= ts);
    n
}

/// Tokenize the documents and the query and count, for each document and
/// each query token, how often the token occurs; also the document lengths
/// and the document frequency of each query token.
pub fn term_stats(docs: &Vec<(String, String)>, query: &str) -> (stats: TermStats)
    ensures
        stats_of(stats, docs@, query@),
{
    let query_tokens = tokenize(query);
    let ghost q = string_views(query_tokens@);
    let ghost dts = doc_token_lists(docs@);
    let nq = query_tokens.len();
    let mut doc_lengths: Vec<usize> = Vec::new();
    let mut term_freq: Vec<Vec<usize>> = Vec::new();
    let mut i: usize = 0;
    while i < docs.len()
        invariant
            q == string_views(query_tokens@),
            q == tokenize_spec(query@),
            nq == q.len(),
            dts == doc_token_lists(docs@),
            i <= docs.len(),
            doc_lengths@.len() == i,
            term_freq@.len() == i,
            forall|a: int| 0 <= a < i ==> #[trigger] doc_lengths@[a] == dts[a].len(),
            forall|a: int| 0 <= a < i ==> (#[trigger] term_freq@[a])@.len() == nq,
            forall|a: int, k: int| 0 <= a < i && 0 <= k < nq
                ==> #[trigger] term_freq@[a]@[k] == count_token(dts[a], q[k]),
        decreases docs.len() - i,
    {
        let toks = tokenize(&docs[i].1);
        assert(string_views(toks@) == dts[i as int]);
        let mut row: Vec<usize> = Vec::new();
        let mut k: usize = 0;
        while k < nq
            invariant
                q == string_views(query_tokens@),
                nq == q.len(),
                string_views(toks@) == dts[i as int],
                k <= nq,
                row@.len() == k,
                forall|b: int| 0 <= b < k ==> #[trigger] row@[b] == count_token(dts[i as int], q[b]),
            decreases nq - k,
        {
            let c = count_occurrences(&toks, &query_tokens[k]);
            row.push(c);
            k = k + 1;
        }
        doc_lengths.push(toks.len());
        term_freq.push(row);
        i = i + 1;
    }
    let mut doc_freq: Vec<usize> = Vec::new();
    let mut k: usize = 0;
    while k < nq
        invariant
            q == string_views(query_tokens@),
            nq == q.len(),
            dts == doc_token_lists(docs@),
            term_freq@.len() == docs@.len(),
            forall|a: int| 0 <= a < docs@.len() ==> (#[trigger] term_freq@[a])@.len() == nq,
            forall|a: int, b: int| 0 <= a < docs@.len() && 0 <= b < nq
                ==> #[trigger] term_freq@[a]@[b] == count_token(dts[a], q[b]),
            k <= nq,
            doc_freq@.len() == k,
            forall|b: int| 0 <= b < k ==> #[trigger] doc_freq@[b] == lists_containing(dts, q[b]),
        decreases nq - k,
    {
        let mut cnt: usize = 0;
        let mut a: usize = 0;
        while a < docs.len()
            invariant
                dts == doc_token_lists(docs@),
                term_freq@.len() == docs@.len(),
                forall|x: int| 0 <= x < docs@.len() ==> (#[trigger] term_freq@[x])@.len() == nq,
                forall|x: int, b: int| 0 <= x < docs@.len() && 0 <= b < nq
                    ==> #[trigger] term_freq@[x]@[b] == count_token(dts[x], q[b]),
                k < nq,
                a <= docs.len(),
                cnt == lists_containing(dts.take(a as int), q[k as int]),
            decreases docs.len() - a,
        {
            proof {
                lemma_lists_containing_step(dts, q[k as int], a as int);
            }
            if term_freq[a][k] > 0 {
                cnt = cnt + 1;
            }
            a = a + 1;
        }
        assert(dts.take(a as int) =~= dts);
        doc_freq.push(cnt);
        k = k + 1;
    }
    TermStats { query_tokens, doc_lengths, term_freq, doc_freq }
}

/// Indices of the documents that hold at least one query token, in order.
/// These are exactly the documents that BM25 gives a positive score.
pub fn matching_docs(stats: &TermStats) -> (idx: Vec<usize>)
    requires
        forall|i: int| 0 <= i < stats.term_freq@.len()
            ==> (#[trigger] stats.term_freq@[i])@.len() == stats.query_tokens@.len(),
    ensures
        forall|j: int| 0 <= j < idx@.len() ==> (#[trigger] idx@[j]) < stats.term_freq@.len(),
        forall|j: int, l: int| 0 <= j < l < idx@.len() ==> #[trigger] idx@[j] < #[trigger] idx@[l],
        forall|i: int| 0 <= i < stats.term_freq@.len()
            ==> (doc_matches(*stats, i) <==> idx@.contains(i as usize)),
{
    let mut idx: Vec<usize> = Vec::new();
    let mut i: usize = 0;
    let nq = stats.query_tokens.len();
    while i < stats.term_freq.len()
        invariant
            nq == stats.query_tokens@.len(),
            i <= stats.term_freq@.len(),
            forall|x: int| 0 <= x < stats.term_freq@.len()
                ==> (#[trigger] stats.term_freq@[x])@.len() == nq,
            forall|j: int| 0 <= j < idx@.len() ==> (#[trigger] idx@[j]) < i,
            forall|j: int, l: int| 0 <= j < l < idx@.len() ==> #[trigger] idx@[j] < #[trigger] idx@[l],
            forall|x: int| 0 <= x < i ==> (doc_matches(*stats, x) <==> idx@.contains(x as usize)),
        decreases stats.term_freq@.len() - i,
    {
        let mut found = false;
        let mut k: usize = 0;
        while k < nq
            invariant
                nq == stats.query_tokens@.len(),
                i < stats.term_freq@.len(),
                stats.term_freq@[i as int]@.len() == nq,
                k <= nq,
                found <==> exists|b: int| 0 <= b < k && #[trigger] stats.term_freq@[i as int]@[b] > 0,
            decreases nq - k,
        {
            if stats.term_freq[i][k] > 0 {
                found = true;
            }
            k = k + 1;
        }
        let ghost before = idx@;
        if found {
            idx.push(i);
            proof {
                assert forall|x: int| 0 <= x < i implies (#[trigger] idx@.contains(x as usize) <==> before.contains(x as usize)) by {
                    if idx@.contains(x as usize) {
                        let j = choose|j: int| 0 <= j < idx@.len() && idx@[j] == x as usize;
                        if j < before.len() {
                            assert(before[j] == idx@[j]);
                        }
                    }
                    if before.contains(x as usize) {
                        let j = choose|j: int| 0 <= j < before.len() && before[j] == x as usize;
                        assert(idx@[j] == before[j]);
                    }
                }
                assert(idx@[before.len() as int] == i);
            }
        } else {
            assert(!idx@.contains(i));
        }
        i = i + 1;
    }
    idx
}

} // verus!

verus! {

/// Every token of a text is non-empty.
pub proof fn lemma_tokens_nonempty(s: Seq<char>, i: int)
    ensures
        forall|k: int| 0 <= k < tokens_from(s, i).len() ==> (#[trigger] tokens_from(s, i)[k]).len() > 0,
    decreases s.len() - i,
{
    if 0 <= i < s.len() {
        let t = tokens_from(s, i);
        if is_cjk_spec(s[i]) {
            let j = cjk_run_end(s, i);
            lemma_run_ends(s, i + 1);
            lemma_tokens_nonempty(s, j);
            let run = s.subrange(i, j);
            let c = cjk_tokens(run);
            assert(j == cjk_run_end(s, i + 1));
            assert(run.len() >= 1);
            assert forall|k: int| 0 <= k < t.len() implies (#[trigger] t[k]).len() > 0 by {
                if k < c.len() {
                    assert(t[k] == c[k]);
                    if run.len() != 1 {
                        assert(c[k] == run.subrange(k, k + 2));
                    }
                } else {
                    assert(t[k] == tokens_from(s, j)[k - c.len()]);
                }
            }
        } else if unicode_whitespace(s[i]) {
            lemma_tokens_nonempty(s, i + 1);
            assert forall|k: int| 0 <= k < t.len() implies (#[trigger] t[k]).len() > 0 by {
                assert(t[k] == tokens_from(s, i + 1)[k]);
            }
        } else {
            let j = word_run_end(s, i);
            lemma_run_ends(s, i + 1);
            lemma_tokens_nonempty(s, j);
            let w = clean_word(s.subrange(i, j));
            let h: Seq<Seq<char>> = if w.len() > 0 { seq![w] } else { seq![] };
            assert forall|k: int| 0 <= k < t.len() implies (#[trigger] t[k]).len() > 0 by {
                if k < h.len() {
                    assert(t[k] == h[k]);
                } else {
                    assert(t[k] == tokens_from(s, j)[k - h.len()]);
                }
            }
        }
    }
}

/// Text made only of whitespace characters has no tokens.
pub proof fn lemma_whitespace_no_tokens(s: Seq<char>, i: int)
    requires
        forall|k: int| 0 <= k < s.len() ==> unicode_whitespace(#[trigger] s[k]),
    ensures
        tokens_from(s, i).len() == 0,
    decreases s.len() - i,
{
    if 0 <= i < s.len() {
        assert(unicode_whitespace(s[i]));
        lemma_whitespace_no_tokens(s, i + 1);
    }
}

/// A run of two or more CJK characters gives one bigram per neighbouring
/// pair.
pub proof fn lemma_cjk_bigrams(s: Seq<char>)
    requires
        s.len() >= 2,
        forall|k: int| 0 <= k < s.len() ==> is_cjk_spec(#[trigger] s[k]),
    ensures
        tokens_from(s, 0).len() == s.len() - 1,
        forall|k: int| 0 <= k < s.len() - 1 ==> #[trigger] tokens_from(s, 0)[k] == seq![s[k], s[k + 1]],
{
    assert forall|i: int| 0 <= i <= s.len() implies #[trigger] cjk_run_end(s, i) == s.len() by {
        lemma_cjk_run_to_end(s, i);
    }
    assert(cjk_run_end(s, 0) == s.len());
    assert(s.subrange(0, s.len() as int) =~= s);
    assert(tokens_from(s, s.len() as int) =~= Seq::<Seq<char>>::empty());
    let t = tokens_from(s, 0);
    assert(t =~= cjk_tokens(s));
    assert forall|k: int| 0 <= k < s.len() - 1 implies #[trigger] tokens_from(s, 0)[k] == seq![s[k], s[k + 1]] by {
        assert(s.subrange(k, k + 2) =~= seq![s[k], s[k + 1]]);
    }
}

proof fn lemma_cjk_run_to_end(s: Seq<char>, i: int)
    requires
        0 <= i <= s.len(),
        forall|k: int| 0 <= k < s.len() ==> is_cjk_spec(#[trigger] s[k]),
    ensures
        cjk_run_end(s, i) == s.len(),
    decreases s.len() - i,
{
    if i < s.len() {
        lemma_cjk_run_to_end(s, i + 1);
    }
}

/// A document that holds a query token counts toward that token's
/// document frequency, and no frequency exceeds the number of documents:
/// for a token some document holds, 1 <= df <= n, the range the inverse
/// document frequency is computed on.
pub proof fn lemma_doc_freq_range(stats: TermStats, docs: Seq<(String, String)>, query: Seq<char>, i: int, k: int)
    requires
        stats_of(stats, docs, query),
        0 <= k < stats.query_tokens@.len(),
    ensures
        stats.doc_freq@[k] <= docs.len(),
        0 <= i < docs.len() && stats.term_freq@[i]@[k] > 0 ==> stats.doc_freq@[k] >= 1,
{
    let q = tokenize_spec(query);
    let dts = doc_token_lists(docs);
    assert(string_views(stats.query_tokens@).len() == stats.query_tokens@.len());
    dts.lemma_filter_len(holds_token(q[k]));
    if 0 <= i < docs.len() && stats.term_freq@[i]@[k] > 0 {
        assert(holds_token(q[k])(dts[i]));
        dts.lemma_filter_contains(holds_token(q[k]), i);
    }
}

/// With no query tokens no document matches.
pub proof fn lemma_empty_query_matches_nothing(stats: TermStats, i: int)
    requires
        stats.query_tokens@.len() == 0,
    ensures
        !doc_matches(stats, i),
{
}

/// Run ends in a text that starts with `x` followed by a whitespace
/// character are those in `x` alone.
proof fn lemma_runs_before_space(s: Seq<char>, x: Seq<char>, i: int)
    requires
        x.len() < s.len(),
        forall|k: int| 0 <= k < x.len() ==> s[k] == x[k],
        unicode_whitespace(s[x.len() as int]),
        0 <= i <= x.len(),
    ensures
        cjk_run_end(s, i) == cjk_run_end(x, i),
        word_run_end(s, i) == word_run_end(x, i),
    decreases x.len() - i,
{
    if i < x.len() {
        lemma_runs_before_space(s, x, i + 1);
        assert(s[i] == x[i]);
    }
}

/// The tokens of a text that starts with `x` followed by a whitespace
/// character: those of `x`, then those after the whitespace.
proof fn lemma_tokens_before_space(s: Seq<char>, x: Seq<char>, i: int)
    requires
        x.len() < s.len(),
        forall|k: int| 0 <= k < x.len() ==> s[k] == x[k],
        unicode_whitespace(s[x.len() as int]),
        0 <= i <= x.len(),
    ensures
        tokens_from(s, i) == tokens_from(x, i) + tokens_from(s, x.len() as int),
    decreases x.len() - i,
{
    let n = x.len() as int;
    if i == n {
        assert(tokens_from(x, i) =~= Seq::<Seq<char>>::empty());
        assert(tokens_from(s, i) =~= tokens_from(x, i) + tokens_from(s, n));
    } else {
        assert(s[i] == x[i]);
        lemma_runs_before_space(s, x, i);
        lemma_run_ends(x, i + 1);
        lemma_run_ends(s, i + 1);
        if is_cjk_spec(x[i]) {
            let j = cjk_run_end(x, i);
            assert(j == cjk_run_end(x, i + 1));
            lemma_tokens_before_space(s, x, j);
            assert(s.subrange(i, j) =~= x.subrange(i, j));
            assert(tokens_from(s, i) =~= tokens_from(x, i) + tokens_from(s, n));
        } else if unicode_whitespace(x[i]) {
            lemma_tokens_before_space(s, x, i + 1);
            assert(tokens_from(s, i) =~= tokens_from(x, i) + tokens_from(s, n));
        } else {
            let j = word_run_end(x, i);
            assert(j == word_run_end(x, i + 1));
            lemma_tokens_before_space(s, x, j);
            assert(s.subrange(i, j) =~= x.subrange(i, j));
            assert(tokens_from(s, i) =~= tokens_from(x, i) + tokens_from(s, n));
        }
    }
}

/// Run ends in `p + y` past `p` are those in `y`, moved by `p`'s length.
proof fn lemma_runs_shift(p: Seq<char>, y: Seq<char>, j: int)
    requires
        0 <= j <= y.len(),
    ensures
        cjk_run_end(p + y, p.len() + j) == p.len() + cjk_run_end(y, j),
        word_run_end(p + y, p.len() + j) == p.len() + word_run_end(y, j),
    decreases y.len() - j,
{
    if j < y.len() {
        lemma_runs_shift(p, y, j + 1);
        assert((p + y)[p.len() + j] == y[j]);
    }
}

/// The tokens of `p + y` past `p` are those of `y`.
proof fn lemma_tokens_shift(p: Seq<char>, y: Seq<char>, j: int)
    requires
        0 <= j <= y.len(),
    ensures
        tokens_from(p + y, p.len() + j) == tokens_from(y, j),
    decreases y.len() - j,
{
    let s = p + y;
    let m = p.len() as int;
    if j < y.len() {
        assert(s[m + j] == y[j]);
        lemma_runs_shift(p, y, j);
        lemma_run_ends(y, j + 1);
        if is_cjk_spec(y[j]) {
            let k = cjk_run_end(y, j);
            assert(k == cjk_run_end(y, j + 1));
            lemma_tokens_shift(p, y, k);
            assert(s.subrange(m + j, m + k) =~= y.subrange(j, k));
        } else if unicode_whitespace(y[j]) {
            lemma_tokens_shift(p, y, j + 1);
        } else {
            let k = word_run_end(y, j);
            assert(k == word_run_end(y, j + 1));
            lemma_tokens_shift(p, y, k);
            assert(s.subrange(m + j, m + k) =~= y.subrange(j, k));
        }
    }
}

/// Joining two (lowercased) texts with a whitespace character never merges
/// or splits tokens: the tokens of the joined text are those of the first
/// followed by those of the second.
pub proof fn lemma_tokens_of_joined(x: Seq<char>, w: char, y: Seq<char>)
    requires
        unicode_whitespace(w),
    ensures
        tokens_from(x + seq![w] + y, 0) == tokens_from(x, 0) + tokens_from(y, 0),
{
    let p = x + seq![w];
    let s = p + y;
    let n = x.len() as int;
    assert(s[n] == w);
    assert forall|k: int| 0 <= k < x.len() implies s[k] == x[k] by {
        assert(s[k] == p[k]);
    }
    lemma_tokens_before_space(s, x, 0);
    lemma_tokens_shift(p, y, 0);
    assert(tokens_from(s, n) == tokens_from(s, n + 1));
}

/// Tokenizing two texts of ASCII characters and CJK ideographs joined by
/// an ASCII whitespace character gives the tokens of the first followed by
/// those of the second (what `tokenize` returns on such texts, by its
/// contract).
pub proof fn lemma_tokenize_joined(a: Seq<char>, w: char, b: Seq<char>)
    requires
        all_simple_case(a),
        all_simple_case(b),
        w <= '\u{7f}',
        unicode_whitespace(w),
    ensures
        all_simple_case(a + seq![w] + b),
        tokens_from(simple_lowercase(a + seq![w] + b), 0)
            == tokens_from(simple_lowercase(a), 0) + tokens_from(simple_lowercase(b), 0),
{
    let j = a + seq![w] + b;
    assert forall|i: int| 0 <= i < j.len() implies simple_case(#[trigger] j[i]) by {
        if i < a.len() {
            assert(j[i] == a[i]);
        } else if i == a.len() {
            assert(j[i] == w);
        } else {
            assert(j[i] == b[i - a.len() - 1]);
        }
    }
    assert(simple_lower(w) == w);
    assert(simple_lowercase(j) =~= simple_lowercase(a) + seq![w] + simple_lowercase(b));
    lemma_tokens_of_joined(simple_lowercase(a), w, simple_lowercase(b));
}

} // verus!
