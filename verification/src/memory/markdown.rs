//! Markdown-file-backed memory: file naming rules, the append format,
//! and the paragraphs that search runs over.

use vstd::prelude::*;
use crate::text::{chars_of, string_from_chars, sub_chars, trim_spec, trim_chars};
use crate::sorting::{sort_by_name, sort_by_name_exec};
use crate::memory::bm25::string_views;

verus! {

/// The characters of `MEMORY.md`.
pub open spec fn memory_md() -> Seq<char> {
    seq!['M', 'E', 'M', 'O', 'R', 'Y', '.', 'm', 'd']
}

pub open spec fn is_ascii_digit_spec(c: char) -> bool {
    '0' <= c <= '9'
}

/// `YYYY-MM-DD.md`: four digits, a dash, two digits, a dash, two digits, `.md`.
pub open spec fn is_dated_file_name(s: Seq<char>) -> bool {
    &&& s.len() == 13
    &&& is_ascii_digit_spec(s[0]) && is_ascii_digit_spec(s[1])
    &&& is_ascii_digit_spec(s[2]) && is_ascii_digit_spec(s[3])
    &&& s[4] == '-'
    &&& is_ascii_digit_spec(s[5]) && is_ascii_digit_spec(s[6])
    &&& s[7] == '-'
    &&& is_ascii_digit_spec(s[8]) && is_ascii_digit_spec(s[9])
    &&& s[10] == '.' && s[11] == 'm' && s[12] == 'd'
}

/// The memory file names that may be written: `MEMORY.md` or `YYYY-MM-DD.md`.
pub open spec fn valid_memory_filename(s: Seq<char>) -> bool {
    s == memory_md() || is_dated_file_name(s)
}

/// Whether `name` is `MEMORY.md` or of the form `YYYY-MM-DD.md`.
pub fn is_valid_memory_filename(name: &str) -> (ok: bool)
    ensures
        ok == valid_memory_filename(name@),
{
    let s = chars_of(name);
    if s.len() == 9 {
        let m = s[0] == 'M' && s[1] == 'E' && s[2] == 'M' && s[3] == 'O' && s[4] == 'R' && s[5] == 'Y'
            && s[6] == '.' && s[7] == 'm' && s[8] == 'd';
        proof {
            if m {
                assert(name@ =~= memory_md());
            } else {
                assert(name@ != memory_md()) by {
                    if name@ == memory_md() {
                        assert(name@[0] == 'M');
                    }
                }
            }
        }
        return m;
    }
    if s.len() != 13 {
        assert(name@.len() != memory_md().len());
        return false;
    }
    assert(name@.len() != memory_md().len());
    let d = |c: char| -> (b: bool)
        ensures b == is_ascii_digit_spec(c),
    { '0' <= c && c <= '9' };
    d(s[0]) && d(s[1]) && d(s[2]) && d(s[3]) && s[4] == '-' && d(s[5]) && d(s[6]) && s[7] == '-'
        && d(s[8]) && d(s[9]) && s[10] == '.' && s[11] == 'm' && s[12] == 'd'
}

/// A file name whose extension is `md`: it ends in `.md` and holds something
/// before that suffix (a name `.md` alone has no extension).
pub open spec fn is_markdown_file_name_spec(s: Seq<char>) -> bool {
    s.len() > 3 && s[s.len() - 3] == '.' && s[s.len() - 2] == 'm' && s[s.len() - 1] == 'd'
}

/// Whether a directory entry's file name has the `md` extension.
pub fn is_markdown_file_name(name: &str) -> (ok: bool)
    ensures
        ok == is_markdown_file_name_spec(name@),
{
    let s = chars_of(name);
    let n = s.len();
    n > 3 && s[n - 3] == '.' && s[n - 2] == 'm' && s[n - 1] == 'd'
}

} // verus!

verus! {

/// A paragraph break `\n\n` starts at `i`.
pub open spec fn blank_at(s: Seq<char>, i: int) -> bool {
    0 <= i && i + 1 < s.len() && s[i] == '\n' && s[i + 1] == '\n'
}

/// The first paragraph break at or after `i` (`s.len()` when there is none).
pub open spec fn next_break(s: Seq<char>, i: int) -> int
    decreases s.len() - i,
{
    if i < 0 || i + 1 >= s.len() {
        s.len() as int
    } else if blank_at(s, i) {
        i
    } else {
        next_break(s, i + 1)
    }
}

pub proof fn lemma_next_break(s: Seq<char>, i: int)
    requires
        0 <= i <= s.len(),
    ensures
        i <= next_break(s, i) <= s.len(),
        next_break(s, i) < s.len() ==> blank_at(s, next_break(s, i)),
    decreases s.len() - i,
{
    if i + 1 < s.len() && !blank_at(s, i) {
        lemma_next_break(s, i + 1);
    }
}

/// The paragraphs of `s` from position `i` on: the pieces between `\n\n`
/// breaks (found left to right), each trimmed, the empty ones left out.
pub open spec fn paragraphs_from(s: Seq<char>, i: int) -> Seq<Seq<char>>
    decreases s.len() + 2 - i,
{
    if i < 0 || i > s.len() {
        seq![]
    } else {
        let j = next_break(s, i);
        proof {
            lemma_next_break(s, i);
        }
        let p = trim_spec(s.subrange(i, j));
        let head = if p.len() > 0 { seq![p] } else { seq![] };
        if j >= s.len() {
            head
        } else {
            head + paragraphs_from(s, j + 2)
        }
    }
}

/// The paragraphs of a text.
pub open spec fn paragraphs(s: Seq<char>) -> Seq<Seq<char>> {
    paragraphs_from(s, 0)
}

/// Split text into paragraphs at double newlines; each paragraph is trimmed
/// and empty ones are dropped.
pub fn split_paragraphs(text: &str) -> (paras: Vec<String>)
    ensures
        string_views(paras@) == paragraphs(text@),
{
    let s = chars_of(text);
    let n = s.len();
    let mut out: Vec<String> = Vec::new();
    let mut start: usize = 0;
    let mut i: usize = 0;
    while n > 1 && i < n - 1
        invariant
            n == s@.len(),
            s@ == text@,
            start <= i <= n,
            paragraphs(s@) == string_views(out@) + paragraphs_from(s@, start as int),
            next_break(s@, start as int) == next_break(s@, i as int),
        decreases n - i,
    {
        if s[i] == '\n' && s[i + 1] == '\n' {
            let ghost before = out@;
            let piece = sub_chars(&s, start, i);
            let t = trim_chars(&piece);
            proof {
                lemma_next_break(s@, start as int);
            }
            if t.len() > 0 {
                let p = string_from_chars(t.as_slice());
                out.push(p);
                proof {
                    assert(string_views(out@) =~= string_views(before).push(t@));
                }
            }
            proof {
                let v = string_views(before);
                if t@.len() > 0 {
                    assert(v + paragraphs_from(s@, start as int) =~= v.push(t@) + paragraphs_from(s@, i + 2));
                } else {
                    assert(v + paragraphs_from(s@, start as int) =~= v + paragraphs_from(s@, i + 2));
                }
            }
            start = i + 2;
            i = i + 2;
        } else {
            i = i + 1;
        }
    }
    let ghost before = out@;
    proof {
        lemma_next_break(s@, start as int);
        assert(next_break(s@, i as int) == n);
    }
    let piece = sub_chars(&s, start, n);
    let t = trim_chars(&piece);
    if t.len() > 0 {
        let p = string_from_chars(t.as_slice());
        out.push(p);
        proof {
            assert(string_views(out@) =~= string_views(before).push(t@));
            assert(paragraphs(s@) =~= string_views(out@));
        }
    } else {
        assert(paragraphs(s@) =~= string_views(out@));
    }
    out
}

} // verus!

verus! {

/// What goes between the existing file content and a new entry: nothing
/// when the file is empty or already ends in a blank line, one newline when
/// it ends in a single newline, a blank line otherwise.
pub open spec fn entry_separator(existing: Seq<char>) -> Seq<char> {
    let n = existing.len();
    if n == 0 || (n >= 2 && existing[n - 2] == '\n' && existing[n - 1] == '\n') {
        seq![]
    } else if existing[n - 1] == '\n' {
        seq!['\n']
    } else {
        seq!['\n', '\n']
    }
}

/// The file content after appending `content` as a new entry.
pub open spec fn appended_spec(existing: Seq<char>, content: Seq<char>) -> Seq<char> {
    existing + entry_separator(existing) + content + seq!['\n']
}

/// The new content of a memory file when `content` is appended to
/// `existing`: entries are separated by a blank line and end with a newline.
pub fn appended_content(existing: &str, content: &str) -> (r: String)
    ensures
        r@ == appended_spec(existing@, content@),
{
    let mut v = chars_of(existing);
    let c = chars_of(content);
    let n = v.len();
    if n == 0 || (n >= 2 && v[n - 2] == '\n' && v[n - 1] == '\n') {
    } else if v[n - 1] == '\n' {
        v.push('\n');
    } else {
        v.push('\n');
        v.push('\n');
    }
    let ghost head = v@;
    assert(head == existing@ + entry_separator(existing@));
    let mut k: usize = 0;
    while k < c.len()
        invariant
            k <= c@.len(),
            v@ == head + c@.take(k as int),
        decreases c.len() - k,
    {
        v.push(c[k]);
        k = k + 1;
        assert(v@ =~= head + c@.take(k as int));
    }
    v.push('\n');
    assert(c@.take(k as int) =~= c@);
    assert(v@ =~= appended_spec(existing@, content@));
    string_from_chars(v.as_slice())
}

} // verus!

verus! {

/// The (file name, paragraph) pairs of a list of files, file by file, in
/// order, paragraphs in order.
pub open spec fn docs_of_files(files: Seq<(String, String)>) -> Seq<(Seq<char>, Seq<char>)>
    decreases files.len(),
{
    if files.len() == 0 {
        seq![]
    } else {
        let f = files.last();
        docs_of_files(files.drop_last()) + paragraphs(f.1@).map_values(|p: Seq<char>| (f.0@, p))
    }
}

/// The character sequences of a list of string pairs.
pub open spec fn pair_views(v: Seq<(String, String)>) -> Seq<(Seq<char>, Seq<char>)> {
    v.map_values(|d: (String, String)| (d.0@, d.1@))
}

/// The markdown files of a directory listing (by the `md` extension).
pub open spec fn markdown_files(files: Seq<(String, String)>) -> Seq<(String, String)> {
    files.filter(|f: (String, String)| is_markdown_file_name_spec(f.0@))
}

/// Every paragraph of every file, tagged with its file name.
pub fn paragraph_docs(files: &Vec<(String, String)>) -> (docs: Vec<(String, String)>)
    ensures
        pair_views(docs@) == docs_of_files(files@),
{
    let mut docs: Vec<(String, String)> = Vec::new();
    let mut i: usize = 0;
    while i < files.len()
        invariant
            i <= files@.len(),
            pair_views(docs@) == docs_of_files(files@.take(i as int)),
        decreases files.len() - i,
    {
        let paras = split_paragraphs(files[i].1.as_str());
        let ghost base = pair_views(docs@);
        let ghost name = files@[i as int].0@;
        let ghost ps = paragraphs(files@[i as int].1@);
        let mut k: usize = 0;
        while k < paras.len()
            invariant
                i < files@.len(),
                name == files@[i as int].0@,
                ps == paragraphs(files@[i as int].1@),
                string_views(paras@) == ps,
                k <= paras@.len(),
                pair_views(docs@) == base + ps.take(k as int).map_values(|p: Seq<char>| (name, p)),
            decreases paras.len() - k,
        {
            let name_copy = files[i].0.clone();
            let para_copy = paras[k].clone();
            let ghost before = docs@;
            docs.push((name_copy, para_copy));
            proof {
                assert(string_views(paras@)[k as int] == paras@[k as int]@);
                assert(pair_views(docs@) =~= pair_views(before).push((name, ps[k as int])));
                assert(ps.take(k + 1).map_values(|p: Seq<char>| (name, p))
                    =~= ps.take(k as int).map_values(|p: Seq<char>| (name, p)).push((name, ps[k as int])));
            }
            k = k + 1;
        }
        proof {
            assert(ps.take(k as int) =~= ps);
            assert(files@.take(i + 1).drop_last() =~= files@.take(i as int));
            assert(files@.take(i + 1).last() == files@[i as int]);
        }
        i = i + 1;
    }
    assert(files@.take(i as int) =~= files@);
    docs
}

/// Keep the entries whose file name has the `md` extension.
pub fn keep_markdown_files(files: Vec<(String, String)>) -> (kept: Vec<(String, String)>)
    ensures
        kept@ == markdown_files(files@),
{
    let ghost input = files@;
    let mut files = files;
    let mut kept: Vec<(String, String)> = Vec::new();
    assert(input.skip(0) =~= input);
    while files.len() > 0
        invariant
            files@.len() <= input.len(),
            files@ == input.skip(input.len() - files@.len()),
            kept@ == markdown_files(input.take(input.len() - files@.len())),
        decreases files.len(),
    {
        let ghost m = input.len() - files@.len();
        let x = files.remove(0);
        proof {
            assert(input.skip(m)[0] == x);
            assert(input.take(m + 1) =~= input.take(m).push(x));
            assert(files@ =~= input.skip(m + 1));
            input.take(m).lemma_filter_push(x, |f: (String, String)| is_markdown_file_name_spec(f.0@));
        }
        if is_markdown_file_name(x.0.as_str()) {
            kept.push(x);
        }
    }
    assert(input.take(input.len() as int) =~= input);
    kept
}

/// Markdown-file-backed memory kept in a directory.
///
/// Files are `MEMORY.md` and `YYYY-MM-DD.md`; search runs over the
/// paragraphs of every `*.md` file of the directory.
pub struct MarkdownMemory {
    dir: String,
}

impl MarkdownMemory {
    /// The directory the memory files live in.
    pub closed spec fn dir_spec(&self) -> Seq<char> {
        self.dir@
    }

    pub fn new(dir: String) -> (m: Self)
        ensures
            m.dir_spec() == dir@,
    {
        MarkdownMemory { dir }
    }

    /// The directory the memory files live in.
    pub fn dir(&self) -> (d: &String)
        ensures
            d@ == self.dir_spec(),
    {
        &self.dir
    }

    /// Check that `file` may be written: it must be `MEMORY.md` or
    /// `YYYY-MM-DD.md`, otherwise the error names the file.
    pub fn check_file(&self, file: &str) -> (r: Result<(), crate::error::AgentCorpError>)
        ensures
            r is Ok <==> valid_memory_filename(file@),
            r matches Err(e) ==> (e matches crate::error::AgentCorpError::Agent { message }
                && message@ == crate::text::concat_spec("invalid memory filename: "@, file@)),
    {
        if is_valid_memory_filename(file) {
            Ok(())
        } else {
            Err(crate::error::AgentCorpError::Agent {
                message: crate::text::concat("invalid memory filename: ", file),
            })
        }
    }

    /// The content a write leaves in `file`, given what the file held
    /// before (empty when it did not exist): the entry is appended after a
    /// blank line. Fails, as `check_file` does, for a name that may not be
    /// written.
    pub fn written_content(&self, file: &str, existing: &str, content: &str) -> (r: Result<String, crate::error::AgentCorpError>)
        ensures
            r is Ok <==> valid_memory_filename(file@),
            r matches Ok(s) ==> s@ == appended_spec(existing@, content@),
            r matches Err(e) ==> (e matches crate::error::AgentCorpError::Agent { message }
                && message@ == crate::text::concat_spec("invalid memory filename: "@, file@)),
    {
        match self.check_file(file) {
            Ok(()) => Ok(appended_content(existing, content)),
            Err(e) => Err(e),
        }
    }

    /// The (file name, paragraph) pairs that search runs over, from the
    /// directory's entries as (file name, content) pairs in any order: the
    /// `*.md` files, sorted by name, each split into paragraphs.
    pub fn collect_paragraphs(&self, entries: Vec<(String, String)>) -> (docs: Vec<(String, String)>)
        ensures
            pair_views(docs@) == docs_of_files(sort_by_name(markdown_files(entries@))),
    {
        let md = keep_markdown_files(entries);
        let sorted = sort_by_name_exec(md);
        paragraph_docs(&sorted)
    }
}

} // verus!

verus! {

/// A writable memory file name never leaves the memory directory: it holds
/// no path separator and is not a parent reference.
pub proof fn lemma_valid_filename_stays_in_dir(s: Seq<char>)
    requires
        valid_memory_filename(s),
    ensures
        forall|i: int| 0 <= i < s.len() ==> s[i] != '/' && s[i] != '\\',
        s[0] != '.',
{
    if s == memory_md() {
        assert forall|i: int| 0 <= i < s.len() implies s[i] != '/' && s[i] != '\\' by {}
    } else {
        assert forall|i: int| 0 <= i < s.len() implies s[i] != '/' && s[i] != '\\' by {
            assert(0 <= i < 13);
        }
    }
}

/// Appending keeps what the file held as its beginning, the new entry
/// occurs in the result, and the result ends with a newline.
pub proof fn lemma_append_keeps(existing: Seq<char>, content: Seq<char>)
    ensures
        appended_spec(existing, content).take(existing.len() as int) == existing,
        crate::text::contains_spec(appended_spec(existing, content), content),
        appended_spec(existing, content).last() == '\n',
{
    let r = appended_spec(existing, content);
    let start = (existing.len() + entry_separator(existing).len()) as int;
    assert(r.take(existing.len() as int) =~= existing);
    assert(r.subrange(start, start + content.len()) =~= content);
    assert(crate::text::occurs_at(r, content, start));
}

/// Every paragraph is non-empty.
pub proof fn lemma_paragraphs_nonempty(s: Seq<char>, i: int)
    ensures
        forall|k: int| 0 <= k < paragraphs_from(s, i).len() ==> (#[trigger] paragraphs_from(s, i)[k]).len() > 0,
    decreases s.len() + 2 - i,
{
    if 0 <= i <= s.len() {
        let j = next_break(s, i);
        lemma_next_break(s, i);
        let p = trim_spec(s.subrange(i, j));
        let head: Seq<Seq<char>> = if p.len() > 0 { seq![p] } else { seq![] };
        let t = paragraphs_from(s, i);
        if j < s.len() {
            lemma_paragraphs_nonempty(s, j + 2);
            assert forall|k: int| 0 <= k < t.len() implies (#[trigger] t[k]).len() > 0 by {
                if k < head.len() {
                    assert(t[k] == head[k]);
                } else {
                    assert(t[k] == paragraphs_from(s, j + 2)[k - head.len()]);
                }
            }
        } else {
            assert forall|k: int| 0 <= k < t.len() implies (#[trigger] t[k]).len() > 0 by {
                assert(t[k] == head[k]);
            }
        }
    }
}

} // verus!

verus! {

proof fn lemma_next_break_clear(s: Seq<char>, i: int)
    requires
        0 <= i <= s.len(),
    ensures
        forall|k: int| i <= k < next_break(s, i) ==> !blank_at(s, k),
    decreases s.len() - i,
{
    if i + 1 < s.len() && !blank_at(s, i) {
        lemma_next_break_clear(s, i + 1);
    }
}

/// No paragraph holds a blank line (`\n\n`): the text is split at every one.
pub proof fn lemma_paragraphs_have_no_break(s: Seq<char>, i: int)
    ensures
        forall|k: int, m: int| 0 <= k < paragraphs_from(s, i).len() && 0 <= m
            && m + 1 < paragraphs_from(s, i)[k].len()
            ==> !(#[trigger] paragraphs_from(s, i)[k][m] == '\n' && paragraphs_from(s, i)[k][m + 1] == '\n'),
    decreases s.len() + 2 - i,
{
    if 0 <= i <= s.len() {
        let j = next_break(s, i);
        lemma_next_break(s, i);
        lemma_next_break_clear(s, i);
        let piece = s.subrange(i, j);
        let p = trim_spec(piece);
        crate::text::lemma_trim_is_subrange(piece);
        let (a, b) = choose|a: int, b: int| 0 <= a <= b <= piece.len() && #[trigger] piece.subrange(a, b) == trim_spec(piece);
        assert forall|m: int| 0 <= m && m + 1 < p.len() implies !(#[trigger] p[m] == '\n' && p[m + 1] == '\n') by {
            assert(p[m] == s[i + a + m]);
            assert(p[m + 1] == s[i + a + m + 1]);
            assert(!blank_at(s, i + a + m));
        }
        let head: Seq<Seq<char>> = if p.len() > 0 { seq![p] } else { seq![] };
        let t = paragraphs_from(s, i);
        if j < s.len() {
            lemma_paragraphs_have_no_break(s, j + 2);
            assert forall|k: int, m: int| 0 <= k < t.len() && 0 <= m && m + 1 < t[k].len()
                implies !(#[trigger] t[k][m] == '\n' && t[k][m + 1] == '\n') by {
                if k < head.len() {
                    assert(t[k] == p);
                } else {
                    assert(t[k] == paragraphs_from(s, j + 2)[k - head.len()]);
                }
            }
        } else {
            assert forall|k: int, m: int| 0 <= k < t.len() && 0 <= m && m + 1 < t[k].len()
                implies !(#[trigger] t[k][m] == '\n' && t[k][m + 1] == '\n') by {
                assert(t[k] == p);
            }
        }
    }
}

} // verus!
