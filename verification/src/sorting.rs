//! Sorting (name, value) pairs by name in lexicographic order.

use vstd::prelude::*;
use crate::text::{lex_le, str_le, lemma_lex_total, lemma_lex_trans};

verus! {

/// Where an entry named `name` goes in a list sorted by name: before the
/// first entry whose name is strictly greater (after equal names).
pub open spec fn insert_pos<V>(name: Seq<char>, s: Seq<(String, V)>) -> int
    decreases s.len(),
{
    if s.len() == 0 {
        0
    } else if !lex_le(s[0].0@, name) {
        0
    } else {
        1 + insert_pos(name, s.drop_first())
    }
}

/// Stable sort of (name, value) pairs by name.
pub open spec fn sort_by_name<V>(s: Seq<(String, V)>) -> Seq<(String, V)>
    decreases s.len(),
{
    if s.len() == 0 {
        s
    } else {
        let r = sort_by_name(s.drop_last());
        r.insert(insert_pos(s.last().0@, r), s.last())
    }
}

/// Names are in lexicographic order.
pub open spec fn sorted_by_name<V>(s: Seq<(String, V)>) -> bool {
    forall|i: int, j: int| 0 <= i < j < s.len() ==> lex_le(#[trigger] s[i].0@, #[trigger] s[j].0@)
}

proof fn lemma_insert_pos<V>(name: Seq<char>, s: Seq<(String, V)>)
    ensures
        0 <= insert_pos(name, s) <= s.len(),
        forall|i: int| 0 <= i < insert_pos(name, s) ==> lex_le(#[trigger] s[i].0@, name),
        insert_pos(name, s) < s.len() ==> !lex_le(s[insert_pos(name, s)].0@, name),
    decreases s.len(),
{
    if s.len() > 0 && lex_le(s[0].0@, name) {
        lemma_insert_pos(name, s.drop_first());
        assert forall|i: int| 0 <= i < insert_pos(name, s) implies lex_le(#[trigger] s[i].0@, name) by {
            if i > 0 {
                assert(s[i] == s.drop_first()[i - 1]);
            }
        }
    }
}

proof fn lemma_insert_sorted<V>(x: (String, V), r: Seq<(String, V)>)
    requires
        sorted_by_name(r),
    ensures
        sorted_by_name(r.insert(insert_pos(x.0@, r), x)),
{
    let k = insert_pos(x.0@, r);
    lemma_insert_pos(x.0@, r);
    let t = r.insert(k, x);
    assert forall|i: int, j: int| 0 <= i < j < t.len() implies lex_le(#[trigger] t[i].0@, #[trigger] t[j].0@) by {
        if j < k {
            assert(t[i] == r[i] && t[j] == r[j]);
        } else if j == k {
            assert(t[i] == r[i]);
        } else if i == k {
            assert(t[j] == r[j - 1]);
            lemma_lex_total(r[k].0@, x.0@);
            if j - 1 > k {
                lemma_lex_trans(x.0@, r[k].0@, r[j - 1].0@);
            }
        } else if i < k {
            assert(t[i] == r[i] && t[j] == r[j - 1]);
        } else {
            assert(t[i] == r[i - 1] && t[j] == r[j - 1]);
        }
    }
}

/// The name sort yields names in order and keeps every entry, as often as
/// it occurs.
pub proof fn lemma_sort_by_name<V>(s: Seq<(String, V)>)
    ensures
        sorted_by_name(sort_by_name(s)),
        sort_by_name(s).to_multiset() == s.to_multiset(),
    decreases s.len(),
{
    broadcast use vstd::seq_lib::to_multiset_insert, vstd::seq_lib::to_multiset_build;
    if s.len() > 0 {
        let r = sort_by_name(s.drop_last());
        lemma_sort_by_name(s.drop_last());
        lemma_insert_sorted(s.last(), r);
        lemma_insert_pos(s.last().0@, r);
        assert(s =~= s.drop_last().push(s.last()));
    }
}

/// Sort (name, value) pairs by name, keeping the input order among equal
/// names.
pub fn sort_by_name_exec<V>(files: Vec<(String, V)>) -> (sorted: Vec<(String, V)>)
    ensures
        sorted@ == sort_by_name(files@),
{
    let ghost input = files@;
    let mut files = files;
    let mut out: Vec<(String, V)> = Vec::new();
    assert(input.skip(0) =~= input);
    while files.len() > 0
        invariant
            files@.len() <= input.len(),
            files@ == input.skip(input.len() - files@.len()),
            out@ == sort_by_name(input.take(input.len() - files@.len())),
        decreases files.len(),
    {
        let ghost m = input.len() - files@.len();
        let x = files.remove(0);
        proof {
            assert(input.skip(m)[0] == x);
            assert(input.take(m + 1).drop_last() =~= input.take(m));
            assert(input.take(m + 1).last() == x);
            assert(files@ =~= input.skip(m + 1));
        }
        let mut k: usize = 0;
        assert(out@.skip(0) =~= out@);
        while k < out.len() && str_le(out[k].0.as_str(), x.0.as_str())
            invariant
                k <= out@.len(),
                insert_pos(x.0@, out@) == k + insert_pos(x.0@, out@.skip(k as int)),
            decreases out.len() - k,
        {
            proof {
                let t = out@.skip(k as int);
                assert(t.drop_first() =~= out@.skip(k + 1));
                assert(t[0] == out@[k as int]);
            }
            k = k + 1;
        }
        proof {
            let t = out@.skip(k as int);
            if k < out@.len() {
                assert(t[0] == out@[k as int]);
            }
        }
        out.insert(k, x);
    }
    assert(input.take(input.len() as int) =~= input);
    out
}

} // verus!
