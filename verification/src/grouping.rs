//! Grouping of list entries under sorted keys, as the agent list and the
//! tool list of the web interface show them.

use vstd::prelude::*;
use crate::memory::bm25::string_views;
use crate::text::{lemma_lex_antisym, lemma_lex_total, lemma_lex_trans, lex_le, str_eq, str_le};

verus! {

/// `a` comes strictly before `b` in lexicographic order.
pub open spec fn lex_lt(a: Seq<char>, b: Seq<char>) -> bool {
    lex_le(a, b) && a != b
}

/// The positions of `keys` that hold `k`, in increasing order.
pub open spec fn indices_with(keys: Seq<Seq<char>>, k: Seq<char>) -> Seq<usize>
    decreases keys.len(),
{
    if keys.len() == 0 {
        seq![]
    } else {
        let r = indices_with(keys.drop_last(), k);
        if keys.last() == k {
            r.push((keys.len() - 1) as usize)
        } else {
            r
        }
    }
}

/// `groups` lists the distinct keys of `keys` in strictly increasing order,
/// each with the positions that hold it, in order.
pub open spec fn grouped_by(keys: Seq<Seq<char>>, groups: Seq<(Seq<char>, Seq<usize>)>) -> bool {
    &&& forall|a: int, b: int| 0 <= a < b < groups.len() ==> lex_lt(#[trigger] groups[a].0, #[trigger] groups[b].0)
    &&& forall|a: int| 0 <= a < groups.len() ==> (#[trigger] groups[a]).1 == indices_with(keys, groups[a].0)
        && groups[a].1.len() > 0
    &&& forall|i: int| 0 <= i < keys.len() ==> occurs_in(group_keys(groups), #[trigger] keys[i])
}

/// The keys of a list of groups.
pub open spec fn group_keys(groups: Seq<(Seq<char>, Seq<usize>)>) -> Seq<Seq<char>> {
    groups.map_values(|e: (Seq<char>, Seq<usize>)| e.0)
}

/// `k` is one of `s`.
pub open spec fn occurs_in(s: Seq<Seq<char>>, k: Seq<char>) -> bool {
    exists|a: int| 0 <= a < s.len() && s[a] == k
}

/// The views of a list of groups.
pub open spec fn group_views(g: Seq<(String, Vec<usize>)>) -> Seq<(Seq<char>, Seq<usize>)> {
    g.map_values(|e: (String, Vec<usize>)| (e.0@, e.1@))
}

proof fn lemma_indices_with_take(keys: Seq<Seq<char>>, k: Seq<char>, j: int)
    requires
        0 <= j < keys.len(),
    ensures
        indices_with(keys.take(j + 1), k) == if keys[j] == k {
            indices_with(keys.take(j), k).push(j as usize)
        } else {
            indices_with(keys.take(j), k)
        },
{
    assert(keys.take(j + 1).drop_last() =~= keys.take(j));
}

proof fn lemma_indices_with_nonempty(keys: Seq<Seq<char>>, k: Seq<char>, i: int)
    requires
        0 <= i < keys.len(),
        keys[i] == k,
    ensures
        indices_with(keys, k).len() > 0,
    decreases keys.len(),
{
    if i < keys.len() - 1 {
        lemma_indices_with_nonempty(keys.drop_last(), k, i);
    }
}

/// The distinct keys, sorted in strictly increasing order.
fn sorted_distinct(keys: &Vec<String>) -> (ks: Vec<String>)
    ensures
        forall|a: int, b: int| 0 <= a < b < ks@.len() ==> lex_lt(#[trigger] ks@[a]@, #[trigger] ks@[b]@),
        forall|a: int| 0 <= a < ks@.len() ==> occurs_in(string_views(keys@), #[trigger] ks@[a]@),
        forall|i: int| 0 <= i < keys@.len() ==> occurs_in(string_views(ks@), #[trigger] keys@[i]@),
{
    let mut ks: Vec<String> = Vec::new();
    let mut i: usize = 0;
    while i < keys.len()
        invariant
            i <= keys@.len(),
            forall|a: int, b: int| 0 <= a < b < ks@.len() ==> lex_lt(#[trigger] ks@[a]@, #[trigger] ks@[b]@),
            forall|a: int| 0 <= a < ks@.len() ==> occurs_in(string_views(keys@), #[trigger] ks@[a]@),
            forall|x: int| 0 <= x < i ==> occurs_in(string_views(ks@), #[trigger] keys@[x]@),
        decreases keys.len() - i,
    {
        let k = keys[i].as_str();
        let mut p: usize = 0;
        while p < ks.len() && !str_le(k, ks[p].as_str())
            invariant
                p <= ks@.len(),
                forall|q: int| 0 <= q < p ==> lex_lt(#[trigger] ks@[q]@, k@),
            decreases ks.len() - p,
        {
            proof {
                lemma_lex_total(k@, ks@[p as int]@);
            }
            p = p + 1;
        }
        let present = p < ks.len() && str_eq(ks[p].as_str(), k);
        if !present {
            let ghost old_ks = ks@;
            proof {
                assert forall|q: int| p <= q < old_ks.len() implies lex_lt(k@, #[trigger] old_ks[q]@) by {
                    if q > p {
                        assert(lex_lt(old_ks[p as int]@, old_ks[q]@));
                        lemma_lex_trans(k@, old_ks[p as int]@, old_ks[q]@);
                        if k@ == old_ks[q]@ {
                            lemma_lex_antisym(old_ks[p as int]@, k@);
                        }
                    }
                }
            }
            ks.insert(p, keys[i].clone());
            proof {
                let n = ks@;
                assert(n[p as int]@ == k@);
                assert forall|a: int, b: int| 0 <= a < b < n.len() implies lex_lt(#[trigger] n[a]@, #[trigger] n[b]@) by {
                    if a < p && b == p {
                    } else if a < p && b > p {
                        assert(n[b] == old_ks[b - 1]);
                        assert(lex_lt(old_ks[a]@, k@));
                        assert(lex_lt(k@, old_ks[b - 1]@));
                        lemma_lex_trans(old_ks[a]@, k@, old_ks[b - 1]@);
                        if old_ks[a]@ == old_ks[b - 1]@ {
                            lemma_lex_antisym(old_ks[a]@, k@);
                        }
                    } else if a == p {
                        assert(n[b] == old_ks[b - 1]);
                    } else if a < p {
                        assert(n[a] == old_ks[a] && n[b] == old_ks[b]);
                    } else {
                        assert(n[a] == old_ks[a - 1] && n[b] == old_ks[b - 1]);
                    }
                }
                let kv = string_views(keys@);
                assert forall|a: int| 0 <= a < n.len() implies occurs_in(kv, #[trigger] n[a]@) by {
                    if a == p {
                        assert(kv[i as int] == n[a]@);
                    } else if a < p {
                        assert(n[a] == old_ks[a]);
                    } else {
                        assert(n[a] == old_ks[a - 1]);
                    }
                }
                let nv = string_views(n);
                assert forall|x: int| 0 <= x <= i implies occurs_in(nv, #[trigger] keys@[x]@) by {
                    if x == i {
                        assert(nv[p as int] == keys@[x]@);
                    } else {
                        let ov = string_views(old_ks);
                        assert(occurs_in(ov, keys@[x]@));
                        let a = choose|a: int| 0 <= a < ov.len() && ov[a] == keys@[x]@;
                        if a < p {
                            assert(n[a] == old_ks[a]);
                            assert(nv[a] == ov[a]);
                        } else {
                            assert(n[a + 1] == old_ks[a]);
                            assert(nv[a + 1] == ov[a]);
                        }
                    }
                }
            }
        } else {
            assert(string_views(ks@)[p as int] == keys@[i as int]@);
        }
        i = i + 1;
    }
    ks
}

/// The positions of `keys` that hold `k`, in order.
fn positions_of(keys: &Vec<String>, k: &str) -> (r: Vec<usize>)
    ensures
        r@ == indices_with(string_views(keys@), k@),
{
    let ghost kv = string_views(keys@);
    let mut r: Vec<usize> = Vec::new();
    let mut j: usize = 0;
    assert(kv.take(0) =~= Seq::<Seq<char>>::empty());
    while j < keys.len()
        invariant
            j <= keys@.len(),
            kv == string_views(keys@),
            r@ == indices_with(kv.take(j as int), k@),
        decreases keys.len() - j,
    {
        proof {
            lemma_indices_with_take(kv, k@, j as int);
        }
        assert(kv[j as int] == keys@[j as int]@);
        if str_eq(keys[j].as_str(), k) {
            r.push(j);
        }
        j = j + 1;
    }
    assert(kv.take(j as int) =~= kv);
    r
}

/// Group the positions of `keys` under their distinct keys, in increasing
/// key order (see `grouped_by`).
pub fn group_by_key(keys: &Vec<String>) -> (g: Vec<(String, Vec<usize>)>)
    ensures
        grouped_by(string_views(keys@), group_views(g@)),
{
    let ghost kv = string_views(keys@);
    let ks = sorted_distinct(keys);
    let mut g: Vec<(String, Vec<usize>)> = Vec::new();
    let mut a: usize = 0;
    while a < ks.len()
        invariant
            a <= ks@.len(),
            kv == string_views(keys@),
            g@.len() == a,
            forall|x: int| 0 <= x < a ==> (#[trigger] g@[x]).0@ == ks@[x]@
                && g@[x].1@ == indices_with(kv, ks@[x]@),
            forall|x: int| 0 <= x < ks@.len() ==> occurs_in(kv, #[trigger] ks@[x]@),
        decreases ks.len() - a,
    {
        let idx = positions_of(keys, ks[a].as_str());
        g.push((ks[a].clone(), idx));
        a = a + 1;
    }
    proof {
        let gv = group_views(g@);
        assert(gv.len() == ks@.len());
        assert forall|x: int| 0 <= x < gv.len() implies (#[trigger] gv[x]).1 == indices_with(kv, gv[x].0)
            && gv[x].1.len() > 0 by {
            assert(gv[x].0 == ks@[x]@);
            assert(occurs_in(kv, ks@[x]@));
            let i = choose|i: int| 0 <= i < kv.len() && kv[i] == ks@[x]@;
            lemma_indices_with_nonempty(kv, ks@[x]@, i);
        }
        assert forall|b: int, c: int| 0 <= b < c < gv.len() implies lex_lt(#[trigger] gv[b].0, #[trigger] gv[c].0) by {
            assert(gv[b].0 == ks@[b]@ && gv[c].0 == ks@[c]@);
        }
        assert forall|i: int| 0 <= i < kv.len() implies occurs_in(group_keys(gv), #[trigger] kv[i]) by {
            assert(kv[i] == keys@[i]@);
            let ksv = string_views(ks@);
            assert(occurs_in(ksv, keys@[i]@));
            let x = choose|x: int| 0 <= x < ksv.len() && ksv[x] == keys@[i]@;
            assert(ksv[x] == ks@[x]@);
            assert(gv[x].0 == ks@[x]@);
            assert(gv[x].0 == kv[i]);
            assert(group_keys(gv)[x] == kv[i]);
        }
    }
    g
}

/// The group a tool is listed under: its own group, `other` when it has none.
pub open spec fn tool_group_key(g: Seq<char>) -> Seq<char> {
    if g.len() == 0 {
        "other"@
    } else {
        g
    }
}

/// The tool list of the interface: the positions of the tools grouped
/// under their groups (`other` for tools without one), groups in
/// increasing name order, positions in list order.
pub fn group_tools(groups: &Vec<String>) -> (g: Vec<(String, Vec<usize>)>)
    ensures
        grouped_by(string_views(groups@).map_values(|x: Seq<char>| tool_group_key(x)), group_views(g@)),
{
    let mut keys: Vec<String> = Vec::new();
    let mut i: usize = 0;
    while i < groups.len()
        invariant
            i <= groups@.len(),
            string_views(keys@) == string_views(groups@).take(i as int).map_values(|x: Seq<char>| tool_group_key(x)),
        decreases groups.len() - i,
    {
        let key = if str_eq(groups[i].as_str(), "") {
            "other".to_owned()
        } else {
            groups[i].clone()
        };
        proof {
            reveal_strlit("");
            assert(""@ =~= Seq::<char>::empty());
            if groups@[i as int]@.len() == 0 {
                assert(groups@[i as int]@ =~= ""@);
            }
        }
        let ghost gv = string_views(groups@);
        assert(gv[i as int] == groups@[i as int]@);
        assert(key@ == tool_group_key(gv[i as int]));
        let ghost before = keys@;
        keys.push(key);
        assert(gv.take(i + 1) =~= gv.take(i as int).push(gv[i as int]));
        assert(string_views(keys@) =~= string_views(before).push(key@));
        assert(string_views(keys@) =~= gv.take(i + 1).map_values(|x: Seq<char>| tool_group_key(x)));
        i = i + 1;
    }
    assert(string_views(groups@).take(i as int) =~= string_views(groups@));
    group_by_key(&keys)
}

/// An agent of the list (system flag, team id, team name) shown under a
/// team: not the system agent, with both a team id and a team name.
pub open spec fn in_team(e: (bool, Option<String>, Option<String>)) -> bool {
    !e.0 && e.1 is Some && e.2 is Some
}

/// The team id of an agent shown under a team.
pub open spec fn team_of(e: (bool, Option<String>, Option<String>)) -> Seq<char> {
    match e.1 {
        Some(t) => t@,
        None => seq![],
    }
}

/// The team name of an agent shown under a team.
pub open spec fn team_name_of(e: (bool, Option<String>, Option<String>)) -> Seq<char> {
    match e.2 {
        Some(t) => t@,
        None => seq![],
    }
}

/// The team ids of the agents shown under teams, in list order.
pub open spec fn team_ids(agents: Seq<(bool, Option<String>, Option<String>)>) -> Seq<Seq<char>>
    decreases agents.len(),
{
    if agents.len() == 0 {
        seq![]
    } else {
        let r = team_ids(agents.drop_last());
        if in_team(agents.last()) {
            r.push(team_of(agents.last()))
        } else {
            r
        }
    }
}

/// The positions of the agents shown under team `t`, in list order.
pub open spec fn team_members(agents: Seq<(bool, Option<String>, Option<String>)>, t: Seq<char>) -> Seq<usize>
    decreases agents.len(),
{
    if agents.len() == 0 {
        seq![]
    } else {
        let r = team_members(agents.drop_last(), t);
        if in_team(agents.last()) && team_of(agents.last()) == t {
            r.push((agents.len() - 1) as usize)
        } else {
            r
        }
    }
}

/// The positions of the non-system agents shown under no team, in order.
pub open spec fn ungrouped_agents(agents: Seq<(bool, Option<String>, Option<String>)>) -> Seq<usize>
    decreases agents.len(),
{
    if agents.len() == 0 {
        seq![]
    } else {
        let r = ungrouped_agents(agents.drop_last());
        if !agents.last().0 && !in_team(agents.last()) {
            r.push((agents.len() - 1) as usize)
        } else {
            r
        }
    }
}

/// The team ids of a list of teams.
pub open spec fn team_keys(teams: Seq<(String, String, Vec<usize>)>) -> Seq<Seq<char>> {
    teams.map_values(|t: (String, String, Vec<usize>)| t.0@)
}

/// The position of the first system agent, if any.
pub open spec fn first_system(agents: Seq<(bool, Option<String>, Option<String>)>) -> Option<int>
    decreases agents.len(),
{
    if agents.len() == 0 {
        None
    } else if agents[0].0 {
        Some(0)
    } else {
        match first_system(agents.drop_first()) {
            Some(i) => Some(i + 1),
            None => None,
        }
    }
}

proof fn lemma_team_members_nonempty(agents: Seq<(bool, Option<String>, Option<String>)>, t: Seq<char>)
    requires
        occurs_in(team_ids(agents), t),
    ensures
        team_members(agents, t).len() > 0,
    decreases agents.len(),
{
    if agents.len() > 0 {
        let d = agents.drop_last();
        if !(in_team(agents.last()) && team_of(agents.last()) == t) {
            let a = choose|a: int| 0 <= a < team_ids(agents).len() && team_ids(agents)[a] == t;
            if in_team(agents.last()) {
                assert(a < team_ids(d).len());
                assert(team_ids(d)[a] == t);
            }
            assert(occurs_in(team_ids(d), t));
            lemma_team_members_nonempty(d, t);
        }
    }
}

proof fn lemma_team_ids_cover(agents: Seq<(bool, Option<String>, Option<String>)>, i: int)
    requires
        0 <= i < agents.len(),
        in_team(agents[i]),
    ensures
        occurs_in(team_ids(agents), team_of(agents[i])),
    decreases agents.len(),
{
    let d = agents.drop_last();
    if i == agents.len() - 1 {
        assert(team_ids(agents).last() == team_of(agents[i]));
    } else {
        lemma_team_ids_cover(d, i);
        assert(d[i] == agents[i]);
        let a = choose|a: int| 0 <= a < team_ids(d).len() && team_ids(d)[a] == team_of(agents[i]);
        assert(team_ids(agents)[a] == team_ids(d)[a]);
    }
}

/// The agent list of the interface, from (system flag, team id, team
/// name) per agent: the first system agent; the teams in increasing id
/// order, each with its name (that of its first member) and its members in
/// list order; and the other non-system agents in list order.
pub fn group_agents(a: &Vec<(bool, Option<String>, Option<String>)>) -> (g: (Option<usize>, Vec<(String, String, Vec<usize>)>, Vec<usize>))
    ensures
        match first_system(a@) {
            Some(i) => g.0 == Some(i as usize),
            None => g.0 is None,
        },
        forall|x: int, y: int| 0 <= x < y < g.1@.len() ==> lex_lt(#[trigger] g.1@[x].0@, #[trigger] g.1@[y].0@),
        forall|x: int| 0 <= x < g.1@.len() ==> {
            let t = #[trigger] g.1@[x];
            &&& t.2@ == team_members(a@, t.0@)
            &&& t.2@.len() > 0
            &&& t.1@ == team_name_of(a@[t.2@[0] as int])
        },
        forall|i: int| 0 <= i < a@.len() && in_team(#[trigger] a@[i])
            ==> occurs_in(team_keys(g.1@), team_of(a@[i])),
        g.2@ == ungrouped_agents(a@),
{
    let ghost av = a@;
    proof {
        lemma_first_system(av);
    }
    let mut first: Option<usize> = None;
    let mut keys: Vec<String> = Vec::new();
    let mut rest: Vec<usize> = Vec::new();
    let mut i: usize = 0;
    while i < a.len()
        invariant
            i <= av.len(),
            av == a@,
            string_views(keys@) == team_ids(av.take(i as int)),
            rest@ == ungrouped_agents(av.take(i as int)),
            match first_system(av) {
                Some(f) => 0 <= f < av.len() && av[f].0 && (forall|g: int| 0 <= g < f ==> !(#[trigger] av[g]).0)
                    && if f < i { first == Some(f as usize) } else { first is None },
                None => first is None && forall|g: int| 0 <= g < av.len() ==> !(#[trigger] av[g]).0,
            },
        decreases a.len() - i,
    {
        proof {
            assert(av.take(i + 1).drop_last() =~= av.take(i as int));
            assert(av.take(i + 1).last() == av[i as int]);
        }
        let e = &a[i];
        if e.0 {
            if first.is_none() {
                first = Some(i);
            }
        } else {
            match (&e.1, &e.2) {
                (Some(t), Some(_)) => {
                    keys.push(t.clone());
                    assert(string_views(keys@) =~= team_ids(av.take(i + 1)));
                },
                _ => {
                    rest.push(i);
                },
            }
        }
        i = i + 1;
    }
    assert(av.take(i as int) =~= av);
    let ks = sorted_distinct(&keys);
    let mut teams: Vec<(String, String, Vec<usize>)> = Vec::new();
    let mut x: usize = 0;
    while x < ks.len()
        invariant
            x <= ks@.len(),
            av == a@,
            teams@.len() == x,
            forall|y: int| 0 <= y < ks@.len() ==> occurs_in(team_ids(av), #[trigger] ks@[y]@),
            forall|y: int| 0 <= y < x ==> {
                let t = #[trigger] teams@[y];
                &&& t.0@ == ks@[y]@
                &&& t.2@ == team_members(av, t.0@)
                &&& t.2@.len() > 0
                &&& t.1@ == team_name_of(av[t.2@[0] as int])
            },
        decreases ks.len() - x,
    {
        let (members, name) = team_members_of(a, ks[x].as_str());
        proof {
            lemma_team_members_nonempty(av, ks@[x as int]@);
        }
        teams.push((ks[x].clone(), name, members));
        x = x + 1;
    }
    proof {
        assert forall|p: int, q: int| 0 <= p < q < teams@.len() implies lex_lt(#[trigger] teams@[p].0@, #[trigger] teams@[q].0@) by {
            assert(teams@[p].0@ == ks@[p]@ && teams@[q].0@ == ks@[q]@);
        }
        assert forall|j: int| 0 <= j < av.len() && in_team(#[trigger] av[j])
            implies occurs_in(team_keys(teams@), team_of(av[j])) by {
            lemma_team_ids_cover(av, j);
            let k = choose|k: int| 0 <= k < team_ids(av).len() && team_ids(av)[k] == team_of(av[j]);
            assert(string_views(keys@)[k] == team_of(av[j]));
            assert(occurs_in(string_views(ks@), keys@[k]@));
            let y = choose|y: int| 0 <= y < string_views(ks@).len() && string_views(ks@)[y] == keys@[k]@;
            assert(teams@[y].0@ == ks@[y]@);
            assert(team_keys(teams@)[y] == team_of(av[j]));
        }
    }
    (first, teams, rest)
}

proof fn lemma_first_system(agents: Seq<(bool, Option<String>, Option<String>)>)
    ensures
        match first_system(agents) {
            Some(f) => 0 <= f < agents.len() && agents[f].0 && forall|g: int| 0 <= g < f ==> !(#[trigger] agents[g]).0,
            None => forall|g: int| 0 <= g < agents.len() ==> !(#[trigger] agents[g]).0,
        },
    decreases agents.len(),
{
    if agents.len() > 0 && !agents[0].0 {
        let d = agents.drop_first();
        lemma_first_system(d);
        assert forall|g: int| 1 <= g < agents.len() implies agents[g] == d[g - 1] by {}
    }
}

/// The members of team `t` (positions in list order) and the team's name,
/// that of its first member (empty when it has none).
fn team_members_of(a: &Vec<(bool, Option<String>, Option<String>)>, t: &str) -> (r: (Vec<usize>, String))
    ensures
        r.0@ == team_members(a@, t@),
        r.0@.len() > 0 ==> r.1@ == team_name_of(a@[r.0@[0] as int]),
{
    let ghost av = a@;
    let mut out: Vec<usize> = Vec::new();
    let mut name = String::new();
    let mut j: usize = 0;
    while j < a.len()
        invariant
            j <= av.len(),
            av == a@,
            out@ == team_members(av.take(j as int), t@),
            forall|k: int| 0 <= k < out@.len() ==> (#[trigger] out@[k]) < j,
            out@.len() > 0 ==> name@ == team_name_of(av[out@[0] as int]),
        decreases a.len() - j,
    {
        proof {
            assert(av.take(j + 1).drop_last() =~= av.take(j as int));
            assert(av.take(j + 1).last() == av[j as int]);
        }
        let e = &a[j];
        if !e.0 {
            match (&e.1, &e.2) {
                (Some(id), Some(n)) => {
                    if str_eq(id.as_str(), t) {
                        if out.len() == 0 {
                            name = n.clone();
                        }
                        out.push(j);
                    }
                },
                _ => {},
            }
        }
        j = j + 1;
    }
    assert(av.take(j as int) =~= av);
    (out, name)
}

} // verus!
