//! Registry of tools by name, and the function-calling schemas of the
//! registered tools.

use vstd::prelude::*;
use crate::memory::bm25::string_views;
use crate::sorting::{sort_by_name, sort_by_name_exec, lemma_sort_by_name};
use crate::text::str_eq;

verus! {

/// Name, description and JSON parameter schema (as text) of a function.
#[derive(Debug)]
pub struct FunctionSchema {
    pub name: String,
    pub description: String,
    pub parameters: String,
}

/// A tool in the OpenAI function-calling format (`type` is `function`).
#[derive(Debug)]
pub struct ToolSchema {
    pub schema_type: String,
    pub function: FunctionSchema,
}

/// The schema of a tool with the given name, description and parameters.
pub fn make_schema(name: String, description: String, parameters: String) -> (s: ToolSchema)
    ensures
        s.schema_type@ == "function"@,
        s.function.name == name,
        s.function.description == description,
        s.function.parameters == parameters,
{
    ToolSchema {
        schema_type: "function".to_owned(),
        function: FunctionSchema { name, description, parameters },
    }
}

/// A copy of a schema.
pub fn copy_schema(s: &ToolSchema) -> (c: ToolSchema)
    ensures
        c == *s,
{
    ToolSchema {
        schema_type: s.schema_type.clone(),
        function: FunctionSchema {
            name: s.function.name.clone(),
            description: s.function.description.clone(),
            parameters: s.function.parameters.clone(),
        },
    }
}

/// A registered tool and its schema.
pub struct RegisteredTool<T> {
    pub schema: ToolSchema,
    pub tool: T,
}

/// Tools by name. Names are unique: registering a taken name is refused.
pub struct ToolRegistry<T> {
    tools: Vec<RegisteredTool<T>>,
}

impl<T> ToolRegistry<T> {
    /// The registered tools, in registration order.
    pub closed spec fn entries(&self) -> Seq<RegisteredTool<T>> {
        self.tools@
    }

    /// The registered names, in registration order.
    pub open spec fn names_spec(&self) -> Seq<Seq<char>> {
        self.entries().map_values(|e: RegisteredTool<T>| e.schema.function.name@)
    }

    /// The schemas, each paired with its tool's name.
    pub open spec fn named_schemas(&self) -> Seq<(String, ToolSchema)> {
        self.entries().map_values(|e: RegisteredTool<T>| (e.schema.function.name, e.schema))
    }

    /// No name is registered twice.
    pub open spec fn names_distinct(&self) -> bool {
        forall|i: int, j: int| 0 <= i < j < self.entries().len()
            ==> self.entries()[i].schema.function.name@ != self.entries()[j].schema.function.name@
    }

    /// Every registered schema is of type `function`.
    pub open spec fn schemas_are_functions(&self) -> bool {
        forall|i: int| 0 <= i < self.entries().len() ==> (#[trigger] self.entries()[i]).schema.schema_type@ == "function"@
    }

    /// What every registry keeps: names are unique and every schema is a
    /// function schema.
    #[verifier::type_invariant]
    spec fn well_formed(&self) -> bool {
        self.names_distinct() && self.schemas_are_functions()
    }

    /// An empty registry.
    pub fn new() -> (r: Self)
        ensures
            r.entries().len() == 0,
    {
        ToolRegistry { tools: Vec::new() }
    }

    /// Where the tool named `name` is, if it is registered.
    pub fn position(&self, name: &str) -> (r: Option<usize>)
        ensures
            match r {
                Some(i) => i < self.entries().len() && self.entries()[i as int].schema.function.name@ == name@
                    && forall|j: int| 0 <= j < i ==> self.entries()[j].schema.function.name@ != name@,
                None => !self.names_spec().contains(name@),
            },
    {
        let mut i: usize = 0;
        while i < self.tools.len()
            invariant
                i <= self.tools@.len(),
                forall|j: int| 0 <= j < i ==> self.tools@[j].schema.function.name@ != name@,
            decreases self.tools.len() - i,
        {
            if str_eq(self.tools[i].schema.function.name.as_str(), name) {
                return Some(i);
            }
            i = i + 1;
        }
        proof {
            if self.names_spec().contains(name@) {
                let k = choose|k: int| 0 <= k < self.names_spec().len() && self.names_spec()[k] == name@;
                assert(self.tools@[k].schema.function.name@ == name@);
            }
        }
        None
    }

    /// Whether a tool named `name` is registered.
    pub fn contains(&self, name: &str) -> (b: bool)
        ensures
            b == self.names_spec().contains(name@),
    {
        match self.position(name) {
            Some(i) => {
                assert(self.names_spec()[i as int] == name@);
                true
            },
            None => false,
        }
    }

    /// Register a tool under `name`, with the function schema made of its
    /// name, description and parameters. The name must not be taken
    /// (registering a name twice is a programming error).
    pub fn register(&mut self, name: String, description: String, parameters: String, tool: T)
        requires
            !old(self).names_spec().contains(name@),
        ensures
            final(self).entries().len() == old(self).entries().len() + 1,
            final(self).entries().drop_last() == old(self).entries(),
            final(self).entries().last().tool == tool,
            final(self).entries().last().schema.schema_type@ == "function"@,
            final(self).entries().last().schema.function.name == name,
            final(self).entries().last().schema.function.description == description,
            final(self).entries().last().schema.function.parameters == parameters,
    {
        proof {
            use_type_invariant(&*self);
        }
        let schema = make_schema(name, description, parameters);
        let mut tools: Vec<RegisteredTool<T>> = Vec::new();
        std::mem::swap(&mut tools, &mut self.tools);
        let ghost before = tools@;
        tools.push(RegisteredTool { schema, tool });
        proof {
            let e = tools@;
            assert(e.drop_last() =~= before);
            assert forall|i: int, j: int| 0 <= i < j < e.len()
                implies e[i].schema.function.name@ != e[j].schema.function.name@ by {
                if j == e.len() - 1 {
                    assert(old(self).names_spec()[i] == e[i].schema.function.name@);
                }
            }
        }
        self.tools = tools;
    }

    /// Register a tool only when its name is free; a taken name is skipped
    /// and the registry left as it was. Whether the tool was registered is
    /// returned.
    pub fn register_if_absent(&mut self, name: String, description: String, parameters: String, tool: T) -> (added: bool)
        ensures
            added == !old(self).names_spec().contains(name@),
            !added ==> final(self).entries() == old(self).entries(),
            added ==> {
                &&& final(self).entries().len() == old(self).entries().len() + 1
                &&& final(self).entries().drop_last() == old(self).entries()
                &&& final(self).entries().last().tool == tool
                &&& final(self).entries().last().schema.schema_type@ == "function"@
                &&& final(self).entries().last().schema.function.name == name
                &&& final(self).entries().last().schema.function.description == description
                &&& final(self).entries().last().schema.function.parameters == parameters
            },
    {
        if self.contains(name.as_str()) {
            return false;
        }
        self.register(name, description, parameters, tool);
        true
    }

    /// Register, in order, each tool whose name is free at its turn; a tool
    /// whose name is taken (by an earlier registration or an earlier tool
    /// of the list) is skipped. The number registered is returned.
    pub fn register_new_tools(&mut self, tools: Vec<(String, String, String, T)>) -> (added: usize)
        ensures
            final(self).names_spec() == names_after(old(self).names_spec(), tool_names(tools@)),
            final(self).entries().take(old(self).entries().len() as int) == old(self).entries(),
            added == final(self).entries().len() - old(self).entries().len(),
            forall|i: int| old(self).entries().len() <= i < final(self).entries().len()
                ==> registered_from(tools@, #[trigger] final(self).entries()[i]),
    {
        let ghost input = tools@;
        let ghost start = self.entries();
        let mut rest = tools;
        let start_len = self.len();
        assert(input.skip(0) =~= input);
        assert(tool_names(input.take(0)) =~= Seq::<Seq<char>>::empty());
        assert(start.take(start.len() as int) =~= start);
        while rest.len() > 0
            invariant
                rest@.len() <= input.len(),
                rest@ == input.skip(input.len() - rest@.len()),
                self.names_spec() == names_after(start.map_values(|e: RegisteredTool<T>| e.schema.function.name@),
                    tool_names(input.take(input.len() - rest@.len()))),
                self.entries().len() >= start.len(),
                self.entries().take(start.len() as int) == start,
                start_len == start.len(),
                forall|i: int| start.len() <= i < self.entries().len()
                    ==> registered_within(input, input.len() - rest@.len(), #[trigger] self.entries()[i]),
            decreases rest.len(),
        {
            let ghost m = input.len() - rest@.len();
            let ghost before = self.entries();
            let (name, description, parameters, tool) = rest.remove(0);
            proof {
                assert(input.skip(m)[0] == (name, description, parameters, tool));
                assert(rest@ =~= input.skip(m + 1));
                assert(input.take(m + 1) =~= input.take(m).push(input[m]));
                assert(tool_names(input.take(m + 1)) =~= tool_names(input.take(m)).push(name@));
            }
            let ghost nm = name@;
            let ghost offered = tool_names(input.take(m + 1));
            proof {
                assert(offered.drop_last() =~= tool_names(input.take(m)));
                assert(offered.last() == nm);
                assert(before.map_values(|e: RegisteredTool<T>| e.schema.function.name@) == names_after(
                    start.map_values(|e: RegisteredTool<T>| e.schema.function.name@), offered.drop_last()));
            }
            if self.register_if_absent(name, description, parameters, tool) {
                proof {
                    assert(self.entries().take(start.len() as int) =~= before.take(start.len() as int));
                    assert(self.names_spec() =~= before.map_values(|e: RegisteredTool<T>| e.schema.function.name@).push(self.entries().last().schema.function.name@));
                    let e = self.entries().last();
                    assert forall|j: int| 0 <= j < m implies input[j].0@ != e.schema.function.name@ by {
                        lemma_names_after_contains(
                            start.map_values(|x: RegisteredTool<T>| x.schema.function.name@), tool_names(input.take(m)), j);
                        assert(tool_names(input.take(m))[j] == input[j].0@);
                    }
                    assert(first_offered(input, e, m));
                    assert forall|i: int| start.len() <= i < self.entries().len()
                        implies registered_within(input, m + 1, #[trigger] self.entries()[i]) by {
                        if i < before.len() {
                            assert(self.entries()[i] == before[i]);
                            assert(registered_within(input, m, before[i]));
                            let k = choose|k: int| k < m && first_offered(input, before[i], k);
                            assert(k < m + 1 && first_offered(input, self.entries()[i], k));
                        } else {
                            assert(self.entries()[i] == e);
                            assert(m < m + 1 && first_offered(input, self.entries()[i], m));
                        }
                    }
                }
            } else {
                proof {
                    assert forall|i: int| start.len() <= i < self.entries().len()
                        implies registered_within(input, m + 1, #[trigger] self.entries()[i]) by {
                        let e = self.entries()[i];
                        assert(registered_within(input, m, e));
                        let k = choose|k: int| k < m && first_offered(input, e, k);
                        assert(k < m + 1 && first_offered(input, e, k));
                    }
                }
            }
        }
        assert(input.take(input.len() as int) =~= input);
        assert forall|i: int| start.len() <= i < self.entries().len()
            implies registered_from(tools@, #[trigger] self.entries()[i]) by {
            let e = self.entries()[i];
            assert(registered_within(input, input.len() - rest@.len(), e));
            let k = choose|k: int| k < input.len() - rest@.len() && first_offered(input, e, k);
            assert(first_offered(tools@, e, k));
        }
        self.len() - start_len
    }

    /// The tool registered under `name`.
    pub fn get(&self, name: &str) -> (r: Option<&T>)
        ensures
            match r {
                Some(t) => exists|i: int| 0 <= i < self.entries().len()
                    && self.entries()[i].schema.function.name@ == name@
                    && (forall|j: int| 0 <= j < i ==> self.entries()[j].schema.function.name@ != name@)
                    && self.entries()[i].tool == *t,
                None => !self.names_spec().contains(name@),
            },
    {
        match self.position(name) {
            Some(i) => Some(&self.tools[i].tool),
            None => None,
        }
    }

    /// The tool to execute for a call of `name`: the registered tool, or a
    /// tool error "tool not found" naming the call.
    pub fn tool_for_call(&self, name: &str) -> (r: Result<&T, crate::error::AgentCorpError>)
        ensures
            match r {
                Ok(t) => exists|i: int| 0 <= i < self.entries().len()
                    && self.entries()[i].schema.function.name@ == name@
                    && (forall|j: int| 0 <= j < i ==> self.entries()[j].schema.function.name@ != name@)
                    && self.entries()[i].tool == *t,
                Err(e) => !self.names_spec().contains(name@)
                    && (e matches crate::error::AgentCorpError::Tool { tool, message }
                    && tool@ == name@ && message@ == "tool not found"@),
            },
    {
        match self.get(name) {
            Some(t) => Ok(t),
            None => Err(crate::error::AgentCorpError::Tool {
                tool: name.to_owned(),
                message: "tool not found".to_owned(),
            }),
        }
    }

    /// Number of registered tools.
    pub fn len(&self) -> (n: usize)
        ensures
            n == self.entries().len(),
    {
        self.tools.len()
    }

    pub fn is_empty(&self) -> (b: bool)
        ensures
            b == (self.entries().len() == 0),
    {
        self.tools.len() == 0
    }

    /// The schemas of all tools, sorted by name.
    pub fn get_schemas(&self) -> (r: Vec<ToolSchema>)
        ensures
            r@ == sort_by_name(self.named_schemas()).map_values(|p: (String, ToolSchema)| p.1),
            forall|k: int| 0 <= k < r@.len() ==> (#[trigger] r@[k]).schema_type@ == "function"@,
            self.names_distinct(),
    {
        proof {
            use_type_invariant(self);
            lemma_sorted_schemas_are_functions(self.named_schemas());
        }
        let mut pairs: Vec<(String, ToolSchema)> = Vec::new();
        let mut i: usize = 0;
        while i < self.tools.len()
            invariant
                i <= self.tools@.len(),
                pairs@ == self.named_schemas().take(i as int),
            decreases self.tools.len() - i,
        {
            let s = copy_schema(&self.tools[i].schema);
            let n = self.tools[i].schema.function.name.clone();
            pairs.push((n, s));
            assert(pairs@ =~= self.named_schemas().take(i + 1));
            i = i + 1;
        }
        assert(pairs@ =~= self.named_schemas());
        let sorted = sort_by_name_exec(pairs);
        let ghost sv = sorted@;
        let mut sorted = sorted;
        let mut out: Vec<ToolSchema> = Vec::new();
        assert(sv.skip(0) =~= sv);
        while sorted.len() > 0
            invariant
                sorted@.len() <= sv.len(),
                sorted@ == sv.skip(sv.len() - sorted@.len()),
                out@ == sv.take(sv.len() - sorted@.len()).map_values(|p: (String, ToolSchema)| p.1),
            decreases sorted.len(),
        {
            let ghost m = sv.len() - sorted@.len();
            let (_, s) = sorted.remove(0);
            proof {
                assert(sv.skip(m)[0].1 == s);
                assert(sorted@ =~= sv.skip(m + 1));
            }
            out.push(s);
            assert(out@ =~= sv.take(m + 1).map_values(|p: (String, ToolSchema)| p.1));
        }
        assert(sv.take(sv.len() as int) =~= sv);
        out
    }

    /// The registered names, sorted.
    pub fn names(&self) -> (r: Vec<String>)
        ensures
            r@ == sort_by_name(self.named_schemas()).map_values(|p: (String, ToolSchema)| p.0),
    {
        let schemas = self.get_schemas();
        let ghost sv = sort_by_name(self.named_schemas());
        let mut out: Vec<String> = Vec::new();
        let mut i: usize = 0;
        proof {
            lemma_sorted_pairs_names(self.named_schemas());
        }
        while i < schemas.len()
            invariant
                i <= schemas@.len(),
                schemas@ == sv.map_values(|p: (String, ToolSchema)| p.1),
                forall|k: int| 0 <= k < sv.len() ==> (#[trigger] sv[k]).0 == sv[k].1.function.name,
                out@ == sv.take(i as int).map_values(|p: (String, ToolSchema)| p.0),
            decreases schemas.len() - i,
        {
            let n = schemas[i].function.name.clone();
            out.push(n);
            assert(out@ =~= sv.take(i + 1).map_values(|p: (String, ToolSchema)| p.0));
            i = i + 1;
        }
        assert(sv.take(i as int) =~= sv);
        out
    }

    /// The schemas of the tools whose names are not in `disabled`, in
    /// registration order.
    pub fn get_schemas_filtered(&self, disabled: &Vec<String>) -> (r: Vec<ToolSchema>)
        ensures
            r@ == self.entries().map_values(|e: RegisteredTool<T>| e.schema)
                .filter(|s: ToolSchema| !string_views(disabled@).contains(s.function.name@)),
    {
        let ghost all = self.entries().map_values(|e: RegisteredTool<T>| e.schema);
        let ghost f = |s: ToolSchema| !string_views(disabled@).contains(s.function.name@);
        let mut out: Vec<ToolSchema> = Vec::new();
        let mut i: usize = 0;
        while i < self.tools.len()
            invariant
                i <= self.tools@.len(),
                all == self.entries().map_values(|e: RegisteredTool<T>| e.schema),
                f == (|s: ToolSchema| !string_views(disabled@).contains(s.function.name@)),
                out@ == all.take(i as int).filter(f),
            decreases self.tools.len() - i,
        {
            let name = self.tools[i].schema.function.name.as_str();
            let off = list_contains(disabled, name);
            proof {
                assert(all.take(i + 1) =~= all.take(i as int).push(all[i as int]));
                all.take(i as int).lemma_filter_push(all[i as int], f);
            }
            if !off {
                let s = copy_schema(&self.tools[i].schema);
                out.push(s);
            }
            i = i + 1;
        }
        assert(all.take(i as int) =~= all);
        out
    }
}

/// Whether `name` is one of `list`.
pub fn list_contains(list: &Vec<String>, name: &str) -> (b: bool)
    ensures
        b == string_views(list@).contains(name@),
{
    let mut i: usize = 0;
    while i < list.len()
        invariant
            i <= list@.len(),
            forall|j: int| 0 <= j < i ==> list@[j]@ != name@,
        decreases list.len() - i,
    {
        if str_eq(list[i].as_str(), name) {
            assert(string_views(list@)[i as int] == name@);
            return true;
        }
        i = i + 1;
    }
    proof {
        if string_views(list@).contains(name@) {
            let k = choose|k: int| 0 <= k < list@.len() && string_views(list@)[k] == name@;
            assert(list@[k]@ == name@);
        }
    }
    false
}

/// After a tool is registered under a new name, the first entry with that
/// name, which `get` returns, is the tool just registered.
pub proof fn lemma_register_then_get<T>(entries: Seq<RegisteredTool<T>>, e: RegisteredTool<T>, i: int)
    requires
        !entries.map_values(|x: RegisteredTool<T>| x.schema.function.name@).contains(e.schema.function.name@),
        0 <= i < entries.len() + 1,
        entries.push(e)[i].schema.function.name@ == e.schema.function.name@,
    ensures
        i == entries.len(),
        entries.push(e)[i].tool == e.tool,
{
    if i < entries.len() {
        assert(entries.map_values(|x: RegisteredTool<T>| x.schema.function.name@)[i] == e.schema.function.name@);
    }
}

/// The names a registry lists are in lexicographic order and are exactly
/// the registered names, each as often as registered.
pub proof fn lemma_names_sorted(s: Seq<(String, ToolSchema)>)
    ensures
        forall|i: int, j: int| 0 <= i < j < sort_by_name(s).len()
            ==> crate::text::lex_le(#[trigger] sort_by_name(s)[i].0@, #[trigger] sort_by_name(s)[j].0@),
        sort_by_name(s).to_multiset() == s.to_multiset(),
{
    lemma_sort_by_name(s);
}

proof fn lemma_sorted_pairs_names(s: Seq<(String, ToolSchema)>)
    requires
        forall|k: int| 0 <= k < s.len() ==> (#[trigger] s[k]).0 == s[k].1.function.name,
    ensures
        forall|k: int| 0 <= k < sort_by_name(s).len()
            ==> (#[trigger] sort_by_name(s)[k]).0 == sort_by_name(s)[k].1.function.name,
{
    lemma_sort_by_name(s);
    let r = sort_by_name(s);
    assert forall|k: int| 0 <= k < r.len() implies (#[trigger] r[k]).0 == r[k].1.function.name by {
        assert(r.to_multiset().count(r[k]) > 0) by {
            broadcast use vstd::seq_lib::group_to_multiset_ensures;
            assert(r.contains(r[k]));
        }
        assert(s.to_multiset().count(r[k]) > 0);
        broadcast use vstd::seq_lib::group_to_multiset_ensures;
        assert(s.contains(r[k]));
    }
}

proof fn lemma_sorted_schemas_are_functions(s: Seq<(String, ToolSchema)>)
    requires
        forall|k: int| 0 <= k < s.len() ==> (#[trigger] s[k]).1.schema_type@ == "function"@,
    ensures
        forall|k: int| 0 <= k < sort_by_name(s).len()
            ==> (#[trigger] sort_by_name(s)[k]).1.schema_type@ == "function"@,
{
    lemma_sort_by_name(s);
    let r = sort_by_name(s);
    assert forall|k: int| 0 <= k < r.len() implies (#[trigger] r[k]).1.schema_type@ == "function"@ by {
        broadcast use vstd::seq_lib::group_to_multiset_ensures;
        assert(r.contains(r[k]));
        assert(s.to_multiset().count(r[k]) > 0);
        assert(s.contains(r[k]));
    }
}

/// The names of tools offered for registration, in order.
pub open spec fn tool_names<T>(tools: Seq<(String, String, String, T)>) -> Seq<Seq<char>> {
    tools.map_values(|t: (String, String, String, T)| t.0@)
}

/// The registered names after offering `offered` one by one: each name is
/// added unless it is already there.
pub open spec fn names_after(names: Seq<Seq<char>>, offered: Seq<Seq<char>>) -> Seq<Seq<char>>
    decreases offered.len(),
{
    if offered.len() == 0 {
        names
    } else {
        let n = names_after(names, offered.drop_last());
        if n.contains(offered.last()) {
            n
        } else {
            n.push(offered.last())
        }
    }
}

/// The tools of the servers whose discovery may be used: servers that are
/// not connected, and those whose listing failed (`None`), are skipped.
pub open spec fn server_tools<X>(servers: Seq<(bool, Option<Vec<X>>)>) -> Seq<X>
    decreases servers.len(),
{
    if servers.len() == 0 {
        seq![]
    } else {
        let before = server_tools(servers.drop_last());
        match servers.last() {
            (true, Some(v)) => before + v@,
            _ => before,
        }
    }
}

/// The tools discovered on the servers (see `server_tools`), in order.
pub fn reachable_server_tools<X>(servers: Vec<(bool, Option<Vec<X>>)>) -> (r: Vec<X>)
    ensures
        r@ == server_tools(servers@),
{
    let ghost input = servers@;
    let mut rest = servers;
    let mut out: Vec<X> = Vec::new();
    assert(input.skip(0) =~= input);
    while rest.len() > 0
        invariant
            rest@.len() <= input.len(),
            rest@ == input.skip(input.len() - rest@.len()),
            out@ == server_tools(input.take(input.len() - rest@.len())),
        decreases rest.len(),
    {
        let ghost m = input.len() - rest@.len();
        let (connected, listed) = rest.remove(0);
        proof {
            assert(input.skip(m)[0] == (connected, listed));
            assert(rest@ =~= input.skip(m + 1));
            assert(input.take(m + 1) =~= input.take(m).push(input[m]));
            assert(input.take(m + 1).drop_last() =~= input.take(m));
        }
        if connected {
            if let Some(mut v) = listed {
                let ghost o = out@;
                let ghost vv = v@;
                out.append(&mut v);
                assert(out@ =~= o + vv);
            }
        }
    }
    assert(input.take(input.len() as int) =~= input);
    out
}

/// `e` was registered from the offered tool at `k`: the first offer of its
/// name, with that offer's name, description, parameters and tool, under a
/// function schema.
pub open spec fn first_offered<T>(tools: Seq<(String, String, String, T)>, e: RegisteredTool<T>, k: int) -> bool {
    &&& 0 <= k < tools.len()
    &&& forall|j: int| 0 <= j < k ==> tools[j].0@ != e.schema.function.name@
    &&& e.schema.function.name == tools[k].0
    &&& e.schema.function.description == tools[k].1
    &&& e.schema.function.parameters == tools[k].2
    &&& e.tool == tools[k].3
    &&& e.schema.schema_type@ == "function"@
}

/// `e` was registered from the first offer of its name among `tools`.
pub open spec fn registered_from<T>(tools: Seq<(String, String, String, T)>, e: RegisteredTool<T>) -> bool {
    exists|k: int| first_offered(tools, e, k)
}

/// `e` was registered from the first offer of its name, made among the
/// first `m` offers.
pub open spec fn registered_within<T>(tools: Seq<(String, String, String, T)>, m: int, e: RegisteredTool<T>) -> bool {
    exists|k: int| k < m && first_offered(tools, e, k)
}

/// Every offered name is among the names after the offers.
proof fn lemma_names_after_contains(names: Seq<Seq<char>>, offered: Seq<Seq<char>>, j: int)
    requires
        0 <= j < offered.len(),
    ensures
        names_after(names, offered).contains(offered[j]),
    decreases offered.len(),
{
    let n = names_after(names, offered.drop_last());
    if j == offered.len() - 1 {
        if !n.contains(offered.last()) {
            assert(names_after(names, offered).last() == offered[j]);
        }
    } else {
        lemma_names_after_contains(names, offered.drop_last(), j);
        let a = choose|a: int| 0 <= a < n.len() && n[a] == offered[j];
        if !n.contains(offered.last()) {
            assert(names_after(names, offered)[a] == n[a]);
        }
    }
}

} // verus!
