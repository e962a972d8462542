//! Reading the configuration's JSON schema: resolving `$ref` links against
//! the schema's definitions and finding a field's declared type.

use vstd::prelude::*;
use crate::agents::starts_with;
use crate::chat::{get_str_member, str_member};
use crate::json::{json_array_items, json_get, json_items, json_member};
use crate::memory::bm25::string_views;
use crate::text::{chars_of, starts_with_spec, substring_of};

verus! {

/// A `$ref` path with its `#/definitions/` prefix taken off, when it has one.
pub open spec fn ref_name(path: Seq<char>) -> Seq<char> {
    if starts_with_spec(path, "#/definitions/"@) {
        path.skip("#/definitions/"@.len() as int)
    } else {
        path
    }
}

/// The definition that the `allOf` entries of a schema name first, if any:
/// the first entry with a `$ref` whose name `definitions` holds.
pub open spec fn first_all_of_ref(items: Seq<Seq<char>>, definitions: Seq<char>) -> Option<Seq<char>>
    decreases items.len(),
{
    if items.len() == 0 {
        None
    } else {
        let found = match str_member(items[0], "$ref"@) {
            Some(p) => json_member(definitions, ref_name(p)),
            None => None,
        };
        match found {
            Some(d) => Some(d),
            None => first_all_of_ref(items.drop_first(), definitions),
        }
    }
}

/// What a schema resolves to: the definition its `$ref` names (the schema
/// itself when that name is not defined); otherwise the first definition
/// named by an `allOf` entry; otherwise the schema itself.
pub open spec fn resolved_schema(schema: Seq<char>, definitions: Seq<char>) -> Seq<char> {
    match str_member(schema, "$ref"@) {
        Some(p) => match json_member(definitions, ref_name(p)) {
            Some(d) => d,
            None => schema,
        },
        None => {
            let from_all_of = match json_member(schema, "allOf"@) {
                Some(a) => match json_items(a) {
                    Some(items) => first_all_of_ref(items, definitions),
                    None => None,
                },
                None => None,
            };
            match from_all_of {
                Some(d) => d,
                None => schema,
            }
        },
    }
}

/// `ref_name` computed.
pub fn strip_definitions_prefix(path: &str) -> (r: String)
    ensures
        r@ == ref_name(path@),
{
    let p = chars_of(path);
    let prefix = chars_of("#/definitions/");
    if starts_with(&p, &prefix) {
        let r = substring_of(&p, prefix.len(), p.len());
        assert(r@ =~= path@.skip("#/definitions/"@.len() as int));
        r
    } else {
        path.to_owned()
    }
}

/// The definition named by the `$ref` of `item`, if `item` has a `$ref`
/// and `definitions` holds that name.
fn referenced_definition(item: &str, definitions: &str) -> (r: Option<String>)
    ensures
        match r {
            Some(d) => (match str_member(item@, "$ref"@) {
                Some(p) => json_member(definitions@, ref_name(p)),
                None => None,
            }) == Some(d@),
            None => (match str_member(item@, "$ref"@) {
                Some(p) => json_member(definitions@, ref_name(p)),
                None => None,
            }) is None,
        },
{
    match get_str_member(item, "$ref") {
        Some(p) => {
            let name = strip_definitions_prefix(p.as_str());
            json_get(definitions, name.as_str())
        },
        None => None,
    }
}

/// The schema that `schema` resolves to against `definitions` (see
/// `resolved_schema`), as JSON text.
pub fn resolve_ref(schema: &str, definitions: &str) -> (r: String)
    ensures
        r@ == resolved_schema(schema@, definitions@),
{
    if let Some(p) = get_str_member(schema, "$ref") {
        let name = strip_definitions_prefix(p.as_str());
        return match json_get(definitions, name.as_str()) {
            Some(d) => d,
            None => schema.to_owned(),
        };
    }
    let items = match json_get(schema, "allOf") {
        Some(a) => json_array_items(a.as_str()),
        None => None,
    };
    if let Some(items) = items {
        let ghost iv = string_views(items@);
        assert(items@.map_values(|s: String| s@) =~= iv);
        let mut k: usize = 0;
        assert(iv.skip(0) =~= iv);
        assert(resolved_schema(schema@, definitions@) == match first_all_of_ref(iv, definitions@) {
            Some(d) => d,
            None => schema@,
        });
        while k < items.len()
            invariant
                k <= items@.len(),
                iv == string_views(items@),
                resolved_schema(schema@, definitions@) == match first_all_of_ref(iv, definitions@) {
                    Some(d) => d,
                    None => schema@,
                },
                first_all_of_ref(iv, definitions@) == first_all_of_ref(iv.skip(k as int), definitions@),
            decreases items.len() - k,
        {
            proof {
                let t = iv.skip(k as int);
                assert(t[0] == items@[k as int]@);
                assert(t.drop_first() =~= iv.skip(k + 1));
            }
            if let Some(d) = referenced_definition(items[k].as_str(), definitions) {
                return d;
            }
            k = k + 1;
        }
        assert(iv.skip(k as int).len() == 0);
    }
    schema.to_owned()
}

/// The `type` a schema declares, `"string"` when it declares none.
pub fn schema_type(schema: &str) -> (r: String)
    ensures
        r@ == match str_member(schema@, "type"@) {
            Some(t) => t,
            None => "string"@,
        },
{
    match get_str_member(schema, "type") {
        Some(t) => t,
        None => "string".to_owned(),
    }
}

} // verus!
