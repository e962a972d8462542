//! Reading single fields of JSON documents held as text.

use vstd::prelude::*;

verus! {

/// The string stored under `key` in the JSON object `text`, if `text` is a
/// JSON object whose `key` holds a string.
pub uninterp spec fn json_str_field(text: Seq<char>, key: Seq<char>) -> Option<Seq<char>>;

/// The unsigned integer stored under `key` in the JSON object `text`, if
/// `text` is a JSON object whose `key` holds an integer that fits in `u64`.
pub uninterp spec fn json_u64_field(text: Seq<char>, key: Seq<char>) -> Option<u64>;

/// `serde_json::from_str` into a `Value`, then `Value::get(key)` and
/// `Value::as_str`: the string under `key`, if any. The result is named,
/// not described: it depends on `text` and `key` alone.
#[verifier::external_body]
pub(crate) fn json_get_str(text: &str, key: &str) -> (r: Option<String>)
    ensures
        match r {
            Some(s) => json_str_field(text@, key@) == Some(s@),
            None => json_str_field(text@, key@) is None,
        },
{
    let value: serde_json::Value = serde_json::from_str(text).ok()?;
    let field = value.get(key)?.as_str()?;
    Some(field.to_owned())
}

/// `serde_json::from_str` into a `Value`, then `Value::get(key)` and
/// `Value::as_u64`: the unsigned integer under `key`, if any. The result is
/// named, not described: it depends on `text` and `key` alone.
#[verifier::external_body]
pub(crate) fn json_get_u64(text: &str, key: &str) -> (r: Option<u64>)
    ensures
        r == json_u64_field(text@, key@),
{
    let value: serde_json::Value = serde_json::from_str(text).ok()?;
    value.get(key)?.as_u64()
}

} // verus!

verus! {

/// The value stored under `key` in the JSON object `text`, written back as
/// compact JSON text, if `text` is a JSON object that has `key`.
pub uninterp spec fn json_member(text: Seq<char>, key: Seq<char>) -> Option<Seq<char>>;

/// The content of the JSON string `text`, if `text` is a JSON string.
pub uninterp spec fn json_string(text: Seq<char>) -> Option<Seq<char>>;

/// The elements of the JSON array `text`, each written back as compact
/// JSON text, if `text` is a JSON array.
pub uninterp spec fn json_items(text: Seq<char>) -> Option<Seq<Seq<char>>>;

/// The JSON document `text` pretty-printed, if `text` parses as JSON.
pub uninterp spec fn json_pretty(text: Seq<char>) -> Option<Seq<char>>;

/// `serde_json::from_str` into a `Value`, `Value::get(key)`, then
/// `to_string` of the member. Named, not described: it depends on `text`
/// and `key` alone.
#[verifier::external_body]
pub(crate) fn json_get(text: &str, key: &str) -> (r: Option<String>)
    ensures
        match r {
            Some(s) => json_member(text@, key@) == Some(s@),
            None => json_member(text@, key@) is None,
        },
{
    let value: serde_json::Value = serde_json::from_str(text).ok()?;
    Some(value.get(key)?.to_string())
}

/// `serde_json::from_str` into a `Value`, then `Value::as_str`. Named, not
/// described: it depends on `text` alone.
#[verifier::external_body]
pub(crate) fn json_as_str(text: &str) -> (r: Option<String>)
    ensures
        match r {
            Some(s) => json_string(text@) == Some(s@),
            None => json_string(text@) is None,
        },
{
    let value: serde_json::Value = serde_json::from_str(text).ok()?;
    Some(value.as_str()?.to_owned())
}

/// `serde_json::from_str` into a `Value`, then `Value::as_array`, each
/// element written back with `to_string`. Named, not described: it depends
/// on `text` alone.
#[verifier::external_body]
pub(crate) fn json_array_items(text: &str) -> (r: Option<Vec<String>>)
    ensures
        match r {
            Some(v) => json_items(text@) == Some(v@.map_values(|s: String| s@)),
            None => json_items(text@) is None,
        },
{
    let value: serde_json::Value = serde_json::from_str(text).ok()?;
    Some(value.as_array()?.iter().map(|item| item.to_string()).collect())
}

/// `serde_json::from_str` into a `Value`, then `to_string_pretty`. Named,
/// not described: it depends on `text` alone.
#[verifier::external_body]
pub(crate) fn json_to_pretty(text: &str) -> (r: Option<String>)
    ensures
        match r {
            Some(s) => json_pretty(text@) == Some(s@),
            None => json_pretty(text@) is None,
        },
{
    let value: serde_json::Value = serde_json::from_str(text).ok()?;
    serde_json::to_string_pretty(&value).ok()
}

/// Whether `text` is a JSON object.
pub uninterp spec fn json_object(text: Seq<char>) -> bool;

/// The JSON text of the string `s` (quoted and escaped).
pub uninterp spec fn json_quoted(s: Seq<char>) -> Seq<char>;

/// The JSON object `text` with its member `section` (created as an empty
/// object when absent) given a `disabled` array made of the JSON values
/// `items`, pretty-printed; other members stay as they were. `None` when
/// `text` is no object, `section` holds no object, or an item is no JSON.
pub uninterp spec fn json_with_disabled(text: Seq<char>, section: Seq<char>, items: Seq<Seq<char>>) -> Option<Seq<char>>;

/// `serde_json::from_str` into a `Value`, then `Value::is_object`. Named,
/// not described: it depends on `text` alone.
#[verifier::external_body]
pub(crate) fn json_is_object(text: &str) -> (b: bool)
    ensures
        b == json_object(text@),
{
    match serde_json::from_str::<serde_json::Value>(text) {
        Ok(v) => v.is_object(),
        Err(_) => false,
    }
}

/// `Value::String(s)` written with `to_string`: the JSON text of the
/// string `s`. Named, not described: it depends on `s` alone.
#[verifier::external_body]
pub(crate) fn json_quote(s: &str) -> (r: String)
    ensures
        r@ == json_quoted(s@),
{
    serde_json::Value::String(s.to_owned()).to_string()
}

/// `serde_json::from_str` of `text` and of each item, then on the object
/// `Map::entry(section).or_insert` of an empty object, `insert("disabled",
/// Value::Array(items))` into it, and `to_string_pretty`. Named, not
/// described: it depends on the arguments alone.
#[verifier::external_body]
pub(crate) fn json_set_disabled(text: &str, section: &str, items: &Vec<String>) -> (r: Option<String>)
    ensures
        match r {
            Some(t) => json_with_disabled(text@, section@, items@.map_values(|s: String| s@)) == Some(t@),
            None => json_with_disabled(text@, section@, items@.map_values(|s: String| s@)) is None,
        },
{
    let mut doc: serde_json::Value = serde_json::from_str(text).ok()?;
    let mut list: Vec<serde_json::Value> = Vec::new();
    for item in items {
        list.push(serde_json::from_str(item).ok()?);
    }
    let sec = doc.as_object_mut()?.entry(section.to_owned()).or_insert_with(|| serde_json::Value::Object(serde_json::Map::new()));
    sec.as_object_mut()?.insert("disabled".to_owned(), serde_json::Value::Array(list));
    serde_json::to_string_pretty(&doc).ok()
}

} // verus!
