//! JSON values: carried through the library, and read where the logic
//! needs a member, a string or an integer out of one.

use vstd::prelude::*;

verus! {

/// Declares `serde_json::Value` so that requests and results can pass
/// through the library. What is inside a value is seen only through the
/// names below, each the result of one `serde_json` call.
#[verifier::external_type_specification]
#[verifier::external_body]
pub struct ExJsonValue(serde_json::Value);

/// `serde_json::Value::clone` (a derived `Clone`) gives back an equal value.
pub assume_specification[ <serde_json::Value as Clone>::clone ](v: &serde_json::Value) -> (r: serde_json::Value)
    ensures
        r == *v,
;

/// What `serde_json::Value::get` finds under a key: the member of an
/// object, `None` for a missing key or a value that is not an object.
pub uninterp spec fn json_member(v: serde_json::Value, key: Seq<char>) -> Option<serde_json::Value>;

/// What `serde_json::Value::as_str` gives: the text of a JSON string,
/// `None` for any other value.
pub uninterp spec fn json_as_str(v: serde_json::Value) -> Option<Seq<char>>;

/// What `serde_json::Value::as_i64` gives: the number of a JSON integer
/// that fits in an `i64`, `None` for any other value.
pub uninterp spec fn json_as_i64(v: serde_json::Value) -> Option<i64>;

/// What `serde_json::Value::as_object` gives, as the object's members
/// (key, value) in the order its map walks them; `None` for a value that
/// is not an object.
pub uninterp spec fn json_object_entries(v: serde_json::Value) -> Option<Seq<(Seq<char>, serde_json::Value)>>;

/// What `serde_json::Value::as_array` gives: the elements of a JSON
/// array, `None` for any other value.
pub uninterp spec fn json_as_array(v: serde_json::Value) -> Option<Seq<serde_json::Value>>;

/// What `serde_json::from_str` reads out of a text: the value, or `None`
/// where the text is not one JSON value.
pub uninterp spec fn json_parse_of(text: Seq<char>) -> Option<serde_json::Value>;

/// The text of a string value, where the value is one.
pub open spec fn string_view(r: Option<String>) -> Option<Seq<char>> {
    match r {
        Some(s) => Some(s@),
        None => None,
    }
}

/// The string under `key` of an object, if there is one.
pub open spec fn json_string_member(v: serde_json::Value, key: Seq<char>) -> Option<Seq<char>> {
    match json_member(v, key) {
        Some(m) => json_as_str(m),
        None => None,
    }
}

/// The integer under `key` of an object, if there is one that fits in an
/// `i64`.
pub open spec fn json_i64_member(v: serde_json::Value, key: Seq<char>) -> Option<i64> {
    match json_member(v, key) {
        Some(m) => json_as_i64(m),
        None => None,
    }
}

/// The member under `key` (`serde_json::Value::get`), copied out.
#[verifier::external_body]
pub(crate) fn member(v: &serde_json::Value, key: &str) -> (r: Option<serde_json::Value>)
    ensures
        r == json_member(*v, key@),
{
    v.get(key).cloned()
}

/// The text of a JSON string (`serde_json::Value::as_str`), copied out.
#[verifier::external_body]
pub(crate) fn as_str(v: &serde_json::Value) -> (r: Option<String>)
    ensures
        string_view(r) == json_as_str(*v),
{
    v.as_str().map(|t| t.to_string())
}

/// The number of a JSON integer (`serde_json::Value::as_i64`).
#[verifier::external_body]
pub(crate) fn as_i64(v: &serde_json::Value) -> (r: Option<i64>)
    ensures
        r == json_as_i64(*v),
{
    v.as_i64()
}

/// The members of a JSON object (`serde_json::Value::as_object`), copied
/// out as (key, value) pairs in the order the map walks them.
#[verifier::external_body]
pub(crate) fn object_entries(v: &serde_json::Value) -> (r: Option<Vec<(String, serde_json::Value)>>)
    ensures
        match r {
            Some(e) => json_object_entries(*v) == Some(entry_models(e@)),
            None => json_object_entries(*v) is None,
        },
{
    v.as_object().map(|m| m.iter().map(|(k, x)| (k.clone(), x.clone())).collect())
}

/// The (key, value) pairs with each key taken by its text.
pub open spec fn entry_models(e: Seq<(String, serde_json::Value)>) -> Seq<(Seq<char>, serde_json::Value)> {
    e.map_values(|p: (String, serde_json::Value)| (p.0@, p.1))
}

/// The elements of a JSON array (`serde_json::Value::as_array`), copied
/// out.
#[verifier::external_body]
pub(crate) fn as_array(v: &serde_json::Value) -> (r: Option<Vec<serde_json::Value>>)
    ensures
        match r {
            Some(a) => json_as_array(*v) == Some(a@),
            None => json_as_array(*v) is None,
        },
{
    v.as_array().cloned()
}

/// Reads one JSON value out of a text (`serde_json::from_str`).
#[verifier::external_body]
pub(crate) fn parse_json(text: &str) -> (r: Option<serde_json::Value>)
    ensures
        r == json_parse_of(text@),
{
    serde_json::from_str(text).ok()
}

/// The string under `key` of an object, if there is one.
pub(crate) fn string_member(v: &serde_json::Value, key: &str) -> (r: Option<String>)
    ensures
        string_view(r) == json_string_member(*v, key@),
{
    match member(v, key) {
        Some(m) => as_str(&m),
        None => None,
    }
}

/// The integer under `key` of an object, if there is one that fits in an
/// `i64`.
pub(crate) fn i64_member(v: &serde_json::Value, key: &str) -> (r: Option<i64>)
    ensures
        r == json_i64_member(*v, key@),
{
    match member(v, key) {
        Some(m) => as_i64(&m),
        None => None,
    }
}

} // verus!
