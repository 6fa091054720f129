//! Reading the answers of upstream servers reached over HTTP, and the
//! lists that discovery answers carry.

use vstd::prelude::*;
use crate::json::{json_member, member};
use crate::protocol::cache::{json_text_of, to_json_string};
use crate::text::StringExecFns;

verus! {

/// The text of a JSON value as `serde_json` writes it (empty where writing
/// fails).
pub open spec fn value_text(v: serde_json::Value) -> Seq<char> {
    match json_text_of(v) {
        Some(t) => t,
        None => Seq::empty(),
    }
}

/// The failure text of an upstream error answer to `method`.
pub open spec fn upstream_error_message(method: Seq<char>, error: serde_json::Value) -> Seq<char> {
    "Upstream error ("@ + method + "): "@ + value_text(error)
}

/// The failure text of an answer to `method` with neither a result nor an
/// error.
pub open spec fn invalid_answer_message(method: Seq<char>) -> Seq<char> {
    "Invalid response from upstream ("@ + method + ")"@
}

/// What an HTTP answer to `method` gives: the member under `result`;
/// failing that, the text of the member under `error`; failing both, the
/// invalid-answer text.
pub open spec fn http_answer_of(method: Seq<char>, body: serde_json::Value) -> Result<serde_json::Value, Seq<char>> {
    match json_member(body, "result"@) {
        Some(r) => Ok(r),
        None => match json_member(body, "error"@) {
            Some(e) => Err(upstream_error_message(method, e)),
            None => Err(invalid_answer_message(method)),
        },
    }
}

/// The text of a JSON value as `serde_json` writes it.
pub fn value_json(v: &serde_json::Value) -> (r: String)
    ensures
        r@ == value_text(*v),
{
    match to_json_string(v) {
        Ok(t) => t,
        Err(_) => String::new(),
    }
}

/// Reads an HTTP answer to `method`: its result, or the text of its
/// failure.
pub fn http_answer(method: &str, body: &serde_json::Value) -> (r: Result<serde_json::Value, String>)
    ensures
        match r {
            Ok(v) => http_answer_of(method@, *body) == Ok::<serde_json::Value, Seq<char>>(v),
            Err(e) => http_answer_of(method@, *body) == Err::<serde_json::Value, Seq<char>>(e@),
        },
{
    match member(body, "result") {
        Some(result) => Ok(result),
        None => match member(body, "error") {
            Some(error) => {
                let mut t = String::from_str("Upstream error (");
                t.append(method);
                t.append("): ");
                let e = value_json(&error);
                t.append(e.as_str());
                Err(t)
            },
            None => {
                let mut t = String::from_str("Invalid response from upstream (");
                t.append(method);
                t.append(")");
                Err(t)
            },
        },
    }
}

/// The list under `key` (`tools`, `resources` or `prompts`) of a listing's
/// result, if it has one.
pub fn listed_items(result: &serde_json::Value, key: &str) -> (r: Option<serde_json::Value>)
    ensures
        r == json_member(*result, key@),
{
    member(result, key)
}

} // verus!
