//! JSON values held as text.
//!
//! The crate keeps JSON values (tool-call arguments, schemas) as their
//! compact JSON text. Reading that text goes through `serde_json`: these
//! trusted wrappers parse it into a `serde_json::Value` and hand back plain
//! strings.

use vstd::prelude::*;

use crate::message::opt_str;

verus! {

/// The compact rendering of the JSON value that `raw` parses to, or `None`
/// when `raw` is not JSON.
pub uninterp spec fn json_reencoded(raw: Seq<char>) -> Option<Seq<char>>;

/// The members (key and compact rendering of the value, in the order of
/// `serde_json::Map`) of the JSON object that `text` parses to, or `None`
/// when it is not an object.
pub uninterp spec fn json_object_members(text: Seq<char>) -> Option<Seq<(Seq<char>, Seq<char>)>>;

/// The contents of the JSON string that `text` parses to, or `None` when it
/// is not a string.
pub uninterp spec fn json_string_contents(text: Seq<char>) -> Option<Seq<char>>;

/// The JSON string literal (quoted and escaped) for `s`.
pub uninterp spec fn json_string_literal(s: Seq<char>) -> Seq<char>;

/// The views of a vector of string pairs.
pub open spec fn pair_views(v: Seq<(String, String)>) -> Seq<(Seq<char>, Seq<char>)> {
    v.map_values(|p: (String, String)| (p.0@, p.1@))
}

/// Parse `raw` with `serde_json::from_str` into a `serde_json::Value` and
/// render it back with the value's `Display` (compact JSON). Claimed: the
/// result is `json_reencoded(raw)`, a function of the text alone; what that
/// rendering looks like is not stated.
#[verifier::external_body]
pub(crate) fn reencode_json(raw: &str) -> (r: Option<String>)
    ensures
        opt_str(r) == json_reencoded(raw@),
{
    match serde_json::from_str::<serde_json::Value>(raw) {
        Ok(value) => Some(value.to_string()),
        Err(_) => None,
    }
}

/// Parse `text` with `serde_json::from_str` and, when it is a
/// `serde_json::Value::Object`, list its members with each value rendered
/// by `Display`. Claimed: the result is `json_object_members(text)`.
#[verifier::external_body]
pub(crate) fn object_members(text: &str) -> (r: Option<Vec<(String, String)>>)
    ensures
        r matches Some(v) ==> json_object_members(text@) == Some(pair_views(v@)),
        r is None ==> json_object_members(text@) is None,
{
    match serde_json::from_str::<serde_json::Value>(text) {
        Ok(serde_json::Value::Object(map)) => {
            let mut members = Vec::new();
            for (key, value) in map {
                members.push((key, value.to_string()));
            }
            Some(members)
        },
        _ => None,
    }
}

/// Parse `text` with `serde_json::from_str` and, when it is a
/// `serde_json::Value::String`, return its contents. Claimed: the result is
/// `json_string_contents(text)`.
#[verifier::external_body]
pub(crate) fn string_contents(text: &str) -> (r: Option<String>)
    ensures
        opt_str(r) == json_string_contents(text@),
{
    match serde_json::from_str::<serde_json::Value>(text) {
        Ok(serde_json::Value::String(s)) => Some(s),
        _ => None,
    }
}

/// Render `s` as a JSON string literal: a `serde_json::Value::String`
/// displayed with `Display`. Claimed: the result is
/// `json_string_literal(s)`.
#[verifier::external_body]
pub(crate) fn quote(s: &str) -> (r: String)
    ensures
        r@ == json_string_literal(s@),
{
    serde_json::Value::String(s.to_owned()).to_string()
}

} // verus!
