//! The JSON reading the library needs, done by `serde_json`.
use vstd::prelude::*;

use crate::config::{spairs, Pair};

verus! {

/// The entries of the top-level object of the JSON text `raw` (`None` when `raw` does not
/// parse or is not an object): each key with its value, a string value as its contents and
/// any other value as its JSON text. The parsing and printing are `serde_json`'s.
pub uninterp spec fn json_object_entries(raw: Seq<char>) -> Option<Seq<Pair>>;

/// Whether `raw` parses as a JSON value of any kind.
pub uninterp spec fn json_parses(raw: Seq<char>) -> bool;

/// The string value stored under `key` in the top-level object of `raw`, if `raw` parses,
/// is an object, and holds a string there.
pub uninterp spec fn json_str_member(raw: Seq<char>, key: Seq<char>) -> Option<Seq<char>>;

/// The unsigned integer value stored under `key` in the top-level object of `raw`, if `raw`
/// parses, is an object, and holds a non-negative integer that fits in `u64` there.
pub uninterp spec fn json_u64_member(raw: Seq<char>, key: Seq<char>) -> Option<u64>;

/// Parses `raw` with `serde_json::from_str` as a `serde_json::Value` and, for an object,
/// lists its entries: string values by their contents, other values through
/// `Value::to_string`. The contract names the result `json_object_entries(raw)`; it says
/// nothing of how `serde_json` parses or orders keys.
#[verifier::external_body]
pub(crate) fn json_flat_object(raw: &str) -> (res: Option<Vec<(String, String)>>)
    ensures
        match json_object_entries(raw@) {
            Some(ps) => res matches Some(v) && spairs(v@) == ps,
            None => res is None,
        },
{
    match serde_json::from_str::<serde_json::Value>(raw) {
        Ok(serde_json::Value::Object(map)) => Some(
            map.into_iter().map(
                |(k, v)|
                    match v {
                        serde_json::Value::String(s) => (k, s),
                        other => (k, other.to_string()),
                    },
            ).collect(),
        ),
        _ => None,
    }
}

/// Whether `serde_json::from_str::<serde_json::Value>(raw)` succeeds; the contract names the
/// answer `json_parses(raw)`.
#[verifier::external_body]
pub(crate) fn json_is_valid(raw: &str) -> (res: bool)
    ensures
        res == json_parses(raw@),
{
    serde_json::from_str::<serde_json::Value>(raw).is_ok()
}

/// `serde_json::from_str::<Value>(raw)` followed by `.get(key)` and `Value::as_str`; the
/// contract names the result `json_str_member(raw, key)`.
#[verifier::external_body]
pub(crate) fn json_str_field(raw: &str, key: &str) -> (res: Option<String>)
    ensures
        match json_str_member(raw@, key@) {
            Some(s) => res matches Some(x) && x@ == s,
            None => res is None,
        },
{
    serde_json::from_str::<serde_json::Value>(raw).ok().and_then(
        |v| v.get(key).and_then(|x| x.as_str().map(|s| s.to_string())),
    )
}

/// `serde_json::from_str::<Value>(raw)` followed by `.get(key)` and `Value::as_u64`; the
/// contract names the result `json_u64_member(raw, key)`.
#[verifier::external_body]
pub(crate) fn json_u64_field(raw: &str, key: &str) -> (res: Option<u64>)
    ensures
        res == json_u64_member(raw@, key@),
{
    serde_json::from_str::<serde_json::Value>(raw).ok().and_then(
        |v| v.get(key).and_then(|x| x.as_u64()),
    )
}

} // verus!
