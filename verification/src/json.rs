//! The JSON reads the library makes, behind `serde_json`.

use vstd::prelude::*;

verus! {

/// What `serde_json` reads as the string under `key` of the JSON object in
/// `text` (`None` when `text` is not JSON, not an object, has no such key,
/// or the value there is not a string).
pub uninterp spec fn json_str_field(text: Seq<char>, key: Seq<char>) -> Option<Seq<char>>;

/// For JSON text that `serde_json` reads as an array: whether each element
/// is an object, in order (`None` when `text` is not a JSON array).
pub uninterp spec fn json_object_flags(text: Seq<char>) -> Option<Seq<bool>>;

/// Parses `text` with `serde_json::from_str::<serde_json::Value>` and reads
/// the member `key` with `Value::get` and `Value::as_str`. The contract ties
/// the result to `json_str_field` of the two arguments and claims nothing
/// else of serde_json.
#[verifier::external_body]
pub fn str_field(text: &str, key: &str) -> (r: Option<String>)
    ensures
        match r {
            Some(v) => json_str_field(text@, key@) == Some(v@),
            None => json_str_field(text@, key@) is None,
        },
{
    let v: serde_json::Value = serde_json::from_str(text).ok()?;
    v.get(key)?.as_str().map(|s| s.to_string())
}

/// Parses `text` with `serde_json::from_str::<Vec<serde_json::Value>>` and
/// maps each element to `Value::is_object`. The contract ties the result to
/// `json_object_flags` of the argument and claims nothing else.
#[verifier::external_body]
pub fn object_flags(text: &str) -> (r: Option<Vec<bool>>)
    ensures
        match r {
            Some(v) => json_object_flags(text@) == Some(v@),
            None => json_object_flags(text@) is None,
        },
{
    let v: Vec<serde_json::Value> = serde_json::from_str(text).ok()?;
    Some(v.iter().map(|e| e.is_object()).collect())
}

/// The error `serde_json` reports (its `Display` text) when `text` is not
/// one JSON value, `None` when it parses.
pub uninterp spec fn json_error(text: Seq<char>) -> Option<Seq<char>>;

/// The compact JSON text `serde_json` prints for the member `key` of the
/// JSON object in `text` (`None` when `text` is not JSON, not an object, or
/// has no such member).
pub uninterp spec fn json_member(text: Seq<char>, key: Seq<char>) -> Option<Seq<char>>;

/// The entries, in key order, of the JSON object in `text` read as a map
/// from strings to strings (`None` when `text` is not such an object).
pub uninterp spec fn json_string_map(text: Seq<char>) -> Option<Seq<(Seq<char>, Seq<char>)>>;

/// The views of a list of string pairs.
pub open spec fn pair_views(v: Seq<(String, String)>) -> Seq<(Seq<char>, Seq<char>)> {
    v.map_values(|p: (String, String)| (p.0@, p.1@))
}

/// Parses `text` with `serde_json::from_str::<serde_json::Value>` and
/// returns the error's `Display` text. The contract ties the result to
/// `json_error` of the argument and claims nothing else.
#[verifier::external_body]
pub fn parse_error(text: &str) -> (r: Option<String>)
    ensures
        match r {
            Some(e) => json_error(text@) == Some(e@),
            None => json_error(text@) is None,
        },
{
    serde_json::from_str::<serde_json::Value>(text).err().map(|e| e.to_string())
}

/// Parses `text` with `serde_json::from_str::<serde_json::Value>`, reads
/// the member `key` with `Value::get` and prints it with `to_string`. The
/// contract ties the result to `json_member` of the two arguments.
#[verifier::external_body]
pub fn member(text: &str, key: &str) -> (r: Option<String>)
    ensures
        match r {
            Some(m) => json_member(text@, key@) == Some(m@),
            None => json_member(text@, key@) is None,
        },
{
    let v: serde_json::Value = serde_json::from_str(text).ok()?;
    Some(v.get(key)?.to_string())
}

/// Parses `text` with `serde_json::from_str` into a
/// `BTreeMap<String, String>` and lists its entries. The contract ties the
/// result to `json_string_map` of the argument.
#[verifier::external_body]
pub fn string_map(text: &str) -> (r: Option<Vec<(String, String)>>)
    ensures
        match r {
            Some(v) => json_string_map(text@) == Some(pair_views(v@)),
            None => json_string_map(text@) is None,
        },
{
    let m: std::collections::BTreeMap<String, String> = serde_json::from_str(text).ok()?;
    Some(m.into_iter().collect())
}

} // verus!
