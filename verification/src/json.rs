//! Reading answers of the GitHub CLI, which come as JSON text, with `serde_json`.
use vstd::prelude::*;

verus! {

/// What `serde_json` reads from `json` for the member `key` of the top-level object:
/// the parse error's message when `json` is not JSON, no text when the member is
/// missing or not a string, else the member's text.
pub uninterp spec fn json_member_text(json: Seq<char>, key: Seq<char>) -> Result<Option<Seq<char>>, Seq<char>>;

/// The views of a member read.
pub open spec fn member_view(r: Result<Option<String>, String>) -> Result<Option<Seq<char>>, Seq<char>> {
    match r {
        Ok(Some(s)) => Ok(Some(s@)),
        Ok(None) => Ok(None),
        Err(e) => Err(e@),
    }
}

/// Parses `json` with `serde_json::from_str` into a `serde_json::Value` and reads the
/// member `key` as text (`Value::get`, then `Value::as_str`). The contract only
/// names the result: the same text and key give the same answer.
#[verifier::external_body]
pub(crate) fn member_text(json: &str, key: &str) -> (r: Result<Option<String>, String>)
    ensures
        member_view(r) == json_member_text(json@, key@),
{
    match serde_json::from_str::<serde_json::Value>(json) {
        Ok(v) => Ok(v.get(key).and_then(serde_json::Value::as_str).map(String::from)),
        Err(e) => Err(e.to_string()),
    }
}

/// What `serde_json` reads from `json` for the member `key` of the first item of a
/// top-level array, as an unsigned integer: none when the text is not JSON, not an
/// array, empty, or the member is missing or not such a number.
pub uninterp spec fn json_first_member_u64(json: Seq<char>, key: Seq<char>) -> Option<u64>;

/// The same for a member that is text.
pub uninterp spec fn json_first_member_text(json: Seq<char>, key: Seq<char>) -> Option<Seq<char>>;

/// The number of items of the top-level array: none when the text is not JSON or
/// not an array.
pub uninterp spec fn json_array_len(json: Seq<char>) -> Option<nat>;

/// Parses `json` with `serde_json::from_str` and reads the member `key` of the
/// first array item with `Value::as_u64`. The contract only names the result.
#[verifier::external_body]
pub(crate) fn first_member_u64(json: &str, key: &str) -> (r: Option<u64>)
    ensures
        r == json_first_member_u64(json@, key@),
{
    let v: serde_json::Value = serde_json::from_str(json).ok()?;
    v.as_array()?.first()?.get(key)?.as_u64()
}

/// Parses `json` with `serde_json::from_str` and reads the member `key` of the
/// first array item with `Value::as_str`. The contract only names the result.
#[verifier::external_body]
pub(crate) fn first_member_text(json: &str, key: &str) -> (r: Option<String>)
    ensures
        match r {
            None => json_first_member_text(json@, key@) is None,
            Some(t) => json_first_member_text(json@, key@) == Some(t@),
        },
{
    let v: serde_json::Value = serde_json::from_str(json).ok()?;
    v.as_array()?.first()?.get(key)?.as_str().map(String::from)
}

/// Parses `json` with `serde_json::from_str` and counts the items of the array
/// (`Value::as_array`). The contract only names the result.
#[verifier::external_body]
pub(crate) fn array_len(json: &str) -> (r: Option<usize>)
    ensures
        match r {
            None => json_array_len(json@) is None,
            Some(n) => json_array_len(json@) == Some(n as nat),
        },
{
    let v: serde_json::Value = serde_json::from_str(json).ok()?;
    Some(v.as_array()?.len())
}

/// What `serde_json` reads from `json` for the member `key` of the first item of the
/// array held by the member `list` of the top-level object, as text: none when the
/// text is not JSON or anything on the way is missing or of another kind.
pub uninterp spec fn json_first_listed_text(json: Seq<char>, list: Seq<char>, key: Seq<char>) -> Option<Seq<char>>;

/// Parses `json` with `serde_json::from_str` and reads `json[list][0][key]` as text
/// (`Value::get`, `Value::as_array`, `Value::as_str`). The contract only names the
/// result.
#[verifier::external_body]
pub(crate) fn first_listed_text(json: &str, list: &str, key: &str) -> (r: Option<String>)
    ensures
        match r {
            None => json_first_listed_text(json@, list@, key@) is None,
            Some(t) => json_first_listed_text(json@, list@, key@) == Some(t@),
        },
{
    let v: serde_json::Value = serde_json::from_str(json).ok()?;
    v.get(list)?.as_array()?.first()?.get(key)?.as_str().map(String::from)
}

} // verus!
