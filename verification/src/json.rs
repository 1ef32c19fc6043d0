//! What the sources read out of JSON replies.

use vstd::prelude::*;

verus! {

/// A JSON document in its compact form, nothing where the bytes are no JSON.
pub uninterp spec fn json_text(body: Seq<u8>) -> Option<Seq<char>>;

/// `serde_json::from_slice` into a `serde_json::Value`, printed compactly.
/// Claimed: the text depends on the bytes alone.
#[verifier::external_body]
pub(crate) fn compact_json(body: &[u8]) -> (r: Option<String>)
    ensures
        r.deep_view() == json_text(body@),
{
    serde_json::from_slice::<serde_json::Value>(body).ok().map(|v| v.to_string())
}

/// The text that a JSON document holds at a key: nothing where the bytes are no
/// JSON, the key is not there, or something else stands there.
pub uninterp spec fn json_string_at(body: Seq<u8>, key: Seq<char>) -> Option<Seq<char>>;

/// Indexing a `serde_json::Value` and `Value::as_str`. Claimed: the text depends on
/// the bytes and the key alone, and there is none where the bytes are no JSON.
#[verifier::external_body]
pub(crate) fn string_at(body: &[u8], key: &str) -> (r: Option<String>)
    ensures
        r.deep_view() == json_string_at(body@, key@),
        json_text(body@) is None ==> r is None,
{
    let v: serde_json::Value = serde_json::from_slice(body).ok()?;
    v[key].as_str().map(|s| s.to_string())
}

/// What a JSON document holds at a key, in its compact form: `null` where there
/// is nothing, and nothing at all where the bytes are no JSON.
pub uninterp spec fn json_member_at(body: Seq<u8>, key: Seq<char>) -> Option<Seq<char>>;

/// Indexing a `serde_json::Value`, printed compactly. Claimed: the text depends on
/// the bytes and the key alone.
#[verifier::external_body]
pub(crate) fn member_at(body: &[u8], key: &str) -> (r: Option<String>)
    ensures
        r.deep_view() == json_member_at(body@, key@),
{
    let v: serde_json::Value = serde_json::from_slice(body).ok()?;
    Some(v[key].to_string())
}

/// The elements of the list that a JSON document holds at a key, each in its
/// compact form; nothing where there is no list.
pub uninterp spec fn json_elements_at(body: Seq<u8>, key: Seq<char>) -> Option<Seq<Seq<char>>>;

/// Indexing a `serde_json::Value` and `Value::as_array`, each element printed
/// compactly. Claimed: the texts depend on the bytes and the key alone.
#[verifier::external_body]
pub(crate) fn elements_at(body: &[u8], key: &str) -> (r: Option<Vec<String>>)
    ensures
        r.deep_view() == json_elements_at(body@, key@),
{
    let v: serde_json::Value = serde_json::from_slice(body).ok()?;
    v[key].as_array().map(|list| list.iter().map(|x| x.to_string()).collect())
}

} // verus!
