//! Fields of JSON documents.

use vstd::prelude::*;

verus! {

/// The string under `key` at the top level of the JSON document `body`, as `serde_json` reads it.
pub uninterp spec fn text_field_of_str(body: Seq<char>, key: Seq<char>) -> Option<Seq<char>>;

/// The string under `key` at the top level of the JSON document `body`, as `serde_json` reads it.
pub uninterp spec fn text_field_of_slice(body: Seq<u8>, key: Seq<char>) -> Option<Seq<char>>;

/// `serde_json::from_str` into a `serde_json::Value`, then `Value::get` and `Value::as_str`.
/// The result depends on the body and the key alone: none where the body is no JSON document,
/// where the document is no object, where the key is missing, or where its value is no string.
#[verifier::external_body]
pub(crate) fn str_text_field(body: &str, key: &str) -> (field: Option<String>)
    ensures
        crate::text::opt_text(field) == text_field_of_str(body@, key@),
{
    let document: serde_json::Value = serde_json::from_str(body).ok()?;
    document.get(key)?.as_str().map(str::to_owned)
}

/// `serde_json::from_slice` into a `serde_json::Value`, then `Value::get` and `Value::as_str`.
/// The result depends on the body and the key alone: none where the body is no JSON document,
/// where the document is no object, where the key is missing, or where its value is no string.
#[verifier::external_body]
pub(crate) fn slice_text_field(body: &[u8], key: &str) -> (field: Option<String>)
    ensures
        crate::text::opt_text(field) == text_field_of_slice(body@, key@),
{
    let document: serde_json::Value = serde_json::from_slice(body).ok()?;
    document.get(key)?.as_str().map(str::to_owned)
}

} // verus!
