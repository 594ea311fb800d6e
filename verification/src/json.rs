//! JSON documents, as far as the client list needs them.
//!
//! Parsing is `serde_json`'s work. A parsed document is a
//! `serde_json::Value`, which the verifier cannot look into; contracts speak
//! of it through `json_model`, its shape as a mathematical value. The
//! functions at the end of this file are the only ones that touch a
//! `serde_json::Value`, and their contracts are taken on trust.

use vstd::prelude::*;

verus! {

/// `serde_json::Value`, a parsed JSON document. Nothing of its inside is
/// visible to the verifier.
#[verifier::external_type_specification]
#[verifier::external_body]
pub struct ExJsonValue(serde_json::Value);

/// `serde_json::Error`, the reason for which a text was not accepted as
/// JSON. Nothing of its inside is visible to the verifier.
#[verifier::external_type_specification]
#[verifier::external_body]
pub struct ExJsonError(serde_json::Error);

/// The shape of a JSON document.
pub enum JsonModel {
    /// `null`.
    Null,
    /// `true` or `false`.
    Bool(bool),
    /// A number that is held as an unsigned integer: one written without
    /// sign, fraction or exponent, and below 2^64.
    Unsigned(u64),
    /// Any other number.
    OtherNumber,
    /// A string, by its characters.
    Text(Seq<char>),
    /// An array, by its elements in order.
    Array(Seq<JsonModel>),
    /// An object, by its members.
    Object(Map<Seq<char>, JsonModel>),
}

/// The shape of a parsed document.
pub uninterp spec fn json_model(v: serde_json::Value) -> JsonModel;

/// The shape of the document that a text stands for, or `None` where
/// `serde_json` does not accept the text.
pub uninterp spec fn parsed_document(bytes: Seq<u8>) -> Option<JsonModel>;

/// The shapes of a list of parsed documents.
pub open spec fn models_of(items: Seq<serde_json::Value>) -> Seq<JsonModel> {
    Seq::new(items.len(), |i: int| json_model(items[i]))
}

/// The member `key` of an object; `None` where the document is no object or
/// the object has no such member.
pub open spec fn member_of(doc: JsonModel, key: Seq<char>) -> Option<JsonModel> {
    match doc {
        JsonModel::Object(members) => if members.contains_key(key) {
            Some(members[key])
        } else {
            None
        },
        _ => None,
    }
}

/// The elements of an array; `None` where the document is no array.
pub open spec fn elements_of(doc: JsonModel) -> Option<Seq<JsonModel>> {
    match doc {
        JsonModel::Array(items) => Some(items),
        _ => None,
    }
}

/// The characters of a string; `None` where the document is no string.
pub open spec fn text_of(doc: JsonModel) -> Option<Seq<char>> {
    match doc {
        JsonModel::Text(t) => Some(t),
        _ => None,
    }
}

/// The value of a non-negative integer below 2^64; `None` where the
/// document is anything else.
pub open spec fn unsigned_of(doc: JsonModel) -> Option<u64> {
    match doc {
        JsonModel::Unsigned(n) => Some(n),
        _ => None,
    }
}

/// Calls `serde_json::from_slice` for a `serde_json::Value`. Trusted: the
/// outcome depends on the bytes alone; `parsed_document` names the shape of
/// the document that comes back, and is `None` exactly where the call fails.
#[verifier::external_body]
pub(crate) fn parse_document(bytes: &[u8]) -> (r: Result<serde_json::Value, serde_json::Error>)
    ensures
        match r {
            Ok(doc) => parsed_document(bytes@) == Some(json_model(doc)),
            Err(_) => parsed_document(bytes@) is None,
        },
{
    serde_json::from_slice::<serde_json::Value>(bytes)
}

/// Calls `serde::de::Error::custom` for a `serde_json::Error`, which makes
/// the error that a typed read of a document gives, with `message` for its
/// text. Nothing is claimed of the error.
#[verifier::external_body]
pub(crate) fn shape_error(message: &str) -> serde_json::Error {
    serde::de::Error::custom(message)
}

/// Calls `serde_json::Value::as_array`. Trusted: it hands out the elements
/// of an array, in order, and `None` for any other document.
#[verifier::external_body]
pub(crate) fn array_items(doc: &serde_json::Value) -> (r: Option<&Vec<serde_json::Value>>)
    ensures
        match r {
            Some(items) => elements_of(json_model(*doc)) == Some(models_of(items@)),
            None => elements_of(json_model(*doc)) is None,
        },
{
    doc.as_array()
}

/// Calls `serde_json::Value::get` with a string key. Trusted: it hands out
/// the member of that name of an object, and `None` where the document is no
/// object or has no such member.
#[verifier::external_body]
pub(crate) fn member<'a>(doc: &'a serde_json::Value, key: &str) -> (r: Option<
    &'a serde_json::Value,
>)
    ensures
        match r {
            Some(found) => member_of(json_model(*doc), key@) == Some(json_model(*found)),
            None => member_of(json_model(*doc), key@) is None,
        },
{
    doc.get(key)
}

/// Calls `serde_json::Value::as_str`. Trusted: it hands out the characters
/// of a string, and `None` for any other document.
#[verifier::external_body]
pub(crate) fn text<'a>(doc: &'a serde_json::Value) -> (r: Option<&'a str>)
    ensures
        match r {
            Some(t) => text_of(json_model(*doc)) == Some(t@),
            None => text_of(json_model(*doc)) is None,
        },
{
    doc.as_str()
}

/// Calls `serde_json::Value::as_u64`. Trusted: it hands out the value of a
/// number that is a non-negative integer below 2^64, and `None` for any
/// other document.
#[verifier::external_body]
pub(crate) fn unsigned(doc: &serde_json::Value) -> (r: Option<u64>)
    ensures
        r == unsigned_of(json_model(*doc)),
{
    doc.as_u64()
}

} // verus!
