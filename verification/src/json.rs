//! JSON values as the library meets them: carried through, and looked into
//! only through what `serde_json` tells of them.

use crate::strings::{opt_view, strings_view};
use vstd::prelude::*;

verus! {

/// A JSON value, carried through the library without being inspected.
#[verifier::external_type_specification]
#[verifier::external_body]
pub struct ExJsonValue(serde_json::Value);

/// The compact JSON text of a value, as its `Display` writes it.
pub uninterp spec fn json_text(v: serde_json::Value) -> Seq<char>;

/// `Clone` of `serde_json::Value` is derived: the copy is structurally the
/// same value, so it renders to the same JSON text.
pub assume_specification[ <serde_json::Value as Clone>::clone ](v: &serde_json::Value) -> (r:
    serde_json::Value)
    ensures
        json_text(r) == json_text(*v),
;

/// Makes `serde_json::Value::Null`, which renders as `null`.
#[verifier::external_body]
pub(crate) fn json_null() -> (v: serde_json::Value)
    ensures
        json_text(v) == seq!['n', 'u', 'l', 'l'],
{
    serde_json::Value::Null
}

/// The string that the JSON text `text` stands for, where it is the text of
/// a JSON string.
pub uninterp spec fn json_string(text: Seq<char>) -> Option<Seq<char>>;

/// Calls `Value::is_null`. Of all JSON values only null is written `null`.
#[verifier::external_body]
pub(crate) fn json_is_null(v: &serde_json::Value) -> (r: bool)
    ensures
        r == (json_text(*v) == seq!['n', 'u', 'l', 'l']),
{
    v.is_null()
}

/// Calls `Value::as_str`: the string, where the value is one.
#[verifier::external_body]
pub(crate) fn json_as_str(v: &serde_json::Value) -> (r: Option<String>)
    ensures
        opt_view(r) == json_string(json_text(*v)),
{
    match v.as_str() {
        Some(s) => Some(s.to_owned()),
        None => None,
    }
}

/// Writes a value with its `Display`, in compact JSON.
#[verifier::external_body]
pub(crate) fn json_to_string(v: &serde_json::Value) -> (r: String)
    ensures
        r@ == json_text(*v),
{
    v.to_string()
}

/// The JSON text of the member `key` of the object with the JSON text
/// `text`; `None` where `text` is no object or has no such member.
pub uninterp spec fn json_member(text: Seq<char>, key: Seq<char>) -> Option<Seq<char>>;

/// The JSON text of an optional value.
pub open spec fn opt_json_text(v: Option<serde_json::Value>) -> Option<Seq<char>> {
    match v {
        Some(x) => Some(json_text(x)),
        None => None,
    }
}

/// Calls `Value::get` with a key and copies the member found.
#[verifier::external_body]
pub(crate) fn json_get(v: &serde_json::Value, key: &str) -> (r: Option<serde_json::Value>)
    ensures
        opt_json_text(r) == json_member(json_text(*v), key@),
{
    match v.get(key) {
        Some(m) => Some(m.clone()),
        None => None,
    }
}

/// Calls `Value::is_object`. Of all JSON values only objects are written
/// with an opening brace.
#[verifier::external_body]
pub(crate) fn json_is_object(v: &serde_json::Value) -> (r: bool)
    ensures
        r == (json_text(*v).len() > 0 && json_text(*v)[0] == '{'),
{
    v.is_object()
}

/// The JSON text of the object whose members are the strings `values`
/// under the names `keys`, pair by pair; of two members with one name the
/// later one stays.
pub uninterp spec fn object_text(keys: Seq<Seq<char>>, values: Seq<Seq<char>>) -> Seq<char>;

/// Makes a JSON object of strings: collects the pairs of `keys` and `values`
/// into a `serde_json::Map` and wraps it in `Value::Object`.
#[verifier::external_body]
pub(crate) fn json_object(keys: &Vec<String>, values: &Vec<String>) -> (r: serde_json::Value)
    requires
        keys@.len() == values@.len(),
    ensures
        json_text(r) == object_text(strings_view(keys@), strings_view(values@)),
{
    let pairs = keys.iter().cloned().zip(values.iter().cloned().map(serde_json::Value::String));
    serde_json::Value::Object(pairs.collect())
}

} // verus!
