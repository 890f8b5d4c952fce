//! JSON values, as serde_json reads them from text.
use vstd::prelude::*;

verus! {

/// A JSON value. A number is kept as the text that serde_json writes for it;
/// the members of an object come in the order of their keys, one member per key.
#[derive(Debug)]
pub enum JsonValue {
    /// `null`
    Null,
    /// `true` or `false`
    Bool(bool),
    /// A number, as its text.
    Number(String),
    /// A string.
    Str(String),
    /// An array.
    Array(Vec<JsonValue>),
    /// An object, as its members.
    Object(Vec<(String, JsonValue)>),
}

/// The value that serde_json reads from `text` as a `serde_json::Value`, or
/// `None` where `text` is no JSON document.
pub uninterp spec fn json_parse(text: Seq<char>) -> Option<JsonValue>;

#[verifier::external_type_specification]
#[verifier::external_body]
pub struct ExSerdeJsonValue(serde_json::Value);

/// Reads `text` with `serde_json::from_str::<serde_json::Value>`: the result is
/// the value that `json_parse` names for the text, or `None` where serde_json
/// reports an error.
#[verifier::external_body]
pub(crate) fn parse_json(text: &str) -> (r: Option<JsonValue>)
    ensures
        r == json_parse(text@),
{
    match serde_json::from_str::<serde_json::Value>(text) {
        Ok(v) => Some(from_serde_value(v)),
        Err(_) => None,
    }
}

/// Converts a `serde_json::Value` into a `JsonValue`, one variant into the
/// other, numbers by their text. The contract of `parse_json` speaks for it.
#[verifier::external_body]
fn from_serde_value(v: serde_json::Value) -> JsonValue {
    match v {
        serde_json::Value::Null => JsonValue::Null,
        serde_json::Value::Bool(b) => JsonValue::Bool(b),
        serde_json::Value::Number(n) => JsonValue::Number(n.to_string()),
        serde_json::Value::String(s) => JsonValue::Str(s),
        serde_json::Value::Array(a) => JsonValue::Array(a.into_iter().map(from_serde_value).collect()),
        serde_json::Value::Object(m) => JsonValue::Object(m.into_iter().map(|(k, v)| (k, from_serde_value(v))).collect()),
    }
}

} // verus!
