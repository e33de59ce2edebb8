//! JSON text: parsing and compact serialization, done by `serde_json` and
//! reached through the trusted items below.
use vstd::prelude::*;

use crate::json::{Json, JsonValue};

verus! {

#[verifier::external_type_specification]
#[verifier::external_body]
pub struct ExSerdeValue(serde_json::Value);

/// The document that `serde_json::from_str::<Value>` reads from a text, or
/// its error's text. Numbers keep the text that `Number`'s `Display`
/// writes; object members keep their order.
pub uninterp spec fn json_parse_outcome(text: Seq<char>) -> Result<Json, Seq<char>>;

/// The text that `serde_json::to_string` writes for a document.
pub uninterp spec fn json_compact_text(v: Json) -> Seq<char>;

/// The document that `serde_json::from_slice::<Value>` reads from bytes, or
/// its error's text.
pub uninterp spec fn json_bytes_parse_outcome(bytes: Seq<u8>) -> Result<Json, Seq<char>>;

/// The text that `serde_json::to_string_pretty` writes for a document.
pub uninterp spec fn json_pretty_text(v: Json) -> Seq<char>;

/// Turns a `serde_json::Value` into the library's document, member by
/// member and element by element; numbers become their `Display` text.
#[verifier::external_body]
fn from_serde(v: serde_json::Value) -> JsonValue {
    match v {
        serde_json::Value::Null => JsonValue::Null,
        serde_json::Value::Bool(b) => JsonValue::Bool(b),
        serde_json::Value::Number(n) => JsonValue::Number(n.to_string()),
        serde_json::Value::String(s) => JsonValue::Str(s),
        serde_json::Value::Array(items) => JsonValue::Array(items.into_iter().map(from_serde).collect()),
        serde_json::Value::Object(map) => JsonValue::Object(
            map.into_iter().map(|(k, v)| (k, from_serde(v))).collect(),
        ),
    }
}

/// Turns the library's document into a `serde_json::Value`; a number whose
/// text `serde_json` does not read as a number becomes `null`.
#[verifier::external_body]
fn to_serde(v: &JsonValue) -> serde_json::Value {
    match v {
        JsonValue::Null => serde_json::Value::Null,
        JsonValue::Bool(b) => serde_json::Value::Bool(*b),
        JsonValue::Number(n) => n.parse::<serde_json::Number>().map(serde_json::Value::Number).unwrap_or(serde_json::Value::Null),
        JsonValue::Str(s) => serde_json::Value::String(s.clone()),
        JsonValue::Array(items) => serde_json::Value::Array(items.iter().map(to_serde).collect()),
        JsonValue::Object(fields) => serde_json::Value::Object(
            fields.iter().map(|(k, v)| (k.clone(), to_serde(v))).collect(),
        ),
    }
}

/// Calls `serde_json::from_str::<Value>` and converts the document; the
/// outcome is named `json_parse_outcome`.
#[verifier::external_body]
pub(crate) fn parse_json(text: &str) -> (r: Result<JsonValue, String>)
    ensures
        match r {
            Ok(v) => json_parse_outcome(text@) == Ok::<Json, Seq<char>>(v@),
            Err(e) => json_parse_outcome(text@) == Err::<Json, Seq<char>>(e@),
        },
{
    match serde_json::from_str::<serde_json::Value>(text) {
        Ok(v) => Ok(from_serde(v)),
        Err(err) => Err(err.to_string()),
    }
}

/// Calls `serde_json::to_string` on the converted document; the text is
/// named `json_compact_text`. Serializing a `Value` does not fail (its
/// keys are strings).
#[verifier::external_body]
pub(crate) fn to_json_string(v: &JsonValue) -> (r: String)
    ensures
        r@ == json_compact_text(v@),
{
    serde_json::to_string(&to_serde(v)).unwrap_or_default()
}

/// Calls `serde_json::from_slice::<Value>` and converts the document; the
/// outcome is named `json_bytes_parse_outcome`.
#[verifier::external_body]
pub(crate) fn parse_json_bytes(bytes: &[u8]) -> (r: Result<JsonValue, String>)
    ensures
        match r {
            Ok(v) => json_bytes_parse_outcome(bytes@) == Ok::<Json, Seq<char>>(v@),
            Err(e) => json_bytes_parse_outcome(bytes@) == Err::<Json, Seq<char>>(e@),
        },
{
    match serde_json::from_slice::<serde_json::Value>(bytes) {
        Ok(v) => Ok(from_serde(v)),
        Err(err) => Err(err.to_string()),
    }
}

/// Calls `serde_json::to_string_pretty` on the converted document; the text
/// is named `json_pretty_text`. Serializing a `Value` does not fail.
#[verifier::external_body]
pub(crate) fn to_json_pretty(v: &JsonValue) -> (r: String)
    ensures
        r@ == json_pretty_text(v@),
{
    serde_json::to_string_pretty(&to_serde(v)).unwrap_or_default()
}

} // verus!
