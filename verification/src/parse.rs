//! Parsing JSON and TOML text into documents, through `serde_json` and `toml`.
use vstd::prelude::*;
use crate::doc::Doc;

verus! {

#[verifier::external_type_specification]
#[verifier::external_body]
pub struct ExJsonValue(serde_json::Value);

#[verifier::external_type_specification]
#[verifier::external_body]
pub struct ExTomlValue(toml::Value);

/// The document that `serde_json` parses from the text (`None` when it is
/// not valid JSON).
pub uninterp spec fn json_text_doc(text: Seq<char>) -> Option<Doc>;

/// The document that `serde_json` parses from the bytes (`None` when they
/// are not valid UTF-8 JSON).
pub uninterp spec fn json_bytes_doc(b: Seq<u8>) -> Option<Doc>;

/// The document that `toml` parses from the text (`None` when it is not a
/// valid TOML document).
pub uninterp spec fn toml_text_doc(text: Seq<char>) -> Option<Doc>;

/// Trusted: a `serde_json::Value` as a document, one for one: null, boolean,
/// number (by its text), string, array and object (entries in the map's order).
#[verifier::external_body]
fn json_value_doc(v: &serde_json::Value) -> Doc {
    match v {
        serde_json::Value::Null => Doc::Null,
        serde_json::Value::Bool(b) => Doc::Bool(*b),
        serde_json::Value::Number(n) => Doc::Scalar(n.to_string()),
        serde_json::Value::String(s) => Doc::Str(s.clone()),
        serde_json::Value::Array(items) => Doc::Array(items.iter().map(json_value_doc).collect()),
        serde_json::Value::Object(m) => Doc::Object(m.iter().map(|(k, x)| (k.clone(), json_value_doc(x))).collect()),
    }
}

/// Trusted: a `toml::Value` as a document, one for one: string, integer,
/// float and date-time (by their text), boolean, array and table (entries in
/// the table's order).
#[verifier::external_body]
fn toml_value_doc(v: &toml::Value) -> Doc {
    match v {
        toml::Value::String(s) => Doc::Str(s.clone()),
        toml::Value::Integer(i) => Doc::Scalar(i.to_string()),
        toml::Value::Float(f) => Doc::Scalar(f.to_string()),
        toml::Value::Boolean(b) => Doc::Bool(*b),
        toml::Value::Datetime(d) => Doc::Scalar(d.to_string()),
        toml::Value::Array(items) => Doc::Array(items.iter().map(toml_value_doc).collect()),
        toml::Value::Table(t) => Doc::Object(t.iter().map(|(k, x)| (k.clone(), toml_value_doc(x))).collect()),
    }
}

/// Trusted: `serde_json::from_str::<serde_json::Value>`. The contract names
/// its result: the same text always gives the same document (the parser is
/// deterministic and its maps are ordered); which texts parse is not stated.
#[verifier::external_body]
pub(crate) fn serde_json_from_str(text: &str) -> (r: Option<Doc>)
    ensures
        r == json_text_doc(text@),
{
    match serde_json::from_str::<serde_json::Value>(text) {
        Ok(v) => Some(json_value_doc(&v)),
        Err(_) => None,
    }
}

/// Trusted: `serde_json::from_slice::<serde_json::Value>`, its result named
/// as for the text form.
#[verifier::external_body]
pub(crate) fn serde_json_from_slice(b: &[u8]) -> (r: Option<Doc>)
    ensures
        r == json_bytes_doc(b@),
{
    match serde_json::from_slice::<serde_json::Value>(b) {
        Ok(v) => Some(json_value_doc(&v)),
        Err(_) => None,
    }
}

/// Trusted: `<toml::Value as FromStr>::from_str`, i.e. `toml::from_str` of a
/// whole document. The contract names its result: the same text always gives
/// the same document; which texts parse is not stated.
#[verifier::external_body]
pub(crate) fn toml_from_str(text: &str) -> (r: Option<Doc>)
    ensures
        r == toml_text_doc(text@),
{
    match text.parse::<toml::Value>() {
        Ok(v) => Some(toml_value_doc(&v)),
        Err(_) => None,
    }
}

/// The JSON document of the text; `None` when it is not valid JSON.
pub fn parse_json(text: &str) -> (r: Option<Doc>)
    ensures
        r == json_text_doc(text@),
{
    serde_json_from_str(text)
}

} // verus!
