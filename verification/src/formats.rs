//! Reading manifest texts: TOML through the `toml` crate and JSON through
//! `serde_json`, each read as the library's plain document tree, and JSON
//! written back in `serde_json`'s pretty form.
use vstd::prelude::*;
use crate::docmodel::{JsonValue, JsonView, TomlValue};

verus! {

#[verifier::external_type_specification]
#[verifier::external_body]
pub struct ExTomlValue(toml::Value);

#[verifier::external_type_specification]
#[verifier::external_body]
pub struct ExJsonValue(serde_json::Value);

/// The document that `toml::from_str` parses from a text, as a tree (tables
/// in the crate's key order), if the text is valid TOML.
pub uninterp spec fn parsed_toml(text: Seq<char>) -> Option<TomlValue>;

/// The value that `serde_json::from_str` parses from a text, as a tree
/// (objects in the crate's key order), if the text is valid JSON.
pub uninterp spec fn parsed_json(text: Seq<char>) -> Option<JsonValue>;

/// The text that `serde_json::to_string_pretty` makes of a value.
pub uninterp spec fn pretty_json(v: JsonView) -> Seq<char>;

/// Reads a `toml::Value` as a tree, variant for variant: a float keeps its
/// bit pattern and a date-time its text.
#[verifier::external_body]
fn toml_tree(v: &toml::Value) -> TomlValue {
    match v {
        toml::Value::String(s) => TomlValue::String(s.clone()),
        toml::Value::Integer(i) => TomlValue::Integer(*i),
        toml::Value::Float(x) => TomlValue::Float(x.to_bits()),
        toml::Value::Boolean(b) => TomlValue::Boolean(*b),
        toml::Value::Datetime(d) => TomlValue::Datetime(d.to_string()),
        toml::Value::Array(a) => TomlValue::Array(a.iter().map(toml_tree).collect()),
        toml::Value::Table(t) => TomlValue::Table(t.iter().map(|(k, x)| (k.clone(), toml_tree(x))).collect()),
    }
}

/// Reads a `serde_json::Value` as a tree, variant for variant: a number
/// keeps its decimal text.
#[verifier::external_body]
fn json_tree(v: &serde_json::Value) -> JsonValue {
    match v {
        serde_json::Value::Null => JsonValue::Null,
        serde_json::Value::Bool(b) => JsonValue::Bool(*b),
        serde_json::Value::Number(n) => JsonValue::Number(n.to_string()),
        serde_json::Value::String(s) => JsonValue::String(s.clone()),
        serde_json::Value::Array(a) => JsonValue::Array(a.iter().map(json_tree).collect()),
        serde_json::Value::Object(m) => JsonValue::Object(m.iter().map(|(k, x)| (k.clone(), json_tree(x))).collect()),
    }
}

/// Makes a `serde_json::Value` of a tree, variant for variant: a number is
/// read back from its decimal text.
#[verifier::external_body]
fn json_value_of(v: &JsonValue) -> serde_json::Value {
    match v {
        JsonValue::Null => serde_json::Value::Null,
        JsonValue::Bool(b) => serde_json::Value::Bool(*b),
        JsonValue::Number(n) => n.parse::<serde_json::Number>().map_or(serde_json::Value::Null, serde_json::Value::Number),
        JsonValue::String(s) => serde_json::Value::String(s.clone()),
        JsonValue::Array(a) => serde_json::Value::Array(a.iter().map(json_value_of).collect()),
        JsonValue::Object(m) => serde_json::Value::Object(m.iter().map(|(k, x)| (k.clone(), json_value_of(x))).collect()),
    }
}

/// Calls `toml::from_str` into a `toml::Value`: the parsed document as a
/// tree, or the parser's message.
#[verifier::external_body]
pub fn parse_toml(text: &str) -> (r: Result<TomlValue, String>)
    ensures
        match parsed_toml(text@) {
            Some(d) => r == Ok::<TomlValue, String>(d),
            None => r is Err,
        },
{
    match toml::from_str::<toml::Value>(text) {
        Ok(v) => Ok(toml_tree(&v)),
        Err(e) => Err(e.to_string()),
    }
}

/// Calls `serde_json::from_str` into a `serde_json::Value`: the parsed value
/// as a tree, or the parser's message.
#[verifier::external_body]
pub fn parse_json(text: &str) -> (r: Result<JsonValue, String>)
    ensures
        match parsed_json(text@) {
            Some(j) => r == Ok::<JsonValue, String>(j),
            None => r is Err,
        },
{
    match serde_json::from_str::<serde_json::Value>(text) {
        Ok(v) => Ok(json_tree(&v)),
        Err(e) => Err(e.to_string()),
    }
}

/// Calls `serde_json::to_string_pretty` on the value of a tree.
#[verifier::external_body]
pub fn render_json_pretty(v: &JsonValue) -> (r: String)
    ensures
        r@ == pretty_json(v@),
{
    serde_json::to_string_pretty(&json_value_of(v)).unwrap_or_default()
}

} // verus!
