//! TOML and JSON text read into the library's document model.
//!
//! Parsing is the work of the `toml` and `serde_json` crates. What a text parses to is
//! named here ([`toml_document`], [`json_document`]) rather than restated; every
//! decision taken on the parsed document is verified elsewhere.
use vstd::prelude::*;

use crate::document::Document;

verus! {

#[verifier::external_type_specification]
#[verifier::external_body]
pub struct ExTomlValue(toml::Value);

#[verifier::external_type_specification]
#[verifier::external_body]
pub struct ExJsonValue(serde_json::Value);

/// The document that `text` denotes as TOML, or `None` where `text` is not a valid TOML
/// document.
pub uninterp spec fn toml_document(text: Seq<char>) -> Option<Document>;

/// The document that `text` denotes as JSON, or `None` where `text` is not valid JSON.
pub uninterp spec fn json_document(text: Seq<char>) -> Option<Document>;

/// A `toml::Value` as a document, value for value: strings, arrays and tables (in the
/// order the table's map yields its entries) are kept; integers, floats, booleans and
/// datetimes become `Other`. Nothing is stated of it: it is only called from
/// [`parse_toml`], whose result is named as a whole.
#[verifier::external_body]
fn document_from_toml(v: toml::Value) -> Document {
    match v {
        toml::Value::String(s) => Document::Str(s),
        toml::Value::Array(a) => Document::Array(a.into_iter().map(document_from_toml).collect()),
        toml::Value::Table(t) => Document::Table(t.into_iter().map(|(k, v)| (k, document_from_toml(v))).collect()),
        _ => Document::Other,
    }
}

/// A `serde_json::Value` as a document, value for value: strings, arrays and objects (in
/// the order the object's map yields its entries) are kept; null, booleans and numbers
/// become `Other`. Nothing is stated of it: it is only called from [`parse_json`],
/// whose result is named as a whole.
#[verifier::external_body]
fn document_from_json(v: serde_json::Value) -> Document {
    match v {
        serde_json::Value::String(s) => Document::Str(s),
        serde_json::Value::Array(a) => Document::Array(a.into_iter().map(document_from_json).collect()),
        serde_json::Value::Object(m) => Document::Table(m.into_iter().map(|(k, v)| (k, document_from_json(v))).collect()),
        _ => Document::Other,
    }
}

/// Parses `text` with `<toml::Value as FromStr>::from_str` (in `toml` 0.8, the parse of a
/// whole document). Claimed: the result depends on `text` alone, and is `None` exactly
/// where that parse fails; what it is otherwise is left to the name [`toml_document`].
#[verifier::external_body]
pub(crate) fn parse_toml(text: &str) -> (r: Option<Document>)
    ensures
        r == toml_document(text@),
{
    text.parse::<toml::Value>().ok().map(document_from_toml)
}

/// Parses `text` with `serde_json::from_str::<serde_json::Value>`. Claimed: the result
/// depends on `text` alone, and is `None` exactly where that parse fails; what it is
/// otherwise is left to the name [`json_document`].
#[verifier::external_body]
pub(crate) fn parse_json(text: &str) -> (r: Option<Document>)
    ensures
        r == json_document(text@),
{
    serde_json::from_str::<serde_json::Value>(text).ok().map(document_from_json)
}

} // verus!
