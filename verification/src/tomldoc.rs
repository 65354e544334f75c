//! TOML documents, as the config reader sees them.
//!
//! Parsing TOML is the `toml` crate's work; what a document means as a
//! bailey config is this library's, in [`crate::schema`]. The document is
//! handed over as a [`TomlValue`] tree of plain values.

use vstd::prelude::*;

verus! {

/// A TOML value. Floats and datetimes, which no bailey setting takes, are
/// kept only as [`TomlValue::Other`].
#[derive(Debug)]
pub enum TomlValue {
    /// A string.
    Str(String),
    /// An integer.
    Int(i64),
    /// A boolean.
    Bool(bool),
    /// An array.
    Array(Vec<TomlValue>),
    /// A table, in the order the parser hands its keys over.
    Table(Vec<(String, TomlValue)>),
    /// A float or a datetime.
    Other,
}

/// The document the `toml` crate reads from a text, or its error message.
pub uninterp spec fn toml_document(text: Seq<char>) -> Result<TomlValue, Seq<char>>;

/// Parses `text` as a TOML document with `toml::from_str::<toml::Table>`.
///
/// The contract names the result: the same text always yields the same
/// document, or the same error message. What document a text yields is the
/// TOML grammar, which is the `toml` crate's and is not restated here.
#[verifier::external_body]
pub(crate) fn parse_document(text: &str) -> (r: Result<TomlValue, String>)
    ensures
        match r {
            Ok(v) => toml_document(text@) == Ok::<TomlValue, Seq<char>>(v),
            Err(e) => toml_document(text@) == Err::<TomlValue, Seq<char>>(e@),
        },
{
    match toml::from_str::<toml::Table>(text) {
        Ok(table) => Ok(from_toml(toml::Value::Table(table))),
        Err(err) => Err(err.to_string()),
    }
}

/// The `toml` crate's value type, carried opaquely from the parser to the
/// conversion below.
#[verifier::external_type_specification]
#[verifier::external_body]
pub struct ExTomlValue(toml::Value);

/// Moves a `toml::Value` into the plain tree, one variant to one variant.
#[verifier::external_body]
fn from_toml(value: toml::Value) -> TomlValue {
    match value {
        toml::Value::String(s) => TomlValue::Str(s),
        toml::Value::Integer(i) => TomlValue::Int(i),
        toml::Value::Boolean(b) => TomlValue::Bool(b),
        toml::Value::Array(items) => TomlValue::Array(items.into_iter().map(from_toml).collect()),
        toml::Value::Table(t) => TomlValue::Table(t.into_iter().map(|(k, v)| (k, from_toml(v))).collect()),
        toml::Value::Float(_) | toml::Value::Datetime(_) => TomlValue::Other,
    }
}

} // verus!
