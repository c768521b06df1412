use crate::bridge::{from_json, json_tree, to_json};
use crate::error::{described, outcome, Failure, FormatError};
use crate::formats::csv_format::{serialize_table, table_key, table_written};
use crate::formats::json_format::{json_written, serialize_json};
use crate::formats::yaml_format::{serialize_yaml, yaml_written};
use crate::root::{unwrap_root, unwrapped};
use crate::value::{Tree, Value};
use serde_json::Value as Json;
use toml::Value as Toml;
use vstd::prelude::*;

verus! {

/// `toml::Value`: a TOML document as the `toml` crate reads it. It is
/// carried from the reader to the writer or to `serde_json`, and never
/// looked into.
#[verifier::external_type_specification]
#[verifier::external_body]
pub struct ExToml(Toml);

/// The value that the `toml` crate reads from a text; `None` where it
/// reports an error.
pub uninterp spec fn toml_document(text: Seq<char>) -> Option<Toml>;

/// What a TOML value holds, as `serde_json` takes it over; `None` where
/// `serde_json` cannot hold it.
pub uninterp spec fn toml_tree(t: Toml) -> Option<Tree>;

/// The text that the `toml` crate writes for a TOML value; `None` where it
/// reports an error.
pub uninterp spec fn toml_rewritten(t: Toml) -> Option<Seq<char>>;

/// The text that the `toml` crate writes for a JSON value that holds
/// `tree`; `None` where it reports an error.
pub uninterp spec fn toml_text(tree: Tree) -> Option<Seq<char>>;

/// `toml::from_str` to a `toml::Value`.
#[verifier::external_body]
pub(crate) fn read_toml(text: &str) -> (r: Result<Toml, String>)
    ensures
        match r {
            Ok(t) => toml_document(text@) == Some(t),
            Err(_) => toml_document(text@) is None,
        },
{
    ::toml::from_str(text).map_err(|e| e.to_string())
}

/// `serde_json::to_value` on a `toml::Value`.
#[verifier::external_body]
pub(crate) fn toml_as_json(t: &Toml) -> (r: Result<Json, String>)
    ensures
        match r {
            Ok(j) => toml_tree(*t) == Some(json_tree(j)),
            Err(_) => toml_tree(*t) is None,
        },
{
    serde_json::to_value(t).map_err(|e| e.to_string())
}

/// `toml::to_string_pretty` on a `toml::Value`.
#[verifier::external_body]
pub(crate) fn rewrite_toml(t: &Toml) -> (r: Result<String, String>)
    ensures
        match r {
            Ok(text) => toml_rewritten(*t) == Some(text@),
            Err(_) => toml_rewritten(*t) is None,
        },
{
    ::toml::to_string_pretty(t).map_err(|e| e.to_string())
}

/// `toml::to_string_pretty` on a `serde_json::Value`.
#[verifier::external_body]
pub(crate) fn write_toml(j: &Json) -> (r: Result<String, String>)
    ensures
        match r {
            Ok(text) => toml_text(json_tree(*j)) == Some(text@),
            Err(_) => toml_text(json_tree(*j)) is None,
        },
{
    ::toml::to_string_pretty(j).map_err(|e| e.to_string())
}

/// A document as TOML text.
pub open spec fn toml_written(tree: Tree) -> Result<Seq<char>, Failure> {
    match toml_text(tree) {
        Some(written) => Ok(written),
        None => Err(Failure::Serialization),
    }
}

/// The document of a TOML text: a parse failure where the text is no TOML,
/// a serialization failure where the TOML value has no place in a
/// [`Value`].
pub open spec fn toml_read(text: Seq<char>) -> Result<Tree, Failure> {
    match toml_document(text) {
        None => Err(Failure::Parse),
        Some(t) => match toml_tree(t) {
            None => Err(Failure::Serialization),
            Some(tree) => Ok(tree),
        },
    }
}

/// The JSON text of a TOML text.
pub open spec fn toml_to_json(text: Seq<char>) -> Result<Seq<char>, Failure> {
    match toml_read(text) {
        Err(failure) => Err(failure),
        Ok(tree) => json_written(tree),
    }
}

/// The YAML text of a TOML text.
pub open spec fn toml_to_yaml(text: Seq<char>) -> Result<Seq<char>, Failure> {
    match toml_read(text) {
        Err(failure) => Err(failure),
        Ok(tree) => yaml_written(tree),
    }
}

/// The TOML text of a TOML text.
pub open spec fn toml_to_toml(text: Seq<char>) -> Result<Seq<char>, Failure> {
    match toml_document(text) {
        None => Err(Failure::Parse),
        Some(t) => match toml_rewritten(t) {
            Some(written) => Ok(written),
            None => Err(Failure::Serialization),
        },
    }
}

/// The CSV text of a TOML text: of the sequence under the key `data` where
/// the document wraps one there.
pub open spec fn toml_to_csv(text: Seq<char>) -> Result<Seq<char>, Failure> {
    match toml_read(text) {
        Err(failure) => Err(failure),
        Ok(tree) => table_written(unwrapped(tree, table_key())),
    }
}

/// Reads a TOML value from TOML text.
fn parse_toml(content: &str) -> (r: Result<Toml, FormatError>)
    ensures
        match toml_document(content@) {
            Some(t) => r == Ok::<Toml, FormatError>(t),
            None => r is Err && r->Err_0.kind() == Failure::Parse,
        },
{
    match read_toml(content) {
        Ok(t) => Ok(t),
        Err(detail) => Err(FormatError::ParseError(described("malformed TOML", detail.as_str()))),
    }
}

/// Reads a document from TOML text.
pub fn validate_toml(content: &str) -> (r: Result<Value, FormatError>)
    ensures
        match toml_read(content@) {
            Ok(tree) => r is Ok && r->Ok_0@ == tree && r->Ok_0.wf(),
            Err(failure) => r is Err && r->Err_0.kind() == failure,
        },
{
    let t = parse_toml(content)?;
    match toml_as_json(&t) {
        Ok(j) => Ok(from_json(j)),
        Err(detail) => Err(
            FormatError::SerializationError(
                described("TOML document cannot be converted", detail.as_str()),
            ),
        ),
    }
}

/// Writes a document as TOML text. Only a mapping can be written.
pub fn serialize_toml(value: &Value) -> (r: Result<String, FormatError>)
    requires
        value.wf(),
    ensures
        outcome(r) == toml_written(value@),
{
    let j = to_json(value);
    match write_toml(&j) {
        Ok(text) => Ok(text),
        Err(detail) => Err(
            FormatError::SerializationError(described("cannot write TOML", detail.as_str())),
        ),
    }
}

/// TOML text to JSON text.
pub fn convert_toml_to_json(content: &str) -> (r: Result<String, FormatError>)
    ensures
        outcome(r) == toml_to_json(content@),
{
    let document = validate_toml(content)?;
    serialize_json(&document)
}

/// TOML text to YAML text.
pub fn convert_toml_to_yaml(content: &str) -> (r: Result<String, FormatError>)
    ensures
        outcome(r) == toml_to_yaml(content@),
{
    let document = validate_toml(content)?;
    serialize_yaml(&document)
}

/// TOML text to TOML text in the `toml` crate's own form.
pub fn convert_toml_to_toml(content: &str) -> (r: Result<String, FormatError>)
    ensures
        outcome(r) == toml_to_toml(content@),
{
    let t = parse_toml(content)?;
    match rewrite_toml(&t) {
        Ok(text) => Ok(text),
        Err(detail) => Err(
            FormatError::SerializationError(described("cannot write TOML", detail.as_str())),
        ),
    }
}

/// TOML text to CSV text. Where the document is a sequence wrapped under
/// the key `data`, as a table goes into TOML, that sequence is the table.
pub fn convert_toml_to_csv(content: &str) -> (r: Result<String, FormatError>)
    ensures
        outcome(r) == toml_to_csv(content@),
{
    let document = validate_toml(content)?;
    proof {
        reveal_strlit("data");
        assert("data"@ =~= table_key());
    }
    let document = unwrap_root(document, "data");
    serialize_table(&document)
}

} // verus!
