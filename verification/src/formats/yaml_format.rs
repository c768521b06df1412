use crate::bridge::{from_json, json_tree, to_json};
use crate::error::{described, outcome, Failure, FormatError};
use crate::formats::csv_format::{serialize_table, table_written};
use crate::formats::json_format::{items_key, json_written, serialize_json};
use crate::formats::toml_format::{serialize_toml, toml_written};
use crate::root::{wrap_root, wrapped};
use crate::value::{Tree, Value};
use serde_json::Value as Json;
use serde_yaml::Value as Yaml;
use vstd::prelude::*;

verus! {

/// `serde_yaml::Value`: a YAML document as `serde_yaml` reads it. It is
/// carried from the reader to the writer or to `serde_json`, and never
/// looked into.
#[verifier::external_type_specification]
#[verifier::external_body]
pub struct ExYaml(Yaml);

/// The value that `serde_yaml` reads from a text; `None` where it reports an
/// error.
pub uninterp spec fn yaml_document(text: Seq<char>) -> Option<Yaml>;

/// What a YAML value holds, as `serde_json` takes it over; `None` where
/// `serde_json` cannot hold it.
pub uninterp spec fn yaml_tree(y: Yaml) -> Option<Tree>;

/// The text that `serde_yaml` writes for a YAML value; `None` where it
/// reports an error.
pub uninterp spec fn yaml_rewritten(y: Yaml) -> Option<Seq<char>>;

/// The text that `serde_yaml` writes for a JSON value that holds `tree`;
/// `None` where it reports an error.
pub uninterp spec fn yaml_text(tree: Tree) -> Option<Seq<char>>;

/// `serde_yaml::from_str` to a `serde_yaml::Value`.
#[verifier::external_body]
pub(crate) fn read_yaml(text: &str) -> (r: Result<Yaml, String>)
    ensures
        match r {
            Ok(y) => yaml_document(text@) == Some(y),
            Err(_) => yaml_document(text@) is None,
        },
{
    serde_yaml::from_str(text).map_err(|e| e.to_string())
}

/// `serde_json::to_value` on a `serde_yaml::Value`.
#[verifier::external_body]
pub(crate) fn yaml_as_json(y: &Yaml) -> (r: Result<Json, String>)
    ensures
        match r {
            Ok(j) => yaml_tree(*y) == Some(json_tree(j)),
            Err(_) => yaml_tree(*y) is None,
        },
{
    serde_json::to_value(y).map_err(|e| e.to_string())
}

/// `serde_yaml::to_string` on a `serde_yaml::Value`.
#[verifier::external_body]
pub(crate) fn rewrite_yaml(y: &Yaml) -> (r: Result<String, String>)
    ensures
        match r {
            Ok(text) => yaml_rewritten(*y) == Some(text@),
            Err(_) => yaml_rewritten(*y) is None,
        },
{
    serde_yaml::to_string(y).map_err(|e| e.to_string())
}

/// `serde_yaml::to_string` on a `serde_json::Value`.
#[verifier::external_body]
pub(crate) fn write_yaml(j: &Json) -> (r: Result<String, String>)
    ensures
        match r {
            Ok(text) => yaml_text(json_tree(*j)) == Some(text@),
            Err(_) => yaml_text(json_tree(*j)) is None,
        },
{
    serde_yaml::to_string(j).map_err(|e| e.to_string())
}

/// A document as YAML text.
pub open spec fn yaml_written(tree: Tree) -> Result<Seq<char>, Failure> {
    match yaml_text(tree) {
        Some(written) => Ok(written),
        None => Err(Failure::Serialization),
    }
}

/// The document of a YAML text: a parse failure where the text is no YAML,
/// a serialization failure where the YAML value has no place in a
/// [`Value`] (a mapping whose keys are not texts).
pub open spec fn yaml_read(text: Seq<char>) -> Result<Tree, Failure> {
    match yaml_document(text) {
        None => Err(Failure::Parse),
        Some(y) => match yaml_tree(y) {
            None => Err(Failure::Serialization),
            Some(tree) => Ok(tree),
        },
    }
}

/// The JSON text of a YAML text.
pub open spec fn yaml_to_json(text: Seq<char>) -> Result<Seq<char>, Failure> {
    match yaml_read(text) {
        Err(failure) => Err(failure),
        Ok(tree) => json_written(tree),
    }
}

/// The YAML text of a YAML text.
pub open spec fn yaml_to_yaml(text: Seq<char>) -> Result<Seq<char>, Failure> {
    match yaml_document(text) {
        None => Err(Failure::Parse),
        Some(y) => match yaml_rewritten(y) {
            Some(written) => Ok(written),
            None => Err(Failure::Serialization),
        },
    }
}

/// The TOML text of a YAML text, a sequence under the key
/// `items`.
pub open spec fn yaml_to_toml(text: Seq<char>) -> Result<Seq<char>, Failure> {
    match yaml_read(text) {
        Err(failure) => Err(failure),
        Ok(tree) => toml_written(wrapped(tree, items_key())),
    }
}

/// The CSV text of a YAML text.
pub open spec fn yaml_to_csv(text: Seq<char>) -> Result<Seq<char>, Failure> {
    match yaml_read(text) {
        Err(failure) => Err(failure),
        Ok(tree) => table_written(tree),
    }
}

/// Reads a YAML value from YAML text.
fn parse_yaml(content: &str) -> (r: Result<Yaml, FormatError>)
    ensures
        match yaml_document(content@) {
            Some(y) => r == Ok::<Yaml, FormatError>(y),
            None => r is Err && r->Err_0.kind() == Failure::Parse,
        },
{
    match read_yaml(content) {
        Ok(y) => Ok(y),
        Err(detail) => Err(FormatError::ParseError(described("malformed YAML", detail.as_str()))),
    }
}

/// Reads a document from YAML text.
pub fn validate_yaml(content: &str) -> (r: Result<Value, FormatError>)
    ensures
        match yaml_read(content@) {
            Ok(tree) => r is Ok && r->Ok_0@ == tree && r->Ok_0.wf(),
            Err(failure) => r is Err && r->Err_0.kind() == failure,
        },
{
    let y = parse_yaml(content)?;
    match yaml_as_json(&y) {
        Ok(j) => Ok(from_json(j)),
        Err(detail) => Err(
            FormatError::SerializationError(
                described("YAML document cannot be converted", detail.as_str()),
            ),
        ),
    }
}

/// Writes a document as YAML text.
pub fn serialize_yaml(value: &Value) -> (r: Result<String, FormatError>)
    requires
        value.wf(),
    ensures
        outcome(r) == yaml_written(value@),
{
    let j = to_json(value);
    match write_yaml(&j) {
        Ok(text) => Ok(text),
        Err(detail) => Err(
            FormatError::SerializationError(described("cannot write YAML", detail.as_str())),
        ),
    }
}

/// YAML text to JSON text.
pub fn convert_yaml_to_json(content: &str) -> (r: Result<String, FormatError>)
    ensures
        outcome(r) == yaml_to_json(content@),
{
    let document = validate_yaml(content)?;
    serialize_json(&document)
}

/// YAML text to YAML text in `serde_yaml`'s own form.
pub fn convert_yaml_to_yaml(content: &str) -> (r: Result<String, FormatError>)
    ensures
        outcome(r) == yaml_to_yaml(content@),
{
    let y = parse_yaml(content)?;
    match rewrite_yaml(&y) {
        Ok(text) => Ok(text),
        Err(detail) => Err(
            FormatError::SerializationError(described("cannot write YAML", detail.as_str())),
        ),
    }
}

/// YAML text to TOML text. A TOML document cannot be a sequence, so a
/// sequence goes under the key `items`.
pub fn convert_yaml_to_toml(content: &str) -> (r: Result<String, FormatError>)
    ensures
        outcome(r) == yaml_to_toml(content@),
{
    let document = validate_yaml(content)?;
    proof {
        reveal_strlit("items");
        assert("items"@ =~= items_key());
    }
    let document = wrap_root(document, "items");
    serialize_toml(&document)
}

/// YAML text to CSV text: a mapping is one row, a sequence has one row for
/// each element, any other document is one cell under the key `value`.
pub fn convert_yaml_to_csv(content: &str) -> (r: Result<String, FormatError>)
    ensures
        outcome(r) == yaml_to_csv(content@),
{
    let document = validate_yaml(content)?;
    serialize_table(&document)
}

} // verus!
