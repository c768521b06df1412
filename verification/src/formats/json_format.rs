use crate::bridge::{from_json, json_tree, to_json};
use crate::error::{described, outcome, Failure, FormatError};
use crate::formats::csv_format::{serialize_table, table_written};
use crate::formats::toml_format::{serialize_toml, toml_written};
use crate::formats::yaml_format::{serialize_yaml, yaml_written};
use crate::root::{wrap_root, wrapped};
use crate::value::{Tree, Value};
use serde_json::Value as Json;
use vstd::prelude::*;

verus! {

/// What `serde_json` reads from a text; `None` where it reports an error.
pub uninterp spec fn json_document(text: Seq<char>) -> Option<Tree>;

/// The indented text that `serde_json` writes for a JSON value that holds
/// `tree`; `None` where it reports an error.
pub uninterp spec fn pretty_text(tree: Tree) -> Option<Seq<char>>;

/// `serde_json::from_str` to a `serde_json::Value`.
#[verifier::external_body]
pub(crate) fn read_json(text: &str) -> (r: Result<Json, String>)
    ensures
        match r {
            Ok(j) => json_document(text@) == Some(json_tree(j)),
            Err(_) => json_document(text@) is None,
        },
{
    serde_json::from_str(text).map_err(|e| e.to_string())
}

/// `serde_json::to_string_pretty` on a `serde_json::Value`.
#[verifier::external_body]
pub(crate) fn write_json(j: &Json) -> (r: Result<String, String>)
    ensures
        match r {
            Ok(text) => pretty_text(json_tree(*j)) == Some(text@),
            Err(_) => pretty_text(json_tree(*j)) is None,
        },
{
    serde_json::to_string_pretty(j).map_err(|e| e.to_string())
}

/// A document as JSON text.
pub open spec fn json_written(tree: Tree) -> Result<Seq<char>, Failure> {
    match pretty_text(tree) {
        Some(written) => Ok(written),
        None => Err(Failure::Serialization),
    }
}

/// The key under which a sequence goes into a TOML document.
pub open spec fn items_key() -> Seq<char> {
    seq!['i', 't', 'e', 'm', 's']
}

/// The JSON text of a JSON text.
pub open spec fn json_to_json(text: Seq<char>) -> Result<Seq<char>, Failure> {
    match json_document(text) {
        None => Err(Failure::Parse),
        Some(tree) => json_written(tree),
    }
}

/// The YAML text of a JSON text.
pub open spec fn json_to_yaml(text: Seq<char>) -> Result<Seq<char>, Failure> {
    match json_document(text) {
        None => Err(Failure::Parse),
        Some(tree) => yaml_written(tree),
    }
}

/// The TOML text of a JSON text, a sequence under the key
/// `items`.
pub open spec fn json_to_toml(text: Seq<char>) -> Result<Seq<char>, Failure> {
    match json_document(text) {
        None => Err(Failure::Parse),
        Some(tree) => toml_written(wrapped(tree, items_key())),
    }
}

/// The CSV text of a JSON text.
pub open spec fn json_to_csv(text: Seq<char>) -> Result<Seq<char>, Failure> {
    match json_document(text) {
        None => Err(Failure::Parse),
        Some(tree) => table_written(tree),
    }
}

/// Reads a document from JSON text.
pub fn validate_json(content: &str) -> (r: Result<Value, FormatError>)
    ensures
        match json_document(content@) {
            Some(tree) => r is Ok && r->Ok_0@ == tree && r->Ok_0.wf(),
            None => r is Err && r->Err_0.kind() == Failure::Parse,
        },
{
    match read_json(content) {
        Ok(j) => Ok(from_json(j)),
        Err(detail) => Err(FormatError::ParseError(described("malformed JSON", detail.as_str()))),
    }
}

/// Writes a document as indented JSON text.
pub fn serialize_json(value: &Value) -> (r: Result<String, FormatError>)
    requires
        value.wf(),
    ensures
        outcome(r) == json_written(value@),
{
    let j = to_json(value);
    match write_json(&j) {
        Ok(text) => Ok(text),
        Err(detail) => Err(
            FormatError::SerializationError(described("cannot write JSON", detail.as_str())),
        ),
    }
}

/// JSON text to indented JSON text.
pub fn convert_json_to_json(content: &str) -> (r: Result<String, FormatError>)
    ensures
        outcome(r) == json_to_json(content@),
{
    let document = validate_json(content)?;
    serialize_json(&document)
}

/// JSON text to TOML text. A TOML document cannot be a sequence, so a
/// sequence goes under the key `items`.
pub fn convert_json_to_toml(content: &str) -> (r: Result<String, FormatError>)
    ensures
        outcome(r) == json_to_toml(content@),
{
    let document = validate_json(content)?;
    proof {
        reveal_strlit("items");
        assert("items"@ =~= items_key());
    }
    let document = wrap_root(document, "items");
    serialize_toml(&document)
}

/// JSON text to YAML text.
pub fn convert_json_to_yaml(content: &str) -> (r: Result<String, FormatError>)
    ensures
        outcome(r) == json_to_yaml(content@),
{
    let document = validate_json(content)?;
    serialize_yaml(&document)
}

/// JSON text to CSV text: a mapping is one row, a sequence has one row for
/// each element, any other document is one cell under the key `value`.
pub fn convert_json_to_csv(content: &str) -> (r: Result<String, FormatError>)
    ensures
        outcome(r) == json_to_csv(content@),
{
    let document = validate_json(content)?;
    serialize_table(&document)
}

} // verus!
