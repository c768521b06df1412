use crate::number::{number_as_i64, number_from_i64};
use crate::value::{entries_of, keys_of, lemma_view_mapping, lemma_view_sequence, number_tree, trees_of, Tree, Value};
use serde_json::Number;
use serde_json::Value as Json;
use vstd::prelude::*;

verus! {

/// `serde_json::Value`: a JSON document. Nothing of it is read here but
/// through the functions below.
#[verifier::external_type_specification]
#[verifier::external_body]
pub struct ExJson(Json);

/// What a JSON value of `serde_json` holds.
pub uninterp spec fn json_tree(j: Json) -> Tree;

/// What a vector of JSON values holds, element by element.
pub open spec fn json_trees(items: Seq<Json>) -> Seq<Tree> {
    Seq::new(items.len(), |i: int| json_tree(items[i]))
}

/// What a vector of keyed JSON values holds, entry by entry.
pub open spec fn json_entries(entries: Seq<(String, Json)>) -> Seq<(Seq<char>, Tree)> {
    Seq::new(entries.len(), |i: int| (entries[i].0@, json_tree(entries[i].1)))
}

/// The text that `serde_json` writes for a JSON value that holds `tree`, on
/// one line and without spaces.
pub uninterp spec fn compact_text(tree: Tree) -> Seq<char>;

/// The outermost layer of a JSON value, with what lies below still in
/// `serde_json`'s form.
pub enum Layer {
    Null,
    Bool(bool),
    Number(Number),
    String(String),
    Sequence(Vec<Json>),
    Mapping(Vec<(String, Json)>),
}

impl Layer {
    /// What the layer holds, with what lies below it.
    pub open spec fn tree(self) -> Tree {
        match self {
            Layer::Null => Tree::Null,
            Layer::Bool(b) => Tree::Bool(b),
            Layer::Number(n) => number_tree(n),
            Layer::String(s) => Tree::Text(s@),
            Layer::Sequence(items) => Tree::Sequence(json_trees(items@)),
            Layer::Mapping(entries) => Tree::Mapping(json_entries(entries@)),
        }
    }
}

/// `serde_json::Value::Null`.
#[verifier::external_body]
pub(crate) fn json_null() -> (j: Json)
    ensures
        json_tree(j) == Tree::Null,
{
    Json::Null
}

/// `serde_json::Value::Bool`.
#[verifier::external_body]
pub(crate) fn json_bool(b: bool) -> (j: Json)
    ensures
        json_tree(j) == Tree::Bool(b),
{
    Json::Bool(b)
}

/// `serde_json::Value::Number`, around a copy of the number.
#[verifier::external_body]
pub(crate) fn json_number(n: &Number) -> (j: Json)
    ensures
        json_tree(j) == number_tree(*n),
{
    Json::Number(n.clone())
}

/// `serde_json::Value::String`, around a copy of the text.
#[verifier::external_body]
pub(crate) fn json_string(s: &str) -> (j: Json)
    ensures
        json_tree(j) == Tree::Text(s@),
{
    Json::String(s.to_owned())
}

/// `serde_json::Value::Array`.
#[verifier::external_body]
pub(crate) fn json_array(items: Vec<Json>) -> (j: Json)
    ensures
        json_tree(j) == Tree::Sequence(json_trees(items@)),
{
    Json::Array(items)
}

/// `serde_json::Value::Object`, around a `serde_json::Map` collected from the
/// entries. Built with `preserve_order`, the map keeps the order in which
/// keys first come; with no key twice it holds the entries as they are.
#[verifier::external_body]
pub(crate) fn json_object(entries: Vec<(String, Json)>) -> (j: Json)
    requires
        keys_of(json_entries(entries@)).no_duplicates(),
    ensures
        json_tree(j) == Tree::Mapping(json_entries(entries@)),
{
    Json::Object(entries.into_iter().collect())
}

/// The variant of a `serde_json::Value`, with its field moved out. A
/// `serde_json::Map` hands out each key once, and, built with
/// `preserve_order`, in the order in which they were put.
#[verifier::external_body]
pub(crate) fn json_layer(j: Json) -> (layer: Layer)
    ensures
        layer.tree() == json_tree(j),
        layer matches Layer::Mapping(entries) ==> keys_of(json_entries(entries@)).no_duplicates(),
{
    match j {
        Json::Null => Layer::Null,
        Json::Bool(b) => Layer::Bool(b),
        Json::Number(n) => Layer::Number(n),
        Json::String(s) => Layer::String(s),
        Json::Array(items) => Layer::Sequence(items),
        Json::Object(map) => Layer::Mapping(map.into_iter().collect()),
    }
}

/// `serde_json::to_string` on a `serde_json::Value`, with the empty text in
/// place of an error.
#[verifier::external_body]
pub(crate) fn json_compact(j: &Json) -> (s: String)
    ensures
        s@ == compact_text(json_tree(*j)),
{
    serde_json::to_string(j).unwrap_or_default()
}

/// The JSON value that holds what `value` denotes.
pub fn to_json(value: &Value) -> (j: Json)
    requires
        value.wf(),
    ensures
        json_tree(j) == value@,
    decreases value,
{
    match value {
        Value::Null => json_null(),
        Value::Bool(b) => json_bool(*b),
        Value::Integer(i) => {
            let n = number_from_i64(*i);
            json_number(&n)
        },
        Value::Float(n) => json_number(n),
        Value::String(s) => json_string(s.as_str()),
        Value::Sequence(items) => {
            let mut out: Vec<Json> = Vec::new();
            let mut i: usize = 0;
            proof {
                lemma_view_sequence(*items);
            }
            while i < items.len()
                invariant
                    0 <= i <= items.len(),
                    value == Value::Sequence(*items),
                    value@ == Tree::Sequence(trees_of(items@)),
                    value.wf(),
                    out@.len() == i,
                    forall|k: int| 0 <= k < i ==> json_tree(out@[k]) == items@[k]@,
                decreases items.len() - i,
            {
                assert(trees_of(items@)[i as int] == items@[i as int]@);
                assert(value@->Sequence_0[i as int].wf());
                let j = to_json(&items[i]);
                out.push(j);
                i += 1;
            }
            assert(json_trees(out@) =~= trees_of(items@));
            json_array(out)
        },
        Value::Mapping(entries) => {
            let mut out: Vec<(String, Json)> = Vec::new();
            let mut i: usize = 0;
            proof {
                lemma_view_mapping(*entries);
            }
            while i < entries.len()
                invariant
                    0 <= i <= entries.len(),
                    value == Value::Mapping(*entries),
                    value@ == Tree::Mapping(entries_of(entries@)),
                    value.wf(),
                    out@.len() == i,
                    forall|k: int|
                        0 <= k < i ==> out@[k].0@ == entries@[k].0@ && json_tree(out@[k].1)
                            == entries@[k].1@,
                decreases entries.len() - i,
            {
                assert(entries_of(entries@)[i as int] == (entries@[i as int].0@, entries@[i as int].1@));
                assert(value@->Mapping_0[i as int].1.wf());
                let j = to_json(&entries[i].1);
                out.push((entries[i].0.clone(), j));
                i += 1;
            }
            assert(json_entries(out@) =~= entries_of(entries@));
            json_object(out)
        },
    }
}

/// The value that denotes what `j` holds.
pub fn from_json(j: Json) -> (value: Value)
    ensures
        value@ == json_tree(j),
        value.wf(),
    decreases json_tree(j),
{
    match json_layer(j) {
        Layer::Null => Value::Null,
        Layer::Bool(b) => Value::Bool(b),
        Layer::Number(n) => match number_as_i64(&n) {
            Some(i) => Value::Integer(i),
            None => Value::Float(n),
        },
        Layer::String(s) => Value::String(s),
        Layer::Sequence(items) => {
            let ghost below = json_trees(items@);
            let ghost given = items@;
            let mut out: Vec<Value> = Vec::new();
            for item in it: items
                invariant
                    it.seq() == given,
                    below == json_trees(given),
                    json_tree(j) == Tree::Sequence(below),
                    out@.len() == it.index(),
                    forall|k: int| 0 <= k < out@.len() ==> out@[k]@ == below[k] && out@[k].wf(),
            {
                proof {
                    let k = it.index();
                    assert(below[k] == json_tree(item));
                    assert(decreases_to!(json_tree(j) => json_tree(j)->Sequence_0[k]));
                }
                out.push(from_json(item));
            }
            proof {
                lemma_view_sequence(out);
                assert(trees_of(out@) =~= below);
            }
            Value::Sequence(out)
        },
        Layer::Mapping(entries) => {
            let ghost below = json_entries(entries@);
            let ghost given = entries@;
            let mut out: Vec<(String, Value)> = Vec::new();
            for entry in it: entries
                invariant
                    it.seq() == given,
                    below == json_entries(given),
                    json_tree(j) == Tree::Mapping(below),
                    out@.len() == it.index(),
                    forall|k: int|
                        0 <= k < out@.len() ==> out@[k].0@ == below[k].0 && out@[k].1@ == below[k].1
                            && out@[k].1.wf(),
            {
                proof {
                    let k = it.index();
                    assert(below[k] == (entry.0@, json_tree(entry.1)));
                    assert(decreases_to!(json_tree(j) => json_tree(j)->Mapping_0[k].1));
                }
                let (key, below_key) = entry;
                out.push((key, from_json(below_key)));
            }
            proof {
                lemma_view_mapping(out);
                assert(entries_of(out@) =~= below);
            }
            Value::Mapping(out)
        },
    }
}

/// The JSON text of a value, on one line.
pub fn compact_json(value: &Value) -> (s: String)
    requires
        value.wf(),
    ensures
        s@ == compact_text(value@),
{
    let j = to_json(value);
    json_compact(&j)
}

} // verus!
