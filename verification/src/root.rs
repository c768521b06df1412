use crate::path::{flat, flatten, render, value_to_string, Delimiter};
use crate::record::FlatRecord;
use crate::table::records_of;
use crate::text::same_text;
use crate::value::{entries_of, keys_of, lemma_view_mapping, lemma_view_sequence, trees_of, Tree, Value};
use vstd::prelude::*;

verus! {

/// The key of the one column that a document gets which is neither a
/// mapping nor a sequence.
pub open spec fn scalar_key() -> Seq<char> {
    seq!['v', 'a', 'l', 'u', 'e']
}

/// The records of a document, one for each row of its table: a mapping is
/// one row; a sequence has one row for each element; any other document is
/// one row with its text in one column.
pub open spec fn rows_of(tree: Tree) -> Seq<Seq<(Seq<char>, Seq<char>)>> {
    match tree {
        Tree::Mapping(_) => seq![flat(tree, Seq::empty(), Delimiter::Underscore.text())],
        Tree::Sequence(items) => Seq::new(
            items.len(),
            |i: int| flat(items[i], Seq::empty(), Delimiter::Underscore.text()),
        ),
        scalar => seq![seq![(scalar_key(), render(scalar))]],
    }
}

/// A sequence as the one entry of a mapping, under `key`; any other document
/// as it is.
pub open spec fn wrapped(tree: Tree, key: Seq<char>) -> Tree {
    match tree {
        Tree::Sequence(_) => Tree::Mapping(seq![(key, tree)]),
        _ => tree,
    }
}

/// Whether the document is a sequence wrapped under `key`: a mapping whose
/// one entry has this key and holds a sequence.
pub open spec fn is_wrapper(tree: Tree, key: Seq<char>) -> bool {
    &&& tree matches Tree::Mapping(entries)
    &&& entries.len() == 1
    &&& entries[0].0 == key
    &&& entries[0].1 is Sequence
}

/// The sequence of a document that wraps one under `key`; any other
/// document as it is, so that nothing it holds is lost.
pub open spec fn unwrapped(tree: Tree, key: Seq<char>) -> Tree {
    if is_wrapper(tree, key) {
        tree->Mapping_0[0].1
    } else {
        tree
    }
}

/// To wrap a sequence under a key and to unwrap the result under the same
/// key gives the sequence back: whatever its elements and however many.
pub proof fn lemma_unwrap_wrapped(tree: Tree, key: Seq<char>)
    requires
        tree is Sequence,
    ensures
        unwrapped(wrapped(tree, key), key) == tree,
{
    assert(is_wrapper(wrapped(tree, key), key));
}

/// The records of a document, one for each row of its table.
pub fn records_from(value: &Value) -> (records: Vec<FlatRecord>)
    requires
        value.wf(),
    ensures
        records_of(records@) == rows_of(value@),
{
    let mut records: Vec<FlatRecord> = Vec::new();
    match value {
        Value::Mapping(_) => {
            records.push(flatten(value, ""));
            proof {
                reveal_strlit("");
                assert(""@ =~= Seq::<char>::empty());
            }
            assert(records_of(records@) =~= rows_of(value@));
        },
        Value::Sequence(items) => {
            proof {
                lemma_view_sequence(*items);
                reveal_strlit("");
                assert(""@ =~= Seq::<char>::empty());
            }
            let mut i: usize = 0;
            while i < items.len()
                invariant
                    0 <= i <= items.len(),
                    value@ == Tree::Sequence(trees_of(items@)),
                    value.wf(),
                    ""@ == Seq::<char>::empty(),
                    records@.len() == i,
                    forall|k: int|
                        0 <= k < i ==> (#[trigger] records@[k])@ == flat(
                            items@[k]@,
                            Seq::empty(),
                            Delimiter::Underscore.text(),
                        ),
                decreases items.len() - i,
            {
                assert(trees_of(items@)[i as int] == items@[i as int]@);
                assert(value@->Sequence_0[i as int].wf());
                records.push(flatten(&items[i], ""));
                i += 1;
            }
            assert(records_of(records@) =~= rows_of(value@));
        },
        scalar => {
            proof {
                reveal_strlit("value");
                assert("value"@ =~= scalar_key());
            }
            let mut entries: Vec<(String, String)> = Vec::new();
            entries.push((String::from_str("value"), value_to_string(scalar)));
            let record = FlatRecord { entries };
            assert(record@ =~= seq![(scalar_key(), render(value@))]);
            records.push(record);
            assert(records_of(records@) =~= rows_of(value@));
        },
    }
    records
}

/// Wraps a sequence under `key`, for a format whose documents cannot be
/// sequences; any other document stays as it is.
pub fn wrap_root(value: Value, key: &str) -> (r: Value)
    ensures
        r@ == wrapped(value@, key@),
        value.wf() ==> r.wf(),
{
    match value {
        Value::Sequence(items) => {
            let ghost inner = Value::Sequence(items);
            let mut entries: Vec<(String, Value)> = Vec::new();
            entries.push((String::from_str(key), Value::Sequence(items)));
            proof {
                lemma_view_mapping(entries);
                assert(entries_of(entries@) =~= seq![(key@, inner@)]);
                assert(keys_of(entries_of(entries@)) =~= seq![key@]);
            }
            Value::Mapping(entries)
        },
        other => other,
    }
}

/// Takes the sequence out of a document that wraps one under `key`: a
/// mapping whose one entry has this key and holds a sequence. Any other
/// document stays as it is.
pub fn unwrap_root(value: Value, key: &str) -> (r: Value)
    ensures
        r@ == unwrapped(value@, key@),
        value.wf() ==> r.wf(),
{
    match value {
        Value::Mapping(entries) => {
            proof {
                lemma_view_mapping(entries);
            }
            let ghost below = entries_of(entries@);
            let wraps = entries.len() == 1 && same_text(entries[0].0.as_str(), key) && match &entries[0].1 {
                Value::Sequence(_) => true,
                _ => false,
            };
            proof {
                if entries.len() == 1 {
                    assert(below[0] == (entries@[0].0@, entries@[0].1@));
                }
                assert(wraps == is_wrapper(Tree::Mapping(below), key@));
            }
            if wraps {
                let mut entries = entries;
                let (_, inner) = entries.remove(0);
                inner
            } else {
                Value::Mapping(entries)
            }
        },
        other => other,
    }
}

} // verus!
