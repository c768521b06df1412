use crate::number::{number_integer, number_text};
use crate::text::same_text;
use serde_json::Number;
use vstd::prelude::*;

verus! {

/// What a [`Value`] denotes: the model that the contracts of this crate speak
/// of.
pub enum Tree {
    Null,
    Bool(bool),
    Integer(int),
    /// A number that is no 64-bit integer, as its decimal text.
    Float(Seq<char>),
    Text(Seq<char>),
    Sequence(Seq<Tree>),
    Mapping(Seq<(Seq<char>, Tree)>),
}

/// The keys of a mapping's entries, in their order.
pub open spec fn keys_of<V>(entries: Seq<(Seq<char>, V)>) -> Seq<Seq<char>> {
    Seq::new(entries.len(), |i: int| entries[i].0)
}

impl Tree {
    /// No mapping, at any depth, holds a key twice.
    pub open spec fn wf(self) -> bool
        decreases self,
    {
        match self {
            Tree::Sequence(items) => forall|i: int|
                0 <= i < items.len() ==> (#[trigger] items[i]).wf(),
            Tree::Mapping(entries) => {
                &&& keys_of(entries).no_duplicates()
                &&& forall|i: int| 0 <= i < entries.len() ==> (#[trigger] entries[i]).1.wf()
            },
            _ => true,
        }
    }
}

/// A sequence with an element that is not well-formed is not well-formed.
pub proof fn lemma_sequence_not_wf(items: Seq<Tree>, i: int)
    requires
        0 <= i < items.len(),
        !items[i].wf(),
    ensures
        !Tree::Sequence(items).wf(),
{
    let whole = Tree::Sequence(items);
    assert(whole->Sequence_0 == items);
    assert(whole.wf() == (forall|k: int| 0 <= k < items.len() ==> (#[trigger] items[k]).wf()));
}

/// What a number denotes: an integer where it holds one, else its text.
pub open spec fn number_tree(n: Number) -> Tree {
    match number_integer(n) {
        Some(i) => Tree::Integer(i as int),
        None => Tree::Float(number_text(n)),
    }
}

/// A document of any of the formats: the one form through which every
/// conversion goes.
#[derive(Debug, PartialEq)]
pub enum Value {
    Null,
    Bool(bool),
    Integer(i64),
    /// A number that is no 64-bit integer: a finite double, or an integer
    /// above `i64::MAX`.
    Float(Number),
    String(String),
    Sequence(Vec<Value>),
    /// The entries in the order in which they were put; no key twice.
    Mapping(Vec<(String, Value)>),
}

impl View for Value {
    type V = Tree;

    open spec fn view(&self) -> Tree
        decreases self,
    {
        match self {
            Value::Null => Tree::Null,
            Value::Bool(b) => Tree::Bool(*b),
            Value::Integer(i) => Tree::Integer(*i as int),
            Value::Float(n) => number_tree(*n),
            Value::String(s) => Tree::Text(s@),
            Value::Sequence(items) => Tree::Sequence(
                Seq::new(
                    items@.len(),
                    |i: int|
                        if 0 <= i < items@.len() {
                            items@[i].view()
                        } else {
                            Tree::Null
                        },
                ),
            ),
            Value::Mapping(entries) => Tree::Mapping(
                Seq::new(
                    entries@.len(),
                    |i: int|
                        (
                            entries@[i].0@,
                            if 0 <= i < entries@.len() {
                                entries@[i].1.view()
                            } else {
                                Tree::Null
                            },
                        ),
                ),
            ),
        }
    }
}

/// What a vector of values denotes, element by element.
pub open spec fn trees_of(items: Seq<Value>) -> Seq<Tree> {
    Seq::new(items.len(), |i: int| items[i]@)
}

/// What a vector of entries denotes, entry by entry.
pub open spec fn entries_of(entries: Seq<(String, Value)>) -> Seq<(Seq<char>, Tree)> {
    Seq::new(entries.len(), |i: int| (entries[i].0@, entries[i].1@))
}

/// A sequence denotes the sequence of what its elements denote.
pub proof fn lemma_view_sequence(items: Vec<Value>)
    ensures
        Value::Sequence(items)@ == Tree::Sequence(trees_of(items@)),
{
    assert(Value::Sequence(items)@->Sequence_0 =~= trees_of(items@));
}

/// A mapping denotes the mapping of what its entries denote.
pub proof fn lemma_view_mapping(entries: Vec<(String, Value)>)
    ensures
        Value::Mapping(entries)@ == Tree::Mapping(entries_of(entries@)),
{
    let whole = Value::Mapping(entries);
    assert(whole@ is Mapping);
    let shown = whole@->Mapping_0;
    assert(shown.len() == entries@.len());
    assert forall|i: int| 0 <= i < shown.len() implies shown[i] == entries_of(entries@)[i] by {
        assert(shown[i].0 == entries@[i].0@);
        assert(shown[i].1 == entries@[i].1@);
    }
    assert(shown =~= entries_of(entries@));
}

impl Value {
    /// No mapping in the value, at any depth, holds a key twice.
    pub open spec fn wf(&self) -> bool {
        self@.wf()
    }

    /// Whether no mapping in the value, at any depth, holds a key twice.
    pub fn is_well_formed(&self) -> (r: bool)
        ensures
            r == self.wf(),
        decreases self,
    {
        match self {
            Value::Sequence(items) => {
                proof {
                    lemma_view_sequence(*items);
                }
                let ghost below = trees_of(items@);
                let mut i: usize = 0;
                while i < items.len()
                    invariant
                        0 <= i <= items.len(),
                        *self == Value::Sequence(*items),
                        self@ == Tree::Sequence(below),
                        below == trees_of(items@),
                        forall|k: int| 0 <= k < i ==> (#[trigger] below[k]).wf(),
                    decreases items.len() - i,
                {
                    assert(below[i as int] == items@[i as int]@);
                    if !items[i].is_well_formed() {
                        assert(!below[i as int].wf());
                        proof {
                            lemma_sequence_not_wf(below, i as int);
                        }
                        return false;
                    }
                    i += 1;
                }
                true
            },
            Value::Mapping(entries) => {
                proof {
                    lemma_view_mapping(*entries);
                }
                let ghost below = entries_of(entries@);
                let ghost keys = keys_of(below);
                let mut i: usize = 0;
                while i < entries.len()
                    invariant
                        0 <= i <= entries.len(),
                        *self == Value::Mapping(*entries),
                        self@ == Tree::Mapping(below),
                        below == entries_of(entries@),
                        keys == keys_of(below),
                        forall|k: int| 0 <= k < i ==> (#[trigger] below[k]).1.wf(),
                        forall|a: int, b: int| 0 <= a < b < i ==> keys[a] != keys[b],
                    decreases entries.len() - i,
                {
                    assert(below[i as int] == (entries@[i as int].0@, entries@[i as int].1@));
                    if !entries[i].1.is_well_formed() {
                        assert(!below[i as int].1.wf());
                        return false;
                    }
                    let mut j: usize = 0;
                    while j < i
                        invariant
                            0 <= j <= i < entries.len(),
                            self@ == Tree::Mapping(below),
                            below == entries_of(entries@),
                            keys == keys_of(below),
                            forall|a: int| 0 <= a < j ==> keys[a] != keys[i as int],
                        decreases i - j,
                    {
                        assert(keys[j as int] == entries@[j as int].0@);
                        assert(keys[i as int] == entries@[i as int].0@);
                        if same_text(entries[j].0.as_str(), entries[i].0.as_str()) {
                            assert(keys[j as int] == keys[i as int]);
                            return false;
                        }
                        j += 1;
                    }
                    i += 1;
                }
                true
            },
            _ => true,
        }
    }
}

} // verus!
