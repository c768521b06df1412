use crate::decimal::{decimal, integer_text};
use crate::bridge::{compact_json, compact_text};
use crate::number::{number_as_i64, number_to_string};
use crate::record::{pairs_of, FlatRecord};
use crate::error::{Failure, FormatError};
use crate::text::{find_char, first_index, join, lemma_first_index, lemma_first_index_is, lemma_first_index_none, same_text};
use crate::value::{entries_of, keys_of, lemma_view_mapping, Tree, Value};
use vstd::prelude::*;

verus! {

/// What joins the segments of a flat key.
#[derive(Clone, Copy, Debug, PartialEq, Eq, Structural)]
pub enum Delimiter {
    /// A full stop: the keys that `nest` takes apart again.
    Dot,
    /// An underscore: the keys of a table's header.
    Underscore,
}

impl Delimiter {
    /// The delimiter as text.
    pub open spec fn text(self) -> Seq<char> {
        match self {
            Delimiter::Dot => seq!['.'],
            Delimiter::Underscore => seq!['_'],
        }
    }

    /// The delimiter as text.
    pub fn as_str(self) -> (s: &'static str)
        ensures
            s@ == self.text(),
    {
        proof {
            reveal_strlit(".");
            reveal_strlit("_");
        }
        let s = match self {
            Delimiter::Dot => ".",
            Delimiter::Underscore => "_",
        };
        assert(s@ =~= self.text());
        s
    }
}

/// The text of a value that stands in one cell: a text as it is, a number in
/// decimal, a truth value as `true` or `false`, nothing for null, and a
/// sequence or mapping as JSON on one line.
pub open spec fn render(tree: Tree) -> Seq<char> {
    match tree {
        Tree::Null => Seq::empty(),
        Tree::Bool(b) => if b {
            seq!['t', 'r', 'u', 'e']
        } else {
            seq!['f', 'a', 'l', 's', 'e']
        },
        Tree::Integer(i) => decimal(i),
        Tree::Float(text) => text,
        Tree::Text(text) => text,
        _ => compact_text(tree),
    }
}

/// The key of a child: its own key below an empty prefix, else the prefix,
/// the delimiter and its key.
pub open spec fn child_key(prefix: Seq<char>, delimiter: Seq<char>, key: Seq<char>) -> Seq<char> {
    if prefix.len() == 0 {
        key
    } else {
        prefix + delimiter + key
    }
}

/// The entries of a mapping, flattened in their order: a child that is a
/// mapping gives the entries below it, under its key as their prefix; any
/// other child gives one entry with its text.
pub open spec fn flat_entries(
    entries: Seq<(Seq<char>, Tree)>,
    prefix: Seq<char>,
    delimiter: Seq<char>,
) -> Seq<(Seq<char>, Seq<char>)>
    decreases entries,
{
    if entries.len() == 0 {
        Seq::empty()
    } else {
        let last = entries.last();
        let key = child_key(prefix, delimiter, last.0);
        flat_entries(entries.drop_last(), prefix, delimiter) + match last.1 {
            Tree::Mapping(inner) => flat_entries(inner, key, delimiter),
            leaf => seq![(key, render(leaf))],
        }
    }
}

/// A value flattened to one record: a mapping gives its flattened entries;
/// any other value gives one entry under the prefix, or none where the
/// prefix is empty.
pub open spec fn flat(tree: Tree, prefix: Seq<char>, delimiter: Seq<char>) -> Seq<
    (Seq<char>, Seq<char>),
> {
    match tree {
        Tree::Mapping(entries) => flat_entries(entries, prefix, delimiter),
        leaf => if prefix.len() == 0 {
            Seq::empty()
        } else {
            seq![(prefix, render(leaf))]
        },
    }
}

/// The text of a value that stands in one cell.
pub fn value_to_string(value: &Value) -> (s: String)
    requires
        value.wf(),
    ensures
        s@ == render(value@),
{
    match value {
        Value::Null => {
            proof {
                reveal_strlit("");
            }
            let s = String::from_str("");
            assert(s@ =~= Seq::empty());
            s
        },
        Value::Bool(b) => {
            proof {
                reveal_strlit("true");
                reveal_strlit("false");
            }
            let s = if *b {
                String::from_str("true")
            } else {
                String::from_str("false")
            };
            assert(s@ =~= render(value@));
            s
        },
        Value::Integer(i) => integer_text(*i),
        Value::Float(n) => match number_as_i64(n) {
            Some(i) => integer_text(i),
            None => number_to_string(n),
        },
        Value::String(text) => text.clone(),
        _ => compact_json(value),
    }
}

/// Appends the flattened entries of a mapping to `out`.
fn flatten_into(
    entries: &Vec<(String, Value)>,
    prefix: &str,
    delimiter: &str,
    out: &mut Vec<(String, String)>,
)
    requires
        Tree::Mapping(entries_of(entries@)).wf(),
    ensures
        pairs_of(final(out)@) == pairs_of(old(out)@) + flat_entries(
            entries_of(entries@),
            prefix@,
            delimiter@,
        ),
    decreases entries,
{
    let ghost below = entries_of(entries@);
    let ghost start = pairs_of(out@);
    let mut i: usize = 0;
    assert(below.take(0) =~= Seq::empty());
    assert(start + Seq::empty() =~= start);
    while i < entries.len()
        invariant
            0 <= i <= entries.len(),
            below == entries_of(entries@),
            Tree::Mapping(below).wf(),
            pairs_of(out@) == start + flat_entries(below.take(i as int), prefix@, delimiter@),
        decreases entries.len() - i,
    {
        let ghost before = pairs_of(out@);
        let entry = &entries[i];
        let key = if prefix.is_empty() {
            entry.0.clone()
        } else {
            join(prefix, delimiter, entry.0.as_str())
        };
        proof {
            assert(below.take(i + 1).drop_last() == below.take(i as int));
            assert(below.take(i + 1).last() == below[i as int]);
            assert(below[i as int] == (entry.0@, entry.1@));
            assert(below[i as int].1.wf());
            assert(key@ == child_key(prefix@, delimiter@, entry.0@));
        }
        match &entry.1 {
            Value::Mapping(inner) => {
                proof {
                    lemma_view_mapping(*inner);
                }
                flatten_into(inner, key.as_str(), delimiter, out);
                assert(pairs_of(out@) =~= start + flat_entries(
                    below.take(i + 1),
                    prefix@,
                    delimiter@,
                ));
            },
            leaf => {
                let text = value_to_string(leaf);
                out.push((key, text));
                assert(pairs_of(out@) =~= before + seq![(key@, text@)]);
                assert(pairs_of(out@) =~= start + flat_entries(
                    below.take(i + 1),
                    prefix@,
                    delimiter@,
                ));
            },
        }
        i += 1;
    }
    assert(below.take(i as int) == below);
}

/// Flattens a value to one record, with `delimiter` between the segments of
/// each key.
pub fn flatten_with(value: &Value, prefix: &str, delimiter: Delimiter) -> (record: FlatRecord)
    requires
        value.wf(),
    ensures
        record@ == flat(value@, prefix@, delimiter.text()),
{
    let mut out: Vec<(String, String)> = Vec::new();
    assert(pairs_of(out@) =~= Seq::empty());
    match value {
        Value::Mapping(entries) => {
            proof {
                lemma_view_mapping(*entries);
            }
            flatten_into(entries, prefix, delimiter.as_str(), &mut out);
            assert(pairs_of(out@) =~= flat(value@, prefix@, delimiter.text()));
        },
        leaf => {
            if !prefix.is_empty() {
                let text = value_to_string(leaf);
                out.push((String::from_str(prefix), text));
                assert(pairs_of(out@) =~= flat(value@, prefix@, delimiter.text()));
            }
        },
    }
    let record = FlatRecord { entries: out };
    assert(record@ =~= pairs_of(out@));
    record
}

/// Flattens a value to one record of a table: the keys of nested mappings
/// are joined with underscores.
pub fn flatten(value: &Value, prefix: &str) -> (record: FlatRecord)
    requires
        value.wf(),
    ensures
        record@ == flat(value@, prefix@, Delimiter::Underscore.text()),
{
    flatten_with(value, prefix, Delimiter::Underscore)
}

/// The entries with `value` under `key`: in the place of the entry that has
/// the key, or at the end where none has it.
pub open spec fn put(entries: Seq<(Seq<char>, Tree)>, key: Seq<char>, value: Tree) -> Seq<
    (Seq<char>, Tree),
> {
    match first_index(keys_of(entries), key) {
        Some(at) => entries.update(at, (key, value)),
        None => entries.push((key, value)),
    }
}

/// The entries of a mapping after `value` has been put at the dotted path
/// `key`: under `key` itself where it holds no full stop; else in the
/// mapping under the segment before the first full stop, made where the
/// segment is new, at the path that follows that full stop. `None` where
/// that segment holds a value that is no mapping.
pub open spec fn nested(entries: Seq<(Seq<char>, Tree)>, key: Seq<char>, value: Tree) -> Option<
    Seq<(Seq<char>, Tree)>,
>
    decreases key.len(),
{
    match first_index(key, '.') {
        None => Some(put(entries, key, value)),
        Some(dot) => if 0 <= dot < key.len() {
            let segment = key.take(dot);
            let rest = key.skip(dot + 1);
            match first_index(keys_of(entries), segment) {
                None => match nested(Seq::empty(), rest, value) {
                    Some(inner) => Some(entries.push((segment, Tree::Mapping(inner)))),
                    None => None,
                },
                Some(at) => match entries[at].1 {
                    Tree::Mapping(inner) => match nested(inner, rest, value) {
                        Some(changed) => Some(entries.update(at, (segment, Tree::Mapping(changed)))),
                        None => None,
                    },
                    _ => None,
                },
            }
        } else {
            None
        },
    }
}

/// To put a well-formed value into a well-formed mapping leaves it
/// well-formed.
pub proof fn lemma_put_wf(entries: Seq<(Seq<char>, Tree)>, key: Seq<char>, value: Tree)
    requires
        Tree::Mapping(entries).wf(),
        value.wf(),
    ensures
        Tree::Mapping(put(entries, key, value)).wf(),
{
    let keys = keys_of(entries);
    let after = put(entries, key, value);
    lemma_first_index(keys, key);
    match first_index(keys, key) {
        Some(at) => {
            assert(keys_of(after) =~= keys);
            assert forall|i: int| 0 <= i < after.len() implies (#[trigger] after[i]).1.wf() by {
                if i != at {
                    assert(entries[i].1.wf());
                }
            }
        },
        None => {
            assert(keys_of(after) =~= keys.push(key));
            assert forall|i: int| 0 <= i < after.len() implies (#[trigger] after[i]).1.wf() by {
                if i < entries.len() {
                    assert(entries[i].1.wf());
                }
            }
        },
    }
}

/// To put a well-formed value at a dotted path of a well-formed mapping
/// leaves it well-formed.
pub proof fn lemma_nested_wf(entries: Seq<(Seq<char>, Tree)>, key: Seq<char>, value: Tree)
    requires
        Tree::Mapping(entries).wf(),
        value.wf(),
    ensures
        nested(entries, key, value) matches Some(after) ==> Tree::Mapping(after).wf(),
    decreases key.len(),
{
    lemma_first_index(key, '.');
    match first_index(key, '.') {
        None => {
            lemma_put_wf(entries, key, value);
        },
        Some(dot) => {
            let segment = key.take(dot);
            let rest = key.skip(dot + 1);
            let keys = keys_of(entries);
            lemma_first_index(keys, segment);
            match first_index(keys, segment) {
                None => {
                    let none = Seq::<(Seq<char>, Tree)>::empty();
                    assert(keys_of(none) =~= Seq::<Seq<char>>::empty());
                    lemma_nested_wf(none, rest, value);
                    if let Some(inner) = nested(none, rest, value) {
                        let after = entries.push((segment, Tree::Mapping(inner)));
                        assert(keys_of(after) =~= keys.push(segment));
                        assert forall|i: int| 0 <= i < after.len() implies (
                        #[trigger] after[i]).1.wf() by {
                            if i < entries.len() {
                                assert(entries[i].1.wf());
                            }
                        }
                    }
                },
                Some(at) => {
                    assert(entries[at].1.wf());
                    if let Tree::Mapping(inner) = entries[at].1 {
                        lemma_nested_wf(inner, rest, value);
                        if let Some(changed) = nested(inner, rest, value) {
                            let after = entries.update(at, (segment, Tree::Mapping(changed)));
                            assert(keys_of(after) =~= keys);
                            assert forall|i: int| 0 <= i < after.len() implies (
                            #[trigger] after[i]).1.wf() by {
                                if i != at {
                                    assert(entries[i].1.wf());
                                }
                            }
                        }
                    }
                },
            }
        },
    }
}

/// The place of the first entry with this key.
pub fn find_key(entries: &Vec<(String, Value)>, key: &str) -> (r: Option<usize>)
    ensures
        match r {
            Some(at) => at < entries.len() && entries@[at as int].0@ == key@ && first_index(
                keys_of(entries_of(entries@)),
                key@,
            ) == Some(at as int),
            None => first_index(keys_of(entries_of(entries@)), key@) is None,
        },
{
    let ghost keys = keys_of(entries_of(entries@));
    let mut i: usize = 0;
    while i < entries.len()
        invariant
            0 <= i <= entries.len(),
            keys == keys_of(entries_of(entries@)),
            forall|k: int| 0 <= k < i ==> keys[k] != key@,
        decreases entries.len() - i,
    {
        assert(keys[i as int] == entries@[i as int].0@);
        if same_text(entries[i].0.as_str(), key) {
            proof {
                lemma_first_index_is(keys, key@, i as int);
            }
            return Some(i);
        }
        i += 1;
    }
    proof {
        lemma_first_index_none(keys, key@);
    }
    None
}

/// Puts `value` under `key`: in the place of the entry that has the key, or
/// at the end where none has it.
pub fn put_entry(key: &str, value: Value, into: &mut Vec<(String, Value)>)
    ensures
        entries_of(final(into)@) == put(entries_of(old(into)@), key@, value@),
        Tree::Mapping(entries_of(old(into)@)).wf() && value.wf() ==> Tree::Mapping(
            entries_of(final(into)@),
        ).wf(),
{
    proof {
        if Tree::Mapping(entries_of(into@)).wf() && value.wf() {
            lemma_put_wf(entries_of(into@), key@, value@);
        }
    }
    match find_key(into, key) {
        Some(at) => {
            into[at] = (String::from_str(key), value);
        },
        None => {
            into.push((String::from_str(key), value));
        },
    }
    assert(entries_of(into@) =~= put(entries_of(old(into)@), key@, value@));
}

/// The entries of the mapping that comes of putting each value under its
/// key, one after the other, into a mapping that starts empty.
pub open spec fn put_each(pairs: Seq<(Seq<char>, Tree)>) -> Seq<(Seq<char>, Tree)>
    decreases pairs.len(),
{
    if pairs.len() == 0 {
        Seq::empty()
    } else {
        put(put_each(pairs.drop_last()), pairs.last().0, pairs.last().1)
    }
}

/// What `put_each` builds of well-formed values is well-formed.
pub proof fn lemma_put_each_wf(pairs: Seq<(Seq<char>, Tree)>)
    requires
        forall|i: int| 0 <= i < pairs.len() ==> (#[trigger] pairs[i]).1.wf(),
    ensures
        Tree::Mapping(put_each(pairs)).wf(),
    decreases pairs.len(),
{
    if pairs.len() == 0 {
        assert(keys_of(Seq::<(Seq<char>, Tree)>::empty()) =~= Seq::<Seq<char>>::empty());
    } else {
        let rest = pairs.drop_last();
        assert forall|i: int| 0 <= i < rest.len() implies (#[trigger] rest[i]).1.wf() by {
            assert(pairs[i].1.wf());
        }
        lemma_put_each_wf(rest);
        assert(pairs[pairs.len() - 1].1.wf());
        lemma_put_wf(put_each(rest), pairs.last().0, pairs.last().1);
    }
}

/// Builds a mapping of values given with their keys, put one after the
/// other: a key that comes again replaces the value it had.
pub fn put_all(pairs: Vec<(String, Value)>) -> (value: Value)
    ensures
        value@ == Tree::Mapping(put_each(entries_of(pairs@))),
        (forall|i: int| 0 <= i < pairs@.len() ==> (#[trigger] pairs@[i]).1.wf()) ==> value.wf(),
{
    proof {
        if forall|i: int| 0 <= i < pairs@.len() ==> (#[trigger] pairs@[i]).1.wf() {
            assert forall|i: int| 0 <= i < entries_of(pairs@).len() implies (
            #[trigger] entries_of(pairs@)[i]).1.wf() by {
                assert(pairs@[i].1.wf());
            }
            lemma_put_each_wf(entries_of(pairs@));
        }
    }
    let ghost given = entries_of(pairs@);
    let ghost source = pairs@;
    let mut into: Vec<(String, Value)> = Vec::new();
    assert(entries_of(into@) =~= Seq::empty());
    assert(given.take(0) =~= Seq::empty());
    for pair in it: pairs
        invariant
            it.seq() == source,
            given == entries_of(source),
            put_each(given.take(it.index())) == entries_of(into@),
    {
        let ghost k = it.index();
        proof {
            assert(given.take(k + 1).drop_last() == given.take(k));
            assert(given.take(k + 1).last() == (pair.0@, pair.1@));
        }
        let (key, value) = pair;
        put_entry(key.as_str(), value, &mut into);
    }
    proof {
        assert(given.take(given.len() as int) == given);
        lemma_view_mapping(into);
    }
    Value::Mapping(into)
}

/// How the outcome of `nest` stands to `nested`: done where `nested` gives
/// the new entries, refused with nothing changed where it gives none.
pub open spec fn nest_result(
    before: Seq<(String, Value)>,
    key: Seq<char>,
    value: Tree,
    r: Result<(), FormatError>,
    after: Seq<(String, Value)>,
) -> bool {
    match nested(entries_of(before), key, value) {
        Some(entries) => r is Ok && entries_of(after) == entries,
        None => r is Err && r->Err_0.kind() == Failure::StructureConflict && entries_of(after)
            == entries_of(before),
    }
}

/// Puts `value` at the dotted path `flat_key` of the mapping whose entries
/// are `into`. A segment of the path that is new gets a mapping of its own.
/// Where a segment before the last holds a value that is no mapping, nothing
/// is changed and the conflict is reported.
pub fn nest(flat_key: &str, value: Value, into: &mut Vec<(String, Value)>) -> (r: Result<
    (),
    FormatError,
>)
    ensures
        nest_result(old(into)@, flat_key@, value@, r, final(into)@),
        Tree::Mapping(entries_of(old(into)@)).wf() && value.wf() ==> Tree::Mapping(
            entries_of(final(into)@),
        ).wf(),
    decreases flat_key@.len(),
{
    proof {
        if Tree::Mapping(entries_of(into@)).wf() && value.wf() {
            lemma_nested_wf(entries_of(into@), flat_key@, value@);
        }
    }
    match find_char(flat_key, '.') {
        None => {
            put_entry(flat_key, value, into);
            Ok(())
        },
        Some(dot) => {
            proof {
                lemma_first_index(flat_key@, '.');
            }
            let length = flat_key.unicode_len();
            let segment = flat_key.substring_char(0, dot);
            let rest = flat_key.substring_char(dot + 1, length);
            assert(segment@ == flat_key@.take(dot as int));
            assert(rest@ == flat_key@.skip(dot + 1));
            let ghost before = entries_of(into@);
            match find_key(into, segment) {
                None => {
                    let mut inner: Vec<(String, Value)> = Vec::new();
                    assert(entries_of(inner@) =~= Seq::empty());
                    match nest(rest, value, &mut inner) {
                        Ok(()) => {
                            proof {
                                lemma_view_mapping(inner);
                            }
                            into.push((String::from_str(segment), Value::Mapping(inner)));
                            assert(entries_of(into@) =~= before.push(
                                (segment@, Tree::Mapping(entries_of(inner@))),
                            ));
                            Ok(())
                        },
                        Err(e) => Err(e),
                    }
                },
                Some(at) => {
                    assert(before[at as int] == (into@[at as int].0@, into@[at as int].1@));
                    let r = match &mut into[at].1 {
                        Value::Mapping(inner) => {
                            proof {
                                lemma_view_mapping(*inner);
                            }
                            let r = nest(rest, value, inner);
                            proof {
                                lemma_view_mapping(*inner);
                            }
                            r
                        },
                        _ => Err(FormatError::StructureConflict(String::from_str(flat_key))),
                    };
                    proof {
                        if r is Err {
                            assert(entries_of(into@) =~= before);
                        } else {
                            let changed = nested(before[at as int].1->Mapping_0, rest@, value@)->0;
                            assert(into@[at as int].1@ == Tree::Mapping(changed));
                            assert(entries_of(into@) =~= before.update(
                                at as int,
                                (segment@, Tree::Mapping(changed)),
                            ));
                        }
                    }
                    r
                },
            }
        },
    }
}

/// The entries of a mapping that starts as `start`, after each value has
/// been put at its dotted path, one after the other; `None` where one of
/// them cannot be put.
pub open spec fn nested_from(start: Seq<(Seq<char>, Tree)>, pairs: Seq<(Seq<char>, Tree)>) -> Option<
    Seq<(Seq<char>, Tree)>,
>
    decreases pairs.len(),
{
    if pairs.len() == 0 {
        Some(start)
    } else {
        match nested_from(start, pairs.drop_last()) {
            Some(entries) => nested(entries, pairs.last().0, pairs.last().1),
            None => None,
        }
    }
}

/// The entries of the mapping that comes of putting each value at its
/// dotted path, one after the other, into a mapping that starts empty;
/// `None` where one of them cannot be put.
pub open spec fn nested_all(pairs: Seq<(Seq<char>, Tree)>) -> Option<Seq<(Seq<char>, Tree)>> {
    nested_from(Seq::empty(), pairs)
}

/// What `nested_from` builds of well-formed values on a well-formed start is
/// well-formed.
pub proof fn lemma_nested_from_wf(start: Seq<(Seq<char>, Tree)>, pairs: Seq<(Seq<char>, Tree)>)
    requires
        Tree::Mapping(start).wf(),
        forall|i: int| 0 <= i < pairs.len() ==> (#[trigger] pairs[i]).1.wf(),
    ensures
        nested_from(start, pairs) matches Some(entries) ==> Tree::Mapping(entries).wf(),
    decreases pairs.len(),
{
    if pairs.len() > 0 {
        let rest = pairs.drop_last();
        assert forall|i: int| 0 <= i < rest.len() implies (#[trigger] rest[i]).1.wf() by {
            assert(pairs[i].1.wf());
        }
        lemma_nested_from_wf(start, rest);
        if let Some(entries) = nested_from(start, rest) {
            assert(pairs[pairs.len() - 1].1.wf());
            lemma_nested_wf(entries, pairs.last().0, pairs.last().1);
        }
    }
}

/// What `nested_all` builds of well-formed values is well-formed.
pub proof fn lemma_nested_all_wf(pairs: Seq<(Seq<char>, Tree)>)
    requires
        forall|i: int| 0 <= i < pairs.len() ==> (#[trigger] pairs[i]).1.wf(),
    ensures
        nested_all(pairs) matches Some(entries) ==> Tree::Mapping(entries).wf(),
{
    assert(keys_of(Seq::<(Seq<char>, Tree)>::empty()) =~= Seq::<Seq<char>>::empty());
    lemma_nested_from_wf(Seq::empty(), pairs);
}

/// Builds a mapping of values given with their dotted paths, put one after
/// the other.
pub fn nest_all(pairs: Vec<(String, Value)>) -> (r: Result<Value, FormatError>)
    ensures
        match nested_all(entries_of(pairs@)) {
            Some(entries) => r is Ok && r->Ok_0@ == Tree::Mapping(entries),
            None => r is Err && r->Err_0.kind() == Failure::StructureConflict,
        },
        (forall|i: int| 0 <= i < pairs@.len() ==> (#[trigger] pairs@[i]).1.wf()) && r is Ok
            ==> r->Ok_0.wf(),
{
    proof {
        if forall|i: int| 0 <= i < pairs@.len() ==> (#[trigger] pairs@[i]).1.wf() {
            assert forall|i: int| 0 <= i < entries_of(pairs@).len() implies (
            #[trigger] entries_of(pairs@)[i]).1.wf() by {
                assert(pairs@[i].1.wf());
            }
            lemma_nested_all_wf(entries_of(pairs@));
        }
    }
    let ghost given = entries_of(pairs@);
    let ghost source = pairs@;
    let mut into: Vec<(String, Value)> = Vec::new();
    assert(entries_of(into@) =~= Seq::empty());
    assert(given.take(0) =~= Seq::empty());
    for pair in it: pairs
        invariant
            it.seq() == source,
            given == entries_of(source),
            nested_from(Seq::empty(), given.take(it.index())) == Some(entries_of(into@)),
    {
        let ghost k = it.index();
        proof {
            assert(given.take(k + 1).drop_last() == given.take(k));
            assert(given.take(k + 1).last() == (pair.0@, pair.1@));
        }
        let (key, value) = pair;
        match nest(key.as_str(), value, &mut into) {
            Ok(()) => {},
            Err(e) => {
                proof {
                    lemma_nested_from_none(Seq::empty(), given, k + 1);
                }
                return Err(e);
            },
        }
    }
    proof {
        assert(given.take(given.len() as int) == given);
        lemma_view_mapping(into);
    }
    Ok(Value::Mapping(into))
}

/// Where the first `k` pairs cannot all be put, neither can all the pairs.
proof fn lemma_nested_from_none(
    start: Seq<(Seq<char>, Tree)>,
    pairs: Seq<(Seq<char>, Tree)>,
    k: int,
)
    requires
        0 <= k <= pairs.len(),
        nested_from(start, pairs.take(k)) is None,
    ensures
        nested_from(start, pairs) is None,
    decreases pairs.len() - k,
{
    if k < pairs.len() {
        assert(pairs.take(k + 1).drop_last() == pairs.take(k));
        lemma_nested_from_none(start, pairs, k + 1);
    } else {
        assert(pairs.take(k) == pairs);
    }
}

} // verus!
