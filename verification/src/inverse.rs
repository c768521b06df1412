use crate::path::{flat, flat_entries, nested, nested_all, nested_from, put, render, Delimiter};
use crate::text::{
    first_index, join, lemma_first_index, lemma_first_index_is, lemma_first_index_none,
};
use crate::value::{entries_of, keys_of, lemma_view_mapping, Tree, Value};
use vstd::prelude::*;

verus! {

/// A record as the pairs that `nest` takes: each text as a value.
pub open spec fn as_pairs(record: Seq<(Seq<char>, Seq<char>)>) -> Seq<(Seq<char>, Tree)> {
    Seq::new(record.len(), |i: int| (record[i].0, Tree::Text(record[i].1)))
}

/// The entries of a mapping with each value that is no mapping, at any
/// depth, replaced by its text.
pub open spec fn text_entries(entries: Seq<(Seq<char>, Tree)>) -> Seq<(Seq<char>, Tree)>
    decreases entries,
{
    if entries.len() == 0 {
        Seq::empty()
    } else {
        let last = entries.last();
        text_entries(entries.drop_last()).push(
            (
                last.0,
                match last.1 {
                    Tree::Mapping(inner) => Tree::Mapping(text_entries(inner)),
                    leaf => Tree::Text(render(leaf)),
                },
            ),
        )
    }
}

/// Whether every value that is no mapping, at any depth, is a text.
pub open spec fn all_text(entries: Seq<(Seq<char>, Tree)>) -> bool
    decreases entries,
{
    if entries.len() == 0 {
        true
    } else {
        let last = entries.last();
        &&& all_text(entries.drop_last())
        &&& match last.1 {
            Tree::Mapping(inner) => all_text(inner),
            leaf => leaf is Text,
        }
    }
}

/// Whether the key holds no full stop.
pub open spec fn dot_free(key: Seq<char>) -> bool {
    forall|i: int| 0 <= i < key.len() ==> key[i] != '.'
}

/// The mappings that dotted keys can give back: no key holds a full stop,
/// no mapping below the outermost is empty, and in the outermost (`top`) no
/// mapping stands under the empty key.
pub open spec fn invertible(entries: Seq<(Seq<char>, Tree)>, top: bool) -> bool
    decreases entries,
{
    if entries.len() == 0 {
        true
    } else {
        let last = entries.last();
        &&& invertible(entries.drop_last(), top)
        &&& dot_free(last.0)
        &&& match last.1 {
            Tree::Mapping(inner) => {
                &&& inner.len() > 0
                &&& top ==> last.0.len() > 0
                &&& invertible(inner, false)
            },
            _ => true,
        }
    }
}

/// The pairs with `prefix` and a full stop before each key.
pub open spec fn prefixed(prefix: Seq<char>, pairs: Seq<(Seq<char>, Tree)>) -> Seq<(Seq<char>, Tree)> {
    Seq::new(pairs.len(), |i: int| (prefix + seq!['.'] + pairs[i].0, pairs[i].1))
}

/// A value that is no mapping as it goes into a pair: itself, or its text
/// where `as_text`.
pub open spec fn leaf_value(leaf: Tree, as_text: bool) -> Tree {
    if as_text {
        Tree::Text(render(leaf))
    } else {
        leaf
    }
}

/// The values of a mapping that are no mappings, at any depth, in their
/// order: each with its path, the keys that lead to it with a full stop
/// between one and the next. With `as_text` each value goes as its text.
pub open spec fn dotted_leaves(entries: Seq<(Seq<char>, Tree)>, as_text: bool) -> Seq<
    (Seq<char>, Tree),
>
    decreases entries,
{
    if entries.len() == 0 {
        Seq::empty()
    } else {
        let last = entries.last();
        dotted_leaves(entries.drop_last(), as_text) + match last.1 {
            Tree::Mapping(inner) => prefixed(last.0, dotted_leaves(inner, as_text)),
            leaf => seq![(last.0, leaf_value(leaf, as_text))],
        }
    }
}

/// The mapping that `dotted_leaves` can give back: the mapping itself, or
/// its text form where the leaves went as texts.
pub open spec fn given_back(entries: Seq<(Seq<char>, Tree)>, as_text: bool) -> Seq<
    (Seq<char>, Tree),
> {
    if as_text {
        text_entries(entries)
    } else {
        entries
    }
}

/// Appends the leaves below a mapping's entry to `out`, each with `prefix`
/// and a full stop before its path.
fn leaves_below(entries: Vec<(String, Value)>, prefix: &str, out: &mut Vec<(String, Value)>)
    ensures
        entries_of(final(out)@) == entries_of(old(out)@) + prefixed(
            prefix@,
            dotted_leaves(entries_of(entries@), false),
        ),
    decreases entries,
{
    let ghost given = entries@;
    let ghost below = entries_of(given);
    let ghost start = entries_of(out@);
    proof {
        reveal_strlit(".");
        assert("."@ =~= seq!['.']);
        assert(below.take(0) =~= Seq::empty());
        assert(start + prefixed(prefix@, dotted_leaves(below.take(0), false)) =~= start);
    }
    for entry in it: entries
        invariant
            it.seq() == given,
            given == entries@,
            below == entries_of(given),
            "."@ == seq!['.'],
            entries_of(out@) == start + prefixed(
                prefix@,
                dotted_leaves(below.take(it.index()), false),
            ),
    {
        let ghost k = it.index();
        let ghost before = entries_of(out@);
        let ghost done = dotted_leaves(below.take(k), false);
        proof {
            assert(below.take(k + 1).drop_last() == below.take(k));
            assert(below.take(k + 1).last() == (entry.0@, entry.1@));
        }
        let (key, value) = entry;
        let path = join(prefix, ".", key.as_str());
        match value {
            Value::Mapping(inner) => {
                proof {
                    lemma_view_mapping(inner);
                    assert(decreases_to!(entries => entries@[k].1->Mapping_0));
                }
                let ghost part = dotted_leaves(entries_of(inner@), false);
                leaves_below(inner, path.as_str(), out);
                proof {
                    assert(prefixed(path@, part) =~= prefixed(prefix@, prefixed(key@, part))) by {
                        assert forall|i: int| 0 <= i < part.len() implies prefixed(path@, part)[i]
                            == prefixed(prefix@, prefixed(key@, part))[i] by {
                            assert(path@ + seq!['.'] + part[i].0 =~= prefix@ + seq!['.'] + (key@
                                + seq!['.'] + part[i].0));
                        }
                    }
                    assert(prefixed(prefix@, done + prefixed(key@, part)) =~= prefixed(prefix@, done)
                        + prefixed(prefix@, prefixed(key@, part)));
                    assert(entries_of(out@) =~= start + prefixed(
                        prefix@,
                        dotted_leaves(below.take(k + 1), false),
                    ));
                }
            },
            leaf => {
                let ghost pair = (key@, leaf@);
                out.push((path, leaf));
                proof {
                    assert(entries_of(out@) =~= before.push((path@, leaf@)));
                    assert(prefixed(prefix@, done + seq![pair]) =~= prefixed(prefix@, done).push(
                        (path@, leaf@),
                    ));
                    assert(entries_of(out@) =~= start + prefixed(
                        prefix@,
                        dotted_leaves(below.take(k + 1), false),
                    ));
                }
            },
        }
    }
    proof {
        assert(below.take(below.len() as int) == below);
    }
}

/// Takes a mapping apart into its values that are no mappings, each with
/// its dotted path: the pairs that `nest_all` builds the mapping of again.
pub fn dotted_pairs(entries: Vec<(String, Value)>) -> (pairs: Vec<(String, Value)>)
    ensures
        entries_of(pairs@) == dotted_leaves(entries_of(entries@), false),
{
    let ghost given = entries@;
    let ghost below = entries_of(given);
    let mut out: Vec<(String, Value)> = Vec::new();
    proof {
        assert(below.take(0) =~= Seq::empty());
        assert(entries_of(out@) =~= dotted_leaves(below.take(0), false));
    }
    for entry in it: entries
        invariant
            it.seq() == given,
            below == entries_of(given),
            entries_of(out@) == dotted_leaves(below.take(it.index()), false),
    {
        let ghost k = it.index();
        let ghost before = entries_of(out@);
        proof {
            assert(below.take(k + 1).drop_last() == below.take(k));
            assert(below.take(k + 1).last() == (entry.0@, entry.1@));
        }
        let (key, value) = entry;
        match value {
            Value::Mapping(inner) => {
                proof {
                    lemma_view_mapping(inner);
                }
                leaves_below(inner, key.as_str(), &mut out);
            },
            leaf => {
                let ghost shown = leaf@;
                out.push((key, leaf));
                assert(entries_of(out@) =~= before.push((key@, shown)));
            },
        }
    }
    proof {
        assert(below.take(below.len() as int) == below);
    }
    out
}

/// The text form of a mapping has the keys of the mapping.
proof fn lemma_text_entries_keys(entries: Seq<(Seq<char>, Tree)>)
    ensures
        keys_of(text_entries(entries)) == keys_of(entries),
    decreases entries.len(),
{
    if entries.len() > 0 {
        lemma_text_entries_keys(entries.drop_last());
        assert(keys_of(text_entries(entries)) =~= keys_of(text_entries(entries.drop_last())).push(
            entries.last().0,
        ));
        assert(keys_of(entries) =~= keys_of(entries.drop_last()).push(entries.last().0));
    } else {
        assert(keys_of(text_entries(entries)) =~= keys_of(entries));
    }
}

/// Below a prefix that is not empty, the flattened entries are the dotted
/// ones with the prefix before each key.
proof fn lemma_flat_is_prefixed(entries: Seq<(Seq<char>, Tree)>, prefix: Seq<char>)
    requires
        prefix.len() > 0,
    ensures
        as_pairs(flat_entries(entries, prefix, Delimiter::Dot.text())) == prefixed(
            prefix,
            dotted_leaves(entries, true),
        ),
    decreases entries,
{
    let dot = Delimiter::Dot.text();
    if entries.len() == 0 {
        assert(as_pairs(flat_entries(entries, prefix, dot)) =~= prefixed(prefix, dotted_leaves(entries, true)));
    } else {
        let last = entries.last();
        let rest = entries.drop_last();
        let key = prefix + dot + last.0;
        lemma_flat_is_prefixed(rest, prefix);
        match last.1 {
            Tree::Mapping(inner) => {
                lemma_flat_is_prefixed(inner, key);
                let below = dotted_leaves(inner, true);
                assert(prefixed(key, below) =~= prefixed(prefix, prefixed(last.0, below))) by {
                    assert forall|i: int| 0 <= i < below.len() implies prefixed(key, below)[i]
                        == prefixed(prefix, prefixed(last.0, below))[i] by {
                        assert(key + seq!['.'] + below[i].0 =~= prefix + seq!['.'] + (last.0
                            + seq!['.'] + below[i].0));
                    }
                }
                assert(as_pairs(flat_entries(entries, prefix, dot)) =~= as_pairs(
                    flat_entries(rest, prefix, dot),
                ) + as_pairs(flat_entries(inner, key, dot)));
                assert(prefixed(prefix, dotted_leaves(entries, true)) =~= prefixed(prefix, dotted_leaves(rest, true))
                    + prefixed(prefix, prefixed(last.0, below)));
            },
            leaf => {
                assert(as_pairs(flat_entries(entries, prefix, dot)) =~= as_pairs(
                    flat_entries(rest, prefix, dot),
                ) + seq![(key, Tree::Text(render(leaf)))]);
                assert(prefixed(prefix, dotted_leaves(entries, true)) =~= prefixed(prefix, dotted_leaves(rest, true))
                    + seq![(key, Tree::Text(render(leaf)))]);
            },
        }
    }
}

/// Without a prefix, the flattened entries of an invertible mapping are its
/// dotted leaves as texts.
proof fn lemma_flat_is_leaves(entries: Seq<(Seq<char>, Tree)>)
    requires
        invertible(entries, true),
    ensures
        as_pairs(flat_entries(entries, Seq::empty(), Delimiter::Dot.text())) == dotted_leaves(entries, true),
    decreases entries.len(),
{
    let dot = Delimiter::Dot.text();
    let none = Seq::<char>::empty();
    if entries.len() == 0 {
        assert(as_pairs(flat_entries(entries, none, dot)) =~= dotted_leaves(entries, true));
    } else {
        let last = entries.last();
        let rest = entries.drop_last();
        lemma_flat_is_leaves(rest);
        match last.1 {
            Tree::Mapping(inner) => {
                lemma_flat_is_prefixed(inner, last.0);
                assert(as_pairs(flat_entries(entries, none, dot)) =~= as_pairs(
                    flat_entries(rest, none, dot),
                ) + as_pairs(flat_entries(inner, last.0, dot)));
            },
            leaf => {
                assert(as_pairs(flat_entries(entries, none, dot)) =~= as_pairs(
                    flat_entries(rest, none, dot),
                ) + seq![(last.0, Tree::Text(render(leaf)))]);
            },
        }
    }
}

/// To put one run of pairs and then another is to put the two runs joined.
proof fn lemma_nested_from_joined(
    start: Seq<(Seq<char>, Tree)>,
    first: Seq<(Seq<char>, Tree)>,
    second: Seq<(Seq<char>, Tree)>,
)
    ensures
        nested_from(start, first + second) == match nested_from(start, first) {
            Some(entries) => nested_from(entries, second),
            None => None,
        },
    decreases second.len(),
{
    if second.len() == 0 {
        assert(first + second =~= first);
    } else {
        assert((first + second).drop_last() =~= first + second.drop_last());
        assert((first + second).last() == second.last());
        lemma_nested_from_joined(start, first, second.drop_last());
    }
}

/// A key that holds no full stop, a full stop and a path, taken apart at the
/// first full stop, are that key and that path.
proof fn lemma_split_prefixed(key: Seq<char>, rest: Seq<char>)
    requires
        dot_free(key),
    ensures
        first_index(key + seq!['.'] + rest, '.') == Some(key.len() as int),
        (key + seq!['.'] + rest).take(key.len() as int) == key,
        (key + seq!['.'] + rest).skip(key.len() as int + 1) == rest,
{
    let whole = key + seq!['.'] + rest;
    assert forall|j: int| 0 <= j < key.len() implies whole[j] != '.' by {
        assert(whole[j] == key[j]);
    }
    assert(whole[key.len() as int] == '.');
    lemma_first_index_is(whole, '.', key.len() as int);
    assert(whole.take(key.len() as int) =~= key);
    assert(whole.skip(key.len() as int + 1) =~= rest);
}

/// Pairs that build a mapping, each below the same new key, build that
/// mapping under the key.
proof fn lemma_nested_below(
    start: Seq<(Seq<char>, Tree)>,
    key: Seq<char>,
    pairs: Seq<(Seq<char>, Tree)>,
    built: Seq<(Seq<char>, Tree)>,
)
    requires
        dot_free(key),
        first_index(keys_of(start), key) is None,
        pairs.len() > 0,
        nested_from(Seq::empty(), pairs) == Some(built),
    ensures
        nested_from(start, prefixed(key, pairs)) == Some(start.push((key, Tree::Mapping(built)))),
    decreases pairs.len(),
{
    let none = Seq::<(Seq<char>, Tree)>::empty();
    let shorter = pairs.drop_last();
    let path = pairs.last().0;
    let value = pairs.last().1;
    let long = prefixed(key, pairs);
    assert(long.drop_last() =~= prefixed(key, shorter));
    assert(long.last() == (key + seq!['.'] + path, value));
    lemma_split_prefixed(key, path);
    if shorter.len() == 0 {
        assert(nested_from(none, shorter) == Some(none));
        assert(nested_from(start, long.drop_last()) == Some(start));
        assert(nested(none, path, value) == Some(built));
    } else {
        let before = nested_from(none, shorter)->0;
        lemma_nested_below(start, key, shorter, before);
        let grown = start.push((key, Tree::Mapping(before)));
        assert(keys_of(grown) =~= keys_of(start).push(key));
        lemma_first_index(keys_of(start), key);
        lemma_first_index_is(keys_of(grown), key, start.len() as int);
        assert(grown[start.len() as int].1 == Tree::Mapping(before));
        assert(nested(before, path, value) == Some(built));
        assert(grown.update(start.len() as int, (key, Tree::Mapping(built))) =~= start.push(
            (key, Tree::Mapping(built)),
        ));
    }
}

/// An invertible mapping that is not empty has a leaf.
proof fn lemma_leaves_not_empty(entries: Seq<(Seq<char>, Tree)>, top: bool, as_text: bool)
    requires
        invertible(entries, top),
        entries.len() > 0,
    ensures
        dotted_leaves(entries, as_text).len() > 0,
    decreases entries,
{
    match entries.last().1 {
        Tree::Mapping(inner) => {
            lemma_leaves_not_empty(inner, false, as_text);
        },
        _ => {},
    }
}

/// A mapping that is invertible as the outermost is invertible below.
proof fn lemma_invertible_below(entries: Seq<(Seq<char>, Tree)>)
    requires
        invertible(entries, true),
    ensures
        invertible(entries, false),
    decreases entries.len(),
{
    if entries.len() > 0 {
        lemma_invertible_below(entries.drop_last());
    }
}

/// The leaves of an invertible mapping, put at their paths one after the
/// other, build the mapping again.
proof fn lemma_leaves_nest(entries: Seq<(Seq<char>, Tree)>, as_text: bool)
    requires
        Tree::Mapping(entries).wf(),
        invertible(entries, false),
    ensures
        nested_from(Seq::empty(), dotted_leaves(entries, as_text)) == Some(
            given_back(entries, as_text),
        ),
    decreases entries,
{
    let none = Seq::<(Seq<char>, Tree)>::empty();
    if entries.len() > 0 {
        let last = entries.last();
        let rest = entries.drop_last();
        let key = last.0;
        assert(Tree::Mapping(rest).wf()) by {
            assert(keys_of(rest) =~= keys_of(entries).drop_last());
            assert forall|i: int| 0 <= i < rest.len() implies (#[trigger] rest[i]).1.wf() by {
                assert(entries[i].1.wf());
            }
        }
        lemma_leaves_nest(rest, as_text);
        let built = given_back(rest, as_text);
        lemma_text_entries_keys(rest);
        assert(first_index(keys_of(built), key) is None) by {
            assert forall|j: int| 0 <= j < keys_of(rest).len() implies keys_of(rest)[j] != key by {
                assert(keys_of(entries)[j] == keys_of(rest)[j]);
                assert(keys_of(entries)[entries.len() - 1] == key);
            }
            lemma_first_index_none(keys_of(rest), key);
        }
        match last.1 {
            Tree::Mapping(inner) => {
                assert(entries[entries.len() - 1].1.wf());
                lemma_leaves_nest(inner, as_text);
                lemma_leaves_not_empty(inner, false, as_text);
                lemma_nested_below(
                    built,
                    key,
                    dotted_leaves(inner, as_text),
                    given_back(inner, as_text),
                );
                lemma_nested_from_joined(
                    none,
                    dotted_leaves(rest, as_text),
                    prefixed(key, dotted_leaves(inner, as_text)),
                );
                assert(given_back(entries, as_text) =~= built.push(
                    (key, Tree::Mapping(given_back(inner, as_text))),
                ));
            },
            leaf => {
                let pair = (key, leaf_value(leaf, as_text));
                let one = seq![pair];
                lemma_nested_from_joined(none, dotted_leaves(rest, as_text), one);
                assert(one.drop_last() =~= none);
                assert(nested_from(built, one.drop_last()) == Some(built));
                assert(one.last() == pair);
                lemma_first_index_none(key, '.');
                assert(nested(built, key, pair.1) == Some(put(built, key, pair.1)));
                assert(given_back(entries, as_text) =~= built.push(pair));
            },
        }
    }
}

/// To put every value of a mapping that is no mapping at its dotted path,
/// one after the other, into a mapping that starts empty gives the mapping
/// back: the same keys in the same order at every depth, and the same value
/// at every path. This holds of every mapping in which no key holds a full
/// stop and no mapping below the outermost is empty.
pub proof fn lemma_nest_inverts_dotted_leaves(entries: Seq<(Seq<char>, Tree)>)
    requires
        Tree::Mapping(entries).wf(),
        invertible(entries, false),
    ensures
        nested_all(dotted_leaves(entries, false)) == Some(entries),
{
    lemma_leaves_nest(entries, false);
}

/// To flatten a mapping with full stops between the keys and to nest the
/// record again gives the mapping back, with each value that is no mapping
/// as its text: for every mapping in which no key holds a full stop, no
/// mapping below the outermost is empty, and no mapping stands under the
/// empty key of the outermost.
pub proof fn lemma_nest_inverts_flatten(entries: Seq<(Seq<char>, Tree)>)
    requires
        Tree::Mapping(entries).wf(),
        invertible(entries, true),
    ensures
        nested_all(as_pairs(flat(Tree::Mapping(entries), Seq::empty(), Delimiter::Dot.text())))
            == Some(text_entries(entries)),
{
    lemma_flat_is_leaves(entries);
    lemma_invertible_below(entries);
    lemma_leaves_nest(entries, true);
}

/// A mapping whose values are texts and mappings of such is its own text
/// form.
pub proof fn lemma_text_entries_of_texts(entries: Seq<(Seq<char>, Tree)>)
    requires
        all_text(entries),
    ensures
        text_entries(entries) == entries,
    decreases entries,
{
    if entries.len() > 0 {
        lemma_text_entries_of_texts(entries.drop_last());
        match entries.last().1 {
            Tree::Mapping(inner) => {
                lemma_text_entries_of_texts(inner);
            },
            _ => {},
        }
        assert(text_entries(entries) =~= entries);
    } else {
        assert(text_entries(entries) =~= entries);
    }
}

/// To flatten a mapping of texts with full stops between the keys and to
/// nest the record again gives the same mapping.
pub proof fn lemma_nest_inverts_flatten_of_texts(entries: Seq<(Seq<char>, Tree)>)
    requires
        Tree::Mapping(entries).wf(),
        invertible(entries, true),
        all_text(entries),
    ensures
        nested_all(as_pairs(flat(Tree::Mapping(entries), Seq::empty(), Delimiter::Dot.text())))
            == Some(entries),
{
    lemma_nest_inverts_flatten(entries);
    lemma_text_entries_of_texts(entries);
}

} // verus!
