use crate::text::same_text;
use vstd::prelude::*;

verus! {

/// One row of a table before it has columns: keys with the text under each,
/// in the order in which they were put. Where a key stands more than once,
/// its last entry counts.
#[derive(Debug, PartialEq, Eq)]
pub struct FlatRecord {
    pub entries: Vec<(String, String)>,
}

/// What a vector of keyed texts denotes, entry by entry.
pub open spec fn pairs_of(entries: Seq<(String, String)>) -> Seq<(Seq<char>, Seq<char>)> {
    Seq::new(entries.len(), |i: int| (entries[i].0@, entries[i].1@))
}

impl View for FlatRecord {
    type V = Seq<(Seq<char>, Seq<char>)>;

    open spec fn view(&self) -> Seq<(Seq<char>, Seq<char>)> {
        pairs_of(self.entries@)
    }
}

/// The text that a record holds under `key`: that of the last entry with
/// this key.
pub open spec fn lookup(record: Seq<(Seq<char>, Seq<char>)>, key: Seq<char>) -> Option<Seq<char>>
    decreases record.len(),
{
    if record.len() == 0 {
        None
    } else if record.last().0 == key {
        Some(record.last().1)
    } else {
        lookup(record.drop_last(), key)
    }
}

/// Whether some entry of the record has this key.
pub open spec fn has_key(record: Seq<(Seq<char>, Seq<char>)>, key: Seq<char>) -> bool {
    exists|i: int| 0 <= i < record.len() && (#[trigger] record[i]).0 == key
}

/// A record holds a text under exactly the keys of its entries.
pub proof fn lemma_lookup_some(record: Seq<(Seq<char>, Seq<char>)>, key: Seq<char>)
    ensures
        lookup(record, key) is Some <==> has_key(record, key),
    decreases record.len(),
{
    if record.len() > 0 {
        let rest = record.drop_last();
        lemma_lookup_some(rest, key);
        if record.last().0 == key {
            assert(record[record.len() - 1].0 == key);
        } else {
            if has_key(record, key) {
                let i = choose|i: int| 0 <= i < record.len() && (#[trigger] record[i]).0 == key;
                assert(rest[i].0 == key);
            }
            if has_key(rest, key) {
                let i = choose|i: int| 0 <= i < rest.len() && (#[trigger] rest[i]).0 == key;
                assert(record[i].0 == key);
            }
        }
    }
}

impl FlatRecord {
    /// A record without entries.
    pub fn new() -> (record: FlatRecord)
        ensures
            record@ == Seq::<(Seq<char>, Seq<char>)>::empty(),
    {
        let record = FlatRecord { entries: Vec::new() };
        assert(record@ =~= Seq::empty());
        record
    }

    /// The text under `key`, if the record has the key.
    pub fn get(&self, key: &str) -> (r: Option<&String>)
        ensures
            match r {
                Some(text) => lookup(self@, key@) == Some(text@),
                None => lookup(self@, key@) is None,
            },
    {
        let mut i: usize = self.entries.len();
        assert(self@.take(i as int) == self@);
        while i > 0
            invariant
                0 <= i <= self.entries.len(),
                lookup(self@, key@) == lookup(self@.take(i as int), key@),
            decreases i,
        {
            i -= 1;
            assert(self@.take(i + 1).drop_last() == self@.take(i as int));
            assert(self@.take(i + 1).last() == self@[i as int]);
            if same_text(self.entries[i].0.as_str(), key) {
                return Some(&self.entries[i].1);
            }
        }
        None
    }
}

} // verus!
