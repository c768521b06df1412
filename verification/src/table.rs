use crate::record::{has_key, lemma_lookup_some, lookup, FlatRecord};
use crate::text::{
    compare, grid_of, lemma_precedes_asymmetric, lemma_precedes_transitive, lemma_rank, precedes,
    texts_of, Rank,
};
use vstd::prelude::*;

verus! {

/// A table: the keys of its columns, and the cells of each row under them.
#[derive(Debug, PartialEq, Eq)]
pub struct Table {
    pub header: Vec<String>,
    pub rows: Vec<Vec<String>>,
}

/// What a vector of records denotes, record by record.
pub open spec fn records_of(records: Seq<FlatRecord>) -> Seq<Seq<(Seq<char>, Seq<char>)>> {
    Seq::new(records.len(), |i: int| records[i]@)
}

/// Each key comes before all that follow it; so none stands twice.
pub open spec fn ascending(keys: Seq<Seq<char>>) -> bool {
    forall|i: int, j: int| 0 <= i < j < keys.len() ==> precedes(#[trigger] keys[i], #[trigger] keys[j])
}

/// Whether some record has this key.
pub open spec fn occurs(records: Seq<Seq<(Seq<char>, Seq<char>)>>, key: Seq<char>) -> bool {
    exists|r: int| 0 <= r < records.len() && has_key(#[trigger] records[r], key)
}

/// The header of a set of records holds the keys of all of them, each once,
/// in ascending order.
pub open spec fn is_header(
    header: Seq<Seq<char>>,
    records: Seq<Seq<(Seq<char>, Seq<char>)>>,
) -> bool {
    &&& ascending(header)
    &&& forall|key: Seq<char>| #[trigger] header.contains(key) <==> occurs(records, key)
}

/// Two ascending sequences that hold the same keys are the same sequence.
pub proof fn lemma_ascending_unique(first: Seq<Seq<char>>, second: Seq<Seq<char>>)
    requires
        ascending(first),
        ascending(second),
        forall|key: Seq<char>| #[trigger] first.contains(key) <==> second.contains(key),
    ensures
        first == second,
    decreases first.len(),
{
    if first.len() == 0 {
        if second.len() > 0 {
            assert(second.contains(second[0]));
            assert(first.contains(second[0]));
        }
        assert(first =~= second);
    } else {
        assert(first.contains(first[0]));
        let j = choose|j: int| 0 <= j < second.len() && second[j] == first[0];
        assert(second.contains(second[0]));
        assert(first.contains(second[0]));
        let i = choose|i: int| 0 <= i < first.len() && first[i] == second[0];
        if first[0] != second[0] {
            assert(precedes(second[0], second[j]));
            assert(precedes(first[0], first[i]));
            lemma_precedes_asymmetric(first[0], second[0]);
        }
        let rest_first = first.drop_first();
        let rest_second = second.drop_first();
        assert forall|key: Seq<char>| #[trigger]
            rest_first.contains(key) <==> rest_second.contains(key) by {
            lemma_precedes_asymmetric(key, key);
            if rest_first.contains(key) {
                let at = choose|at: int| 0 <= at < rest_first.len() && rest_first[at] == key;
                assert(first[at + 1] == key);
                assert(precedes(first[0], first[at + 1]));
                assert(first.contains(key));
                let to = choose|to: int| 0 <= to < second.len() && second[to] == key;
                assert(rest_second[to - 1] == key);
            }
            if rest_second.contains(key) {
                let at = choose|at: int| 0 <= at < rest_second.len() && rest_second[at] == key;
                assert(second[at + 1] == key);
                assert(precedes(second[0], second[at + 1]));
                assert(second.contains(key));
                assert(first.contains(key));
                let to = choose|to: int| 0 <= to < first.len() && first[to] == key;
                assert(rest_first[to - 1] == key);
            }
        }
        assert(ascending(rest_first)) by {
            assert forall|a: int, b: int| 0 <= a < b < rest_first.len() implies precedes(
                #[trigger] rest_first[a],
                #[trigger] rest_first[b],
            ) by {
                assert(precedes(first[a + 1], first[b + 1]));
            }
        }
        assert(ascending(rest_second)) by {
            assert forall|a: int, b: int| 0 <= a < b < rest_second.len() implies precedes(
                #[trigger] rest_second[a],
                #[trigger] rest_second[b],
            ) by {
                assert(precedes(second[a + 1], second[b + 1]));
            }
        }
        lemma_ascending_unique(rest_first, rest_second);
        assert(first =~= seq![first[0]] + rest_first);
        assert(second =~= seq![second[0]] + rest_second);
    }
}

/// A set of records has one header and no other.
pub proof fn lemma_header_unique(
    first: Seq<Seq<char>>,
    second: Seq<Seq<char>>,
    records: Seq<Seq<(Seq<char>, Seq<char>)>>,
)
    requires
        is_header(first, records),
        is_header(second, records),
    ensures
        first == second,
{
    assert forall|key: Seq<char>| #[trigger] first.contains(key) <==> second.contains(key) by {
        assert(first.contains(key) <==> occurs(records, key));
        assert(second.contains(key) <==> occurs(records, key));
    }
    lemma_ascending_unique(first, second);
}

/// The header of a set of records.
pub open spec fn header_for(records: Seq<Seq<(Seq<char>, Seq<char>)>>) -> Seq<Seq<char>> {
    choose|header: Seq<Seq<char>>| is_header(header, records)
}

/// The lines of the table of a set of records: the header, then one row for
/// each record.
pub open spec fn lines_for(records: Seq<Seq<(Seq<char>, Seq<char>)>>) -> Seq<Seq<Seq<char>>> {
    seq![header_for(records)] + Seq::new(
        records.len(),
        |r: int| row_of(records[r], header_for(records)),
    )
}

/// The cell of a record under a key: its text there, or the empty text
/// where the record lacks the key.
pub open spec fn cell(record: Seq<(Seq<char>, Seq<char>)>, key: Seq<char>) -> Seq<char> {
    match lookup(record, key) {
        Some(text) => text,
        None => Seq::empty(),
    }
}

/// The row of a record under a header: one cell for each key of the header.
pub open spec fn row_of(record: Seq<(Seq<char>, Seq<char>)>, header: Seq<Seq<char>>) -> Seq<
    Seq<char>,
> {
    Seq::new(header.len(), |c: int| cell(record, header[c]))
}

impl Table {
    /// The keys of the columns.
    pub open spec fn header_view(&self) -> Seq<Seq<char>> {
        texts_of(self.header@)
    }

    /// The cells, row by row.
    pub open spec fn rows_view(&self) -> Seq<Seq<Seq<char>>> {
        grid_of(self.rows@)
    }

    /// The lines of the table: its header, then its rows.
    pub open spec fn lines_view(&self) -> Seq<Seq<Seq<char>>> {
        seq![self.header_view()] + self.rows_view()
    }

    /// The lines of the table: its header, then its rows.
    pub fn into_lines(self) -> (lines: Vec<Vec<String>>)
        ensures
            grid_of(lines@) == self.lines_view(),
    {
        let mut lines: Vec<Vec<String>> = Vec::new();
        lines.push(self.header);
        let mut rows = self.rows;
        lines.append(&mut rows);
        assert(grid_of(lines@) =~= self.lines_view());
        lines
    }

    /// The table is the projection of the records: its header is theirs, and
    /// it has one row for each record, in their order.
    pub open spec fn projects(&self, records: Seq<Seq<(Seq<char>, Seq<char>)>>) -> bool {
        &&& is_header(self.header_view(), records)
        &&& self.rows_view() == Seq::new(
            records.len(),
            |r: int| row_of(records[r], self.header_view()),
        )
    }
}

/// The place of `key` in an ascending header: the number of keys that come
/// before it, and whether it stands there.
fn place_of(header: &Vec<String>, key: &str) -> (r: (usize, bool))
    requires
        ascending(texts_of(header@)),
    ensures
        r.0 <= header.len(),
        forall|k: int| 0 <= k < r.0 ==> precedes(#[trigger] texts_of(header@)[k], key@),
        forall|k: int| r.0 <= k < header.len() ==> !precedes(#[trigger] texts_of(header@)[k], key@),
        r.1 <==> texts_of(header@).contains(key@),
        r.1 ==> r.0 < header.len() && texts_of(header@)[r.0 as int] == key@,
{
    let ghost keys = texts_of(header@);
    let mut i: usize = 0;
    while i < header.len()
        invariant
            0 <= i <= header.len(),
            keys == texts_of(header@),
            ascending(keys),
            forall|k: int| 0 <= k < i ==> precedes(#[trigger] keys[k], key@),
        decreases header.len() - i,
    {
        proof {
            lemma_rank(keys[i as int], key@);
            assert(keys[i as int] == header@[i as int]@);
        }
        match compare(header[i].as_str(), key) {
            Rank::Before => {
                i += 1;
            },
            rank => {
                proof {
                    assert forall|k: int| i <= k < header.len() implies !precedes(
                        #[trigger] keys[k],
                        key@,
                    ) by {
                        if k > i && precedes(keys[k], key@) {
                            lemma_precedes_transitive(keys[i as int], keys[k], key@);
                        }
                    }
                    if keys.contains(key@) {
                        let at = choose|at: int| 0 <= at < keys.len() && keys[at] == key@;
                        lemma_rank(keys[at], key@);
                        if at > i {
                            lemma_rank(keys[i as int], keys[at]);
                        }
                    }
                }
                return (i, rank == Rank::Same);
            },
        }
    }
    proof {
        if keys.contains(key@) {
            let at = choose|at: int| 0 <= at < keys.len() && keys[at] == key@;
            lemma_rank(keys[at], key@);
        }
    }
    (i, false)
}

/// Projection is complete: the header holds every key of every record,
/// every row has one cell for each key of the header, and the cell of a
/// record under a key that it lacks is empty.
pub proof fn lemma_projection_complete(table: Table, records: Seq<Seq<(Seq<char>, Seq<char>)>>)
    requires
        table.projects(records),
    ensures
        forall|r: int, e: int|
            0 <= r < records.len() && 0 <= e < records[r].len() ==> table.header_view().contains(
                #[trigger] records[r][e].0,
            ),
        table.rows_view().len() == records.len(),
        forall|r: int|
            0 <= r < records.len() ==> (#[trigger] table.rows_view()[r]).len()
                == table.header_view().len(),
        forall|r: int, c: int|
            0 <= r < records.len() && 0 <= c < table.header_view().len() && !has_key(
                records[r],
                table.header_view()[c],
            ) ==> #[trigger] table.rows_view()[r][c] == Seq::<char>::empty(),
{
    let header = table.header_view();
    assert forall|r: int, e: int|
        0 <= r < records.len() && 0 <= e < records[r].len() implies header.contains(
        #[trigger] records[r][e].0,
    ) by {
        let key = records[r][e].0;
        assert(has_key(records[r], key));
        assert(occurs(records, key));
        assert(header.contains(key) <==> occurs(records, key));
    }
    assert forall|r: int, c: int|
        0 <= r < records.len() && 0 <= c < header.len() && !has_key(
            records[r],
            header[c],
        ) implies #[trigger] table.rows_view()[r][c] == Seq::<char>::empty() by {
        lemma_lookup_some(records[r], header[c]);
    }
}

/// Puts `key` at its place in an ascending header, unless it is there.
fn insert_key(header: &mut Vec<String>, key: &str)
    requires
        ascending(texts_of(old(header)@)),
    ensures
        ascending(texts_of(final(header)@)),
        forall|k: Seq<char>| #[trigger]
            texts_of(final(header)@).contains(k) <==> texts_of(old(header)@).contains(k) || k
                == key@,
{
    let ghost before = texts_of(header@);
    let (i, present) = place_of(header, key);
    if present {
        return ;
    }
    header.insert(i, String::from_str(key));
    proof {
        let after = texts_of(header@);
        assert(after =~= before.take(i as int).push(key@) + before.skip(i as int));
        assert forall|m: int| i <= m < before.len() implies precedes(key@, #[trigger] before[m]) by {
            lemma_rank(before[m], key@);
            assert(before.contains(before[m]));
        }
        assert forall|a: int, b: int| 0 <= a < b < after.len() implies precedes(
            #[trigger] after[a],
            #[trigger] after[b],
        ) by {
            if b < i {
                assert(after[a] == before[a] && after[b] == before[b]);
            } else if b == i {
                assert(after[a] == before[a]);
            } else if a < i {
                assert(after[a] == before[a] && after[b] == before[b - 1]);
                lemma_precedes_transitive(before[a], key@, before[b - 1]);
            } else if a == i {
                assert(after[b] == before[b - 1]);
            } else {
                assert(after[a] == before[a - 1] && after[b] == before[b - 1]);
            }
        }
        assert forall|k: Seq<char>| #[trigger]
            after.contains(k) <==> before.contains(k) || k == key@ by {
            if after.contains(k) {
                let at = choose|at: int| 0 <= at < after.len() && after[at] == k;
                if at < i {
                    assert(before[at] == k);
                } else if at > i {
                    assert(before[at - 1] == k);
                }
            }
            if before.contains(k) {
                let at = choose|at: int| 0 <= at < before.len() && before[at] == k;
                if at < i {
                    assert(after[at] == k);
                } else {
                    assert(after[at + 1] == k);
                }
            }
            if k == key@ {
                assert(after[i as int] == k);
            }
        }
    }
}

/// The keys of the first `e + 1` entries of a record are those of the first
/// `e`, and the key of the entry at `e`.
proof fn lemma_has_key_step(record: Seq<(Seq<char>, Seq<char>)>, e: int, key: Seq<char>)
    requires
        0 <= e < record.len(),
    ensures
        has_key(record.take(e + 1), key) <==> has_key(record.take(e), key) || key == record[e].0,
{
    let longer = record.take(e + 1);
    let shorter = record.take(e);
    if has_key(longer, key) {
        let i = choose|i: int| 0 <= i < longer.len() && (#[trigger] longer[i]).0 == key;
        if i < e {
            assert(shorter[i].0 == key);
        }
    }
    if has_key(shorter, key) {
        let i = choose|i: int| 0 <= i < shorter.len() && (#[trigger] shorter[i]).0 == key;
        assert(longer[i].0 == key);
    }
    if key == record[e].0 {
        assert(longer[e].0 == key);
    }
}

/// The keys of the first `r + 1` records are those of the first `r`, and
/// those of the record at `r`.
proof fn lemma_occurs_step(records: Seq<Seq<(Seq<char>, Seq<char>)>>, r: int, key: Seq<char>)
    requires
        0 <= r < records.len(),
    ensures
        occurs(records.take(r + 1), key) <==> occurs(records.take(r), key) || has_key(
            records[r],
            key,
        ),
{
    let longer = records.take(r + 1);
    let shorter = records.take(r);
    if occurs(longer, key) {
        let i = choose|i: int| 0 <= i < longer.len() && has_key(#[trigger] longer[i], key);
        if i < r {
            assert(has_key(shorter[i], key));
        }
    }
    if occurs(shorter, key) {
        let i = choose|i: int| 0 <= i < shorter.len() && has_key(#[trigger] shorter[i], key);
        assert(has_key(longer[i], key));
    }
    if has_key(records[r], key) {
        assert(has_key(longer[r], key));
    }
}

/// The header of the records: every key that one of them has, once, in
/// ascending order.
pub fn header_of(records: &Vec<FlatRecord>) -> (header: Vec<String>)
    ensures
        is_header(texts_of(header@), records_of(records@)),
{
    let ghost all = records_of(records@);
    let mut header: Vec<String> = Vec::new();
    let mut r: usize = 0;
    proof {
        assert forall|key: Seq<char>| #[trigger]
            texts_of(header@).contains(key) <==> occurs(all.take(0), key) by {}
    }
    while r < records.len()
        invariant
            0 <= r <= records.len(),
            all == records_of(records@),
            ascending(texts_of(header@)),
            forall|key: Seq<char>| #[trigger]
                texts_of(header@).contains(key) <==> occurs(all.take(r as int), key),
        decreases records.len() - r,
    {
        let record = &records[r];
        let mut e: usize = 0;
        proof {
            assert(all[r as int] == record@);
            assert forall|key: Seq<char>| !has_key(record@.take(0), key) by {}
        }
        while e < record.entries.len()
            invariant
                0 <= e <= record.entries.len(),
                0 <= r < records.len(),
                all == records_of(records@),
                all[r as int] == record@,
                ascending(texts_of(header@)),
                forall|key: Seq<char>| #[trigger]
                    texts_of(header@).contains(key) <==> occurs(all.take(r as int), key)
                        || has_key(record@.take(e as int), key),
            decreases record.entries.len() - e,
        {
            let ghost before = texts_of(header@);
            insert_key(&mut header, record.entries[e].0.as_str());
            proof {
                assert(record@[e as int].0 == record.entries@[e as int].0@);
                assert forall|key: Seq<char>| #[trigger]
                    texts_of(header@).contains(key) <==> occurs(all.take(r as int), key)
                        || has_key(record@.take(e + 1), key) by {
                    lemma_has_key_step(record@, e as int, key);
                    assert(before.contains(key) <==> occurs(all.take(r as int), key) || has_key(
                        record@.take(e as int),
                        key,
                    ));
                }
            }
            e += 1;
        }
        proof {
            assert(record@.take(e as int) == record@);
            assert forall|key: Seq<char>| #[trigger]
                texts_of(header@).contains(key) <==> occurs(all.take(r + 1), key) by {
                lemma_occurs_step(all, r as int, key);
            }
        }
        r += 1;
    }
    assert(all.take(r as int) == all);
    header
}

/// The row of one record under a header.
fn project_record(record: &FlatRecord, header: &Vec<String>) -> (row: Vec<String>)
    ensures
        texts_of(row@) == row_of(record@, texts_of(header@)),
{
    let mut row: Vec<String> = Vec::new();
    let mut c: usize = 0;
    while c < header.len()
        invariant
            0 <= c <= header.len(),
            row@.len() == c,
            forall|k: int|
                0 <= k < c ==> (#[trigger] row@[k])@ == cell(record@, texts_of(header@)[k]),
        decreases header.len() - c,
    {
        let text = match record.get(header[c].as_str()) {
            Some(text) => text.clone(),
            None => String::new(),
        };
        assert(texts_of(header@)[c as int] == header@[c as int]@);
        row.push(text);
        c += 1;
    }
    assert(texts_of(row@) =~= row_of(record@, texts_of(header@)));
    row
}

/// Projects records onto one table: its header is the header of the
/// records, and each record gives one row with a cell under each key of the
/// header, empty where the record lacks the key.
pub fn project(records: &Vec<FlatRecord>) -> (table: Table)
    ensures
        table.projects(records_of(records@)),
        table.header_view() == header_for(records_of(records@)),
        table.lines_view() == lines_for(records_of(records@)),
        records@.len() == 0 ==> table.header@.len() == 0 && table.rows@.len() == 0,
{
    let header = header_of(records);
    let ghost all = records_of(records@);
    let mut rows: Vec<Vec<String>> = Vec::new();
    let mut r: usize = 0;
    while r < records.len()
        invariant
            0 <= r <= records.len(),
            all == records_of(records@),
            rows@.len() == r,
            forall|k: int|
                0 <= k < r ==> texts_of((#[trigger] rows@[k])@) == row_of(
                    all[k],
                    texts_of(header@),
                ),
        decreases records.len() - r,
    {
        let row = project_record(&records[r], &header);
        assert(all[r as int] == records@[r as int]@);
        rows.push(row);
        r += 1;
    }
    let table = Table { header, rows };
    proof {
        assert(table.rows_view() =~= Seq::new(
            all.len(),
            |r: int| row_of(all[r], table.header_view()),
        ));
        lemma_header_unique(table.header_view(), header_for(all), all);
        if records@.len() == 0 {
            if table.header@.len() > 0 {
                assert(table.header_view().contains(table.header_view()[0]));
            }
        }
    }
    table
}

} // verus!
