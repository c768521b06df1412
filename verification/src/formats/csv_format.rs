use crate::error::{described, outcome, Failure, FormatError};
use crate::formats::json_format::{json_written, serialize_json};
use crate::formats::toml_format::{serialize_toml, toml_written};
use crate::formats::yaml_format::{serialize_yaml, yaml_written};
use crate::infer::{infer, typed};
use crate::path::{nest_all, nested_all, put_all, put_each};
use crate::root::{records_from, rows_of, wrap_root, wrapped};
use crate::table::{lines_for, project, Table};
use crate::text::{grid_of, texts_of};
use crate::value::{entries_of, lemma_view_sequence, trees_of, Tree, Value};
use vstd::prelude::*;

verus! {

/// The header and the records that the `csv` crate reads from a text whose
/// first record is the header; `None` where it reports an error.
pub uninterp spec fn csv_document(text: Seq<char>) -> Option<(Seq<Seq<char>>, Seq<Seq<Seq<char>>>)>;

/// The text that the `csv` crate writes for the records; `None` where it
/// reports an error.
pub uninterp spec fn csv_text(lines: Seq<Seq<Seq<char>>>) -> Option<Seq<char>>;

/// A `csv::Reader` over the text, with the first record as header:
/// `headers`, then every record of `records`, each field as a `String`. The
/// first error ends the reading.
#[verifier::external_body]
pub(crate) fn read_csv(text: &str) -> (r: Result<Table, String>)
    ensures
        match r {
            Ok(table) => csv_document(text@) == Some((table.header_view(), table.rows_view())),
            Err(_) => csv_document(text@) is None,
        },
{
    let mut reader = ::csv::ReaderBuilder::new().has_headers(true).from_reader(text.as_bytes());
    let header = match reader.headers() {
        Ok(record) => record.iter().map(String::from).collect(),
        Err(e) => return Err(e.to_string()),
    };
    let mut rows: Vec<Vec<String>> = Vec::new();
    for record in reader.records() {
        match record {
            Ok(record) => rows.push(record.iter().map(String::from).collect()),
            Err(e) => return Err(e.to_string()),
        }
    }
    Ok(Table { header, rows })
}

/// A `csv::Writer` into memory: `write_record` for each line, then
/// `into_inner` for the bytes, which are UTF-8 as the fields are. The first
/// error ends the writing.
#[verifier::external_body]
pub(crate) fn write_csv(lines: &Vec<Vec<String>>) -> (r: Result<String, String>)
    ensures
        match r {
            Ok(text) => csv_text(grid_of(lines@)) == Some(text@),
            Err(_) => csv_text(grid_of(lines@)) is None,
        },
{
    let mut writer = ::csv::Writer::from_writer(Vec::new());
    for line in lines {
        if let Err(e) = writer.write_record(line) {
            return Err(e.to_string());
        }
    }
    match writer.into_inner() {
        Ok(bytes) => String::from_utf8(bytes).map_err(|e| e.to_string()),
        Err(e) => Err(e.to_string()),
    }
}

/// The CSV text of a CSV text: its table, written again.
pub open spec fn csv_to_csv(text: Seq<char>) -> Result<Seq<char>, Failure> {
    match csv_document(text) {
        None => Err(Failure::Parse),
        Some((header, rows)) => match csv_text(seq![header] + rows) {
            Some(written) => Ok(written),
            None => Err(Failure::Serialization),
        },
    }
}

/// Reads a table from CSV text.
pub fn parse_csv(content: &str) -> (r: Result<Table, FormatError>)
    ensures
        match csv_document(content@) {
            Some((header, rows)) => r is Ok && r->Ok_0.header_view() == header
                && r->Ok_0.rows_view() == rows,
            None => r is Err && r->Err_0.kind() == Failure::Parse,
        },
{
    match read_csv(content) {
        Ok(table) => Ok(table),
        Err(detail) => Err(FormatError::ParseError(described("malformed CSV", detail.as_str()))),
    }
}

/// Writes lines as CSV text.
pub fn serialize_csv(lines: &Vec<Vec<String>>) -> (r: Result<String, FormatError>)
    ensures
        outcome(r) == match csv_text(grid_of(lines@)) {
            Some(written) => Ok::<Seq<char>, Failure>(written),
            None => Err(Failure::Serialization),
        },
{
    match write_csv(lines) {
        Ok(text) => Ok(text),
        Err(detail) => Err(
            FormatError::SerializationError(described("cannot write CSV", detail.as_str())),
        ),
    }
}

/// Reads CSV text and writes it again in the `csv` crate's own form.
pub fn convert_csv_to_csv(content: &str) -> (r: Result<String, FormatError>)
    ensures
        outcome(r) == csv_to_csv(content@),
{
    let table = parse_csv(content)?;
    let lines = table.into_lines();
    serialize_csv(&lines)
}

/// The typed cells of a row, each with the key of its column; a cell
/// without a column, or a column without a cell, gives nothing.
pub open spec fn row_pairs(header: Seq<Seq<char>>, row: Seq<Seq<char>>) -> Seq<(Seq<char>, Tree)> {
    Seq::new(
        if header.len() <= row.len() {
            header.len()
        } else {
            row.len()
        },
        |i: int| (header[i], typed(row[i])),
    )
}

/// The rows of a table as mappings from column key to typed cell, with no
/// key taken apart.
pub open spec fn flat_values(header: Seq<Seq<char>>, rows: Seq<Seq<Seq<char>>>) -> Seq<Tree> {
    Seq::new(rows.len(), |r: int| Tree::Mapping(put_each(row_pairs(header, rows[r]))))
}

/// The rows of a table as mappings in which each column key is a dotted
/// path; `None` where in some row a path runs through a value that is no
/// mapping.
pub open spec fn nested_values(header: Seq<Seq<char>>, rows: Seq<Seq<Seq<char>>>) -> Option<
    Seq<Tree>,
> {
    if forall|r: int| 0 <= r < rows.len() ==> nested_all(row_pairs(header, #[trigger] rows[r]))
        is Some {
        Some(
            Seq::new(
                rows.len(),
                |r: int| Tree::Mapping(nested_all(row_pairs(header, rows[r]))->0),
            ),
        )
    } else {
        None
    }
}

/// The typed cells of a row, each with the key of its column.
fn typed_pairs(header: &Vec<String>, row: &Vec<String>) -> (pairs: Vec<(String, Value)>)
    ensures
        entries_of(pairs@) == row_pairs(texts_of(header@), texts_of(row@)),
        forall|i: int| 0 <= i < pairs@.len() ==> (#[trigger] pairs@[i]).1.wf(),
{
    let mut pairs: Vec<(String, Value)> = Vec::new();
    let mut i: usize = 0;
    while i < row.len() && i < header.len()
        invariant
            0 <= i <= row.len(),
            i <= header.len(),
            pairs@.len() == i,
            forall|k: int|
                0 <= k < i ==> (#[trigger] pairs@[k]).0@ == header@[k]@ && pairs@[k].1@ == typed(
                    row@[k]@,
                ) && pairs@[k].1.wf(),
        decreases row.len() - i,
    {
        pairs.push((header[i].clone(), infer(row[i].as_str())));
        i += 1;
    }
    assert(entries_of(pairs@) =~= row_pairs(texts_of(header@), texts_of(row@)));
    pairs
}

/// The rows of a table as mappings from column key to typed cell.
pub fn values_of_rows(table: &Table) -> (values: Vec<Value>)
    ensures
        trees_of(values@) == flat_values(table.header_view(), table.rows_view()),
        forall|r: int| 0 <= r < values@.len() ==> (#[trigger] values@[r]).wf(),
{
    let mut values: Vec<Value> = Vec::new();
    let mut r: usize = 0;
    while r < table.rows.len()
        invariant
            0 <= r <= table.rows.len(),
            values@.len() == r,
            forall|k: int|
                0 <= k < r ==> (#[trigger] values@[k])@ == flat_values(
                    table.header_view(),
                    table.rows_view(),
                )[k] && values@[k].wf(),
        decreases table.rows.len() - r,
    {
        let pairs = typed_pairs(&table.header, &table.rows[r]);
        proof {
            assert(table.rows_view()[r as int] == texts_of(table.rows@[r as int]@));
        }
        values.push(put_all(pairs));
        r += 1;
    }
    assert(trees_of(values@) =~= flat_values(table.header_view(), table.rows_view()));
    values
}

/// The rows of a table as mappings in which each column key is a dotted
/// path: `contact.email` puts its cell under `email` in the mapping under
/// `contact`.
pub fn nested_values_of_rows(table: &Table) -> (r: Result<Vec<Value>, FormatError>)
    ensures
        match nested_values(table.header_view(), table.rows_view()) {
            Some(trees) => r is Ok && trees_of(r->Ok_0@) == trees && forall|k: int|
                0 <= k < r->Ok_0@.len() ==> (#[trigger] r->Ok_0@[k]).wf(),
            None => r is Err && r->Err_0.kind() == Failure::StructureConflict,
        },
{
    let ghost header = table.header_view();
    let ghost rows = table.rows_view();
    let mut values: Vec<Value> = Vec::new();
    let mut r: usize = 0;
    while r < table.rows.len()
        invariant
            0 <= r <= table.rows.len(),
            header == table.header_view(),
            rows == table.rows_view(),
            values@.len() == r,
            rows.len() == table.rows.len(),
            forall|k: int|
                0 <= k < r ==> nested_all(row_pairs(header, #[trigger] rows[k])) == Some(
                    values@[k]@->Mapping_0,
                ) && values@[k]@ is Mapping,
            forall|k: int| 0 <= k < r ==> (#[trigger] values@[k]).wf(),
        decreases table.rows.len() - r,
    {
        let pairs = typed_pairs(&table.header, &table.rows[r]);
        proof {
            assert(rows[r as int] == texts_of(table.rows@[r as int]@));
        }
        match nest_all(pairs) {
            Ok(value) => {
                values.push(value);
            },
            Err(e) => {
                assert(nested_all(row_pairs(header, rows[r as int])) is None);
                return Err(e);
            },
        }
        r += 1;
    }
    proof {
        let trees = nested_values(header, rows)->0;
        assert(trees_of(values@) =~= trees);
    }
    Ok(values)
}

/// The table of a document as CSV text: nothing at all for a document
/// without rows, else the header line and one line for each row.
pub open spec fn table_written(tree: Tree) -> Result<Seq<char>, Failure> {
    let records = rows_of(tree);
    if records.len() == 0 {
        Ok(Seq::empty())
    } else {
        match csv_text(lines_for(records)) {
            Some(written) => Ok(written),
            None => Err(Failure::Serialization),
        }
    }
}

/// An empty sequence has no rows, and its table is the empty text.
pub proof fn lemma_empty_sequence_writes_nothing()
    ensures
        rows_of(Tree::Sequence(Seq::empty())).len() == 0,
        table_written(Tree::Sequence(Seq::empty())) == Ok::<Seq<char>, Failure>(Seq::empty()),
{
}

/// Writes a document as a CSV table. Nested mappings are flattened with
/// underscores between the keys; an empty sequence gives the empty text.
pub fn serialize_table(value: &Value) -> (r: Result<String, FormatError>)
    requires
        value.wf(),
    ensures
        outcome(r) == table_written(value@),
{
    let records = records_from(value);
    if records.len() == 0 {
        let empty = String::new();
        return Ok(empty);
    }
    let table = project(&records);
    let lines = table.into_lines();
    serialize_csv(&lines)
}

/// A sequence of values as one document.
fn sequence_of(values: Vec<Value>) -> (value: Value)
    requires
        forall|r: int| 0 <= r < values@.len() ==> (#[trigger] values@[r]).wf(),
    ensures
        value@ == Tree::Sequence(trees_of(values@)),
        value.wf(),
{
    proof {
        lemma_view_sequence(values);
        assert forall|i: int| 0 <= i < trees_of(values@).len() implies (#[trigger] trees_of(
            values@,
        )[i]).wf() by {
            assert(values@[i].wf());
        }
    }
    Value::Sequence(values)
}

/// The key under which a table goes into a TOML document.
pub open spec fn table_key() -> Seq<char> {
    seq!['d', 'a', 't', 'a']
}

/// The JSON text of a CSV text, one mapping for each row.
pub open spec fn csv_to_json(text: Seq<char>) -> Result<Seq<char>, Failure> {
    match csv_document(text) {
        None => Err(Failure::Parse),
        Some((header, rows)) => json_written(Tree::Sequence(flat_values(header, rows))),
    }
}

/// The JSON text of a CSV text, with each column key as a dotted path.
pub open spec fn csv_to_json_nested(text: Seq<char>) -> Result<Seq<char>, Failure> {
    match csv_document(text) {
        None => Err(Failure::Parse),
        Some((header, rows)) => match nested_values(header, rows) {
            None => Err(Failure::StructureConflict),
            Some(trees) => json_written(Tree::Sequence(trees)),
        },
    }
}

/// The YAML text of a CSV text, one mapping for each row.
pub open spec fn csv_to_yaml(text: Seq<char>) -> Result<Seq<char>, Failure> {
    match csv_document(text) {
        None => Err(Failure::Parse),
        Some((header, rows)) => yaml_written(Tree::Sequence(flat_values(header, rows))),
    }
}

/// The TOML text of a CSV text, the rows under the key `data`.
pub open spec fn csv_to_toml(text: Seq<char>) -> Result<Seq<char>, Failure> {
    match csv_document(text) {
        None => Err(Failure::Parse),
        Some((header, rows)) => toml_written(
            wrapped(Tree::Sequence(flat_values(header, rows)), table_key()),
        ),
    }
}

/// CSV text to JSON text: a sequence with one mapping for each row, from
/// column key to typed cell.
pub fn convert_csv_to_json(content: &str) -> (r: Result<String, FormatError>)
    ensures
        outcome(r) == csv_to_json(content@),
{
    let table = parse_csv(content)?;
    let document = sequence_of(values_of_rows(&table));
    serialize_json(&document)
}

/// CSV text to JSON text, with each column key as a dotted path into nested
/// mappings.
pub fn convert_csv_to_json_nested(content: &str) -> (r: Result<String, FormatError>)
    ensures
        outcome(r) == csv_to_json_nested(content@),
{
    let table = parse_csv(content)?;
    let values = nested_values_of_rows(&table)?;
    let document = sequence_of(values);
    serialize_json(&document)
}

/// CSV text to YAML text: a sequence with one mapping for each row.
pub fn convert_csv_to_yaml(content: &str) -> (r: Result<String, FormatError>)
    ensures
        outcome(r) == csv_to_yaml(content@),
{
    let table = parse_csv(content)?;
    let document = sequence_of(values_of_rows(&table));
    serialize_yaml(&document)
}

/// CSV text to TOML text. A TOML document cannot be a sequence, so the rows
/// go under the key `data`.
pub fn convert_csv_to_toml(content: &str) -> (r: Result<String, FormatError>)
    ensures
        outcome(r) == csv_to_toml(content@),
{
    let table = parse_csv(content)?;
    let document = sequence_of(values_of_rows(&table));
    proof {
        reveal_strlit("data");
        assert("data"@ =~= table_key());
    }
    let document = wrap_root(document, "data");
    serialize_toml(&document)
}

} // verus!
