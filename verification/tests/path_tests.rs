use asp_cli::error::{Failure, FormatError};
use asp_cli::inverse::dotted_pairs;
use asp_cli::path::{
    find_key, flatten, flatten_with, nest, nest_all, put_all, put_entry, value_to_string, Delimiter,
};
use asp_cli::record::FlatRecord;
use asp_cli::value::Value;
use serde_json::Number;

fn text(s: &str) -> Value {
    Value::String(s.to_string())
}

fn mapping(entries: Vec<(&str, Value)>) -> Value {
    Value::Mapping(entries.into_iter().map(|(k, v)| (k.to_string(), v)).collect())
}

fn record(entries: Vec<(&str, &str)>) -> FlatRecord {
    FlatRecord { entries: entries.into_iter().map(|(k, v)| (k.to_string(), v.to_string())).collect() }
}

#[test]
fn flatten_joins_nested_keys_with_underscores() {
    let tree = mapping(vec![("a", mapping(vec![("b", Value::Integer(1)), ("c", Value::Integer(2))]))]);
    assert_eq!(flatten(&tree, ""), record(vec![("a_b", "1"), ("a_c", "2")]));
}

#[test]
fn flatten_keeps_the_order_of_the_entries() {
    let tree = mapping(vec![
        ("z", text("last")),
        ("contact", mapping(vec![("email", text("a@x.com")), ("phone", text("+49"))])),
        ("a", Value::Bool(true)),
    ]);
    assert_eq!(
        flatten(&tree, ""),
        record(vec![("z", "last"), ("contact_email", "a@x.com"), ("contact_phone", "+49"), ("a", "true")])
    );
}

#[test]
fn flatten_puts_the_prefix_before_every_key() {
    let tree = mapping(vec![("b", mapping(vec![("c", Value::Null)])), ("d", Value::Integer(-3))]);
    assert_eq!(flatten(&tree, "a"), record(vec![("a_b_c", ""), ("a_d", "-3")]));
}

#[test]
fn flatten_of_what_is_no_mapping() {
    assert_eq!(flatten(&Value::Integer(5), ""), record(vec![]));
    assert_eq!(flatten(&Value::Integer(5), "n"), record(vec![("n", "5")]));
    assert_eq!(flatten(&Value::Sequence(vec![]), ""), record(vec![]));
    assert_eq!(flatten(&mapping(vec![]), "p"), record(vec![]));
}

#[test]
fn flatten_leaves_a_sequence_as_json_text() {
    let tree = mapping(vec![(
        "tags",
        Value::Sequence(vec![
            Value::Integer(1),
            text("two"),
            Value::Null,
            Value::Bool(false),
            mapping(vec![("k", Value::Float(Number::from_f64(1.5).unwrap()))]),
        ]),
    )]);
    assert_eq!(flatten(&tree, ""), record(vec![("tags", r#"[1,"two",null,false,{"k":1.5}]"#)]));
}

#[test]
fn flatten_keeps_both_entries_where_keys_collide() {
    let tree = mapping(vec![("a_b", Value::Integer(1)), ("a", mapping(vec![("b", Value::Integer(2))]))]);
    let flat = flatten(&tree, "");
    assert_eq!(flat, record(vec![("a_b", "1"), ("a_b", "2")]));
    assert_eq!(flat.get("a_b"), Some(&"2".to_string()));
}

#[test]
fn flatten_with_dots() {
    let tree = mapping(vec![("a", mapping(vec![("b", mapping(vec![("c", text("x"))]))])), ("d", text("y"))]);
    assert_eq!(flatten_with(&tree, "", Delimiter::Dot), record(vec![("a.b.c", "x"), ("d", "y")]));
    assert_eq!(Delimiter::Dot.as_str(), ".");
    assert_eq!(Delimiter::Underscore.as_str(), "_");
}

#[test]
fn value_to_string_renders_each_kind() {
    assert_eq!(value_to_string(&Value::Null), "");
    assert_eq!(value_to_string(&Value::Bool(true)), "true");
    assert_eq!(value_to_string(&Value::Bool(false)), "false");
    assert_eq!(value_to_string(&Value::Integer(-12)), "-12");
    assert_eq!(value_to_string(&Value::Float(Number::from_f64(42.0).unwrap())), "42.0");
    assert_eq!(value_to_string(&Value::Float(Number::from_f64(1e30).unwrap())), "1e+30");
    assert_eq!(value_to_string(&Value::Float(Number::from(7))), "7");
    assert_eq!(value_to_string(&Value::Float(Number::from(u64::MAX))), "18446744073709551615");
    assert_eq!(value_to_string(&text(" a \"b\" ")), " a \"b\" ");
    assert_eq!(value_to_string(&Value::Sequence(vec![])), "[]");
    assert_eq!(value_to_string(&mapping(vec![("a", text("b"))])), r#"{"a":"b"}"#);
}

#[test]
fn nest_puts_a_plain_key_directly() {
    let mut into = Vec::new();
    assert_eq!(nest("name", text("A"), &mut into), Ok(()));
    assert_eq!(Value::Mapping(into), mapping(vec![("name", text("A"))]));
}

#[test]
fn nest_makes_the_mappings_of_a_dotted_key() {
    let mut into = Vec::new();
    assert_eq!(nest("a.b.c", Value::Integer(1), &mut into), Ok(()));
    assert_eq!(nest("a.b.d", Value::Integer(2), &mut into), Ok(()));
    assert_eq!(nest("a.e", Value::Integer(3), &mut into), Ok(()));
    assert_eq!(
        Value::Mapping(into),
        mapping(vec![(
            "a",
            mapping(vec![
                ("b", mapping(vec![("c", Value::Integer(1)), ("d", Value::Integer(2))])),
                ("e", Value::Integer(3)),
            ])
        )])
    );
}

#[test]
fn nest_replaces_the_value_of_a_key_that_comes_again() {
    let mut into = Vec::new();
    nest("a", Value::Integer(1), &mut into).unwrap();
    nest("b", Value::Integer(2), &mut into).unwrap();
    nest("a", Value::Integer(3), &mut into).unwrap();
    assert_eq!(Value::Mapping(into), mapping(vec![("a", Value::Integer(3)), ("b", Value::Integer(2))]));
}

#[test]
fn nest_replaces_a_mapping_by_a_value_at_the_last_segment() {
    let mut into = Vec::new();
    nest("a.b", Value::Integer(1), &mut into).unwrap();
    nest("a", Value::Integer(2), &mut into).unwrap();
    assert_eq!(Value::Mapping(into), mapping(vec![("a", Value::Integer(2))]));
}

#[test]
fn nest_reports_a_conflict_and_changes_nothing() {
    let mut into = Vec::new();
    nest("a", Value::Integer(1), &mut into).unwrap();
    nest("b.c", Value::Integer(2), &mut into).unwrap();
    let refused = nest("a.b", Value::Integer(3), &mut into);
    assert!(matches!(refused, Err(FormatError::StructureConflict(_))));
    assert_eq!(refused.unwrap_err().failure(), Failure::StructureConflict);
    let deep = nest("b.c.d", Value::Integer(4), &mut into);
    assert!(matches!(deep, Err(FormatError::StructureConflict(_))));
    assert_eq!(
        Value::Mapping(into),
        mapping(vec![("a", Value::Integer(1)), ("b", mapping(vec![("c", Value::Integer(2))]))])
    );
}

#[test]
fn nest_splits_at_every_full_stop() {
    let mut into = Vec::new();
    nest("a.", Value::Integer(1), &mut into).unwrap();
    nest(".", Value::Integer(2), &mut into).unwrap();
    nest("", Value::Integer(3), &mut into).unwrap();
    assert_eq!(
        Value::Mapping(into),
        mapping(vec![("a", mapping(vec![("", Value::Integer(1))])), ("", Value::Integer(3))])
    );
}

#[test]
fn nest_all_builds_one_mapping() {
    let pairs = vec![
        ("name".to_string(), text("A")),
        ("contact.email".to_string(), text("a@x.com")),
        ("contact.phone".to_string(), text("+49")),
    ];
    assert_eq!(
        nest_all(pairs),
        Ok(mapping(vec![
            ("name", text("A")),
            ("contact", mapping(vec![("email", text("a@x.com")), ("phone", text("+49"))])),
        ]))
    );
    assert_eq!(nest_all(vec![]), Ok(mapping(vec![])));
}

#[test]
fn nest_all_stops_at_a_conflict() {
    let pairs = vec![("a".to_string(), text("x")), ("a.b".to_string(), text("y"))];
    assert!(matches!(nest_all(pairs), Err(FormatError::StructureConflict(_))));
}

#[test]
fn put_all_keeps_flat_keys_whole() {
    let pairs = vec![
        ("contact.email".to_string(), text("a@x.com")),
        ("name".to_string(), text("A")),
        ("contact.email".to_string(), text("b@x.com")),
    ];
    assert_eq!(put_all(pairs), mapping(vec![("contact.email", text("b@x.com")), ("name", text("A"))]));
}

#[test]
fn put_entry_and_find_key() {
    let mut into = vec![("a".to_string(), Value::Null), ("b".to_string(), Value::Null)];
    assert_eq!(find_key(&into, "b"), Some(1));
    assert_eq!(find_key(&into, "c"), None);
    put_entry("c", Value::Bool(true), &mut into);
    put_entry("a", Value::Bool(false), &mut into);
    assert_eq!(find_key(&into, "c"), Some(2));
    assert_eq!(
        Value::Mapping(into),
        mapping(vec![("a", Value::Bool(false)), ("b", Value::Null), ("c", Value::Bool(true))])
    );
}

#[test]
fn nest_all_gives_back_what_flatten_with_dots_took_apart() {
    let tree = mapping(vec![
        ("name", text("A")),
        ("contact", mapping(vec![("email", text("a@x.com")), ("", text("none")), ("address", mapping(vec![("city", text("B"))]))])),
        ("", text("empty key")),
        ("note_1", text("")),
    ]);
    let flat = flatten_with(&tree, "", Delimiter::Dot);
    let pairs = flat.entries.into_iter().map(|(k, v)| (k, Value::String(v))).collect();
    assert_eq!(nest_all(pairs), Ok(tree));
}

#[test]
fn nest_all_gives_back_the_texts_of_other_values() {
    let tree = mapping(vec![("n", Value::Integer(5)), ("m", mapping(vec![("t", Value::Bool(true)), ("z", Value::Null)]))]);
    let flat = flatten_with(&tree, "", Delimiter::Dot);
    let pairs = flat.entries.into_iter().map(|(k, v)| (k, Value::String(v))).collect();
    assert_eq!(
        nest_all(pairs),
        Ok(mapping(vec![("n", text("5")), ("m", mapping(vec![("t", text("true")), ("z", text(""))]))]))
    );
}

#[test]
fn dotted_pairs_lists_every_leaf_with_its_path() {
    let entries = vec![
        ("name".to_string(), text("A")),
        (
            "contact".to_string(),
            mapping(vec![
                ("email", text("a@x.com")),
                ("address", mapping(vec![("zip", Value::Integer(12)), ("city", Value::Null)])),
            ]),
        ),
        ("tags".to_string(), Value::Sequence(vec![Value::Bool(true)])),
        ("none".to_string(), mapping(vec![])),
    ];
    assert_eq!(
        dotted_pairs(entries),
        vec![
            ("name".to_string(), text("A")),
            ("contact.email".to_string(), text("a@x.com")),
            ("contact.address.zip".to_string(), Value::Integer(12)),
            ("contact.address.city".to_string(), Value::Null),
            ("tags".to_string(), Value::Sequence(vec![Value::Bool(true)])),
        ]
    );
    assert_eq!(dotted_pairs(vec![]), vec![]);
}

#[test]
fn nest_all_gives_back_the_mapping_of_its_dotted_pairs() {
    let build = || {
        vec![
            ("n".to_string(), Value::Integer(5)),
            (
                "m".to_string(),
                mapping(vec![
                    ("t", Value::Bool(true)),
                    ("", Value::Null),
                    ("deep", mapping(vec![("f", Value::Float(Number::from_f64(0.5).unwrap()))])),
                    ("s", text("1")),
                ]),
            ),
            ("".to_string(), mapping(vec![("b", Value::Sequence(vec![Value::Integer(1), mapping(vec![])]))])),
            ("last".to_string(), text("true")),
        ]
    };
    assert_eq!(nest_all(dotted_pairs(build())), Ok(Value::Mapping(build())));
    assert_eq!(nest_all(dotted_pairs(vec![])), Ok(mapping(vec![])));
}

#[test]
fn dotted_pairs_lose_what_full_stops_and_empty_mappings_hide() {
    let dotted = vec![("a.b".to_string(), Value::Integer(1))];
    assert_eq!(nest_all(dotted_pairs(dotted)), Ok(mapping(vec![("a", mapping(vec![("b", Value::Integer(1))]))])));
    let empty = vec![("a".to_string(), mapping(vec![]))];
    assert_eq!(nest_all(dotted_pairs(empty)), Ok(mapping(vec![])));
}
