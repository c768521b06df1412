use asp_cli::bridge::{compact_json, from_json, to_json};
use asp_cli::route::{convert, Format};
use asp_cli::value::Value;
use serde_json::Number;

fn mapping(entries: Vec<(&str, Value)>) -> Value {
    Value::Mapping(entries.into_iter().map(|(k, v)| (k.to_string(), v)).collect())
}

#[test]
fn scalars_are_well_formed() {
    assert!(Value::Null.is_well_formed());
    assert!(Value::Bool(false).is_well_formed());
    assert!(Value::Integer(1).is_well_formed());
    assert!(Value::Float(Number::from_f64(0.5).unwrap()).is_well_formed());
    assert!(Value::String(String::new()).is_well_formed());
    assert!(Value::Sequence(vec![]).is_well_formed());
    assert!(mapping(vec![]).is_well_formed());
}

#[test]
fn a_mapping_with_a_key_twice_is_not_well_formed() {
    assert!(mapping(vec![("a", Value::Null), ("b", Value::Null), ("c", Value::Null)]).is_well_formed());
    assert!(!mapping(vec![("a", Value::Null), ("b", Value::Null), ("a", Value::Null)]).is_well_formed());
    assert!(!mapping(vec![("a", Value::Null), ("a", Value::Null)]).is_well_formed());
    assert!(mapping(vec![("a", Value::Null), ("A", Value::Null)]).is_well_formed());
}

#[test]
fn well_formedness_reaches_every_depth() {
    let twice = || mapping(vec![("k", Value::Null), ("k", Value::Null)]);
    assert!(!Value::Sequence(vec![Value::Null, twice()]).is_well_formed());
    assert!(!mapping(vec![("a", mapping(vec![("b", Value::Sequence(vec![twice()]))]))]).is_well_formed());
    assert!(mapping(vec![("k", mapping(vec![("k", Value::Sequence(vec![mapping(vec![("k", Value::Null)])]))]))])
        .is_well_formed());
}

#[test]
fn json_values_come_back_as_they_went() {
    let values = vec![
        Value::Null,
        Value::Bool(true),
        Value::Integer(i64::MIN),
        Value::Integer(i64::MAX),
        Value::Float(Number::from_f64(-0.25).unwrap()),
        Value::Float(Number::from(u64::MAX)),
        Value::String("a\n\"b\"\u{e9}".to_string()),
        Value::Sequence(vec![Value::Sequence(vec![Value::Sequence(vec![])])]),
        mapping(vec![("z", Value::Integer(1)), ("a", mapping(vec![("", Value::Null)]))]),
    ];
    for value in values {
        let back = from_json(to_json(&value));
        assert_eq!(back, value);
        assert!(back.is_well_formed());
    }
}

#[test]
fn an_integer_kept_as_a_number_comes_back_as_an_integer() {
    let held = Value::Float(Number::from(7));
    assert_eq!(from_json(to_json(&held)), Value::Integer(7));
    assert_eq!(compact_json(&held), "7");
}

#[test]
fn compact_json_escapes_texts() {
    assert_eq!(compact_json(&Value::String("a\"b\\c\n".to_string())), r#""a\"b\\c\n""#);
    assert_eq!(compact_json(&Value::Null), "null");
    assert_eq!(compact_json(&Value::Float(Number::from_f64(1.0).unwrap())), "1.0");
    assert_eq!(
        compact_json(&mapping(vec![("b", Value::Integer(1)), ("a", Value::Sequence(vec![Value::Bool(false)]))])),
        r#"{"b":1,"a":[false]}"#
    );
}

#[test]
fn every_pair_of_formats_converts() {
    let sources = [
        (Format::Json, "[{\"a\": 1, \"b\": \"x\"}]"),
        (Format::Yaml, "- a: 1\n  b: x\n"),
        (Format::Toml, "[[data]]\na = 1\nb = \"x\"\n"),
        (Format::Csv, "a,b\n1,x\n"),
    ];
    for (source, content) in sources {
        let json = convert(source, Format::Json, content).unwrap();
        assert!(json.contains("\"a\": 1"), "{:?} to JSON: {}", source, json);
        let yaml = convert(source, Format::Yaml, content).unwrap();
        assert!(yaml.contains("a: 1\n"), "{:?} to YAML: {}", source, yaml);
        let toml = convert(source, Format::Toml, content).unwrap();
        assert!(toml.contains("a = 1\nb = \"x\"\n"), "{:?} to TOML: {}", source, toml);
        let csv = convert(source, Format::Csv, content).unwrap();
        assert_eq!(csv, "a,b\n1,x\n", "{:?} to CSV", source);
    }
}
