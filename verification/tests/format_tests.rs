use asp_cli::bridge::{compact_json, from_json, to_json};
use asp_cli::error::{described, Failure, FormatError};
use asp_cli::formats::csv_format::{
    convert_csv_to_csv, convert_csv_to_json, convert_csv_to_json_nested, convert_csv_to_toml,
    convert_csv_to_yaml, nested_values_of_rows, parse_csv, serialize_csv, serialize_table,
    values_of_rows,
};
use asp_cli::formats::json_format::{
    convert_json_to_csv, convert_json_to_json, convert_json_to_toml, convert_json_to_yaml,
    serialize_json, validate_json,
};
use asp_cli::formats::toml_format::{
    convert_toml_to_csv, convert_toml_to_json, convert_toml_to_toml, convert_toml_to_yaml,
    serialize_toml, validate_toml,
};
use asp_cli::formats::yaml_format::{
    convert_yaml_to_csv, convert_yaml_to_json, convert_yaml_to_toml, convert_yaml_to_yaml,
    serialize_yaml, validate_yaml,
};
use asp_cli::route::{convert, convert_based_on_extension, format_for, format_for_file, Format};
use asp_cli::table::Table;
use asp_cli::value::Value;
use serde_json::Number;

fn text(s: &str) -> Value {
    Value::String(s.to_string())
}

fn mapping(entries: Vec<(&str, Value)>) -> Value {
    Value::Mapping(entries.into_iter().map(|(k, v)| (k.to_string(), v)).collect())
}

fn strings(items: Vec<&str>) -> Vec<String> {
    items.into_iter().map(String::from).collect()
}

fn kind(r: Result<String, FormatError>) -> Result<String, Failure> {
    r.map_err(|e| e.failure())
}

#[test]
fn nested_rows_follow_dotted_keys() {
    let table = Table {
        header: strings(vec!["name", "contact.email"]),
        rows: vec![strings(vec!["A", "a@x.com"])],
    };
    assert_eq!(
        nested_values_of_rows(&table),
        Ok(vec![mapping(vec![("name", text("A")), ("contact", mapping(vec![("email", text("a@x.com"))]))])])
    );
}

#[test]
fn flat_rows_keep_dotted_keys_whole() {
    let table = Table {
        header: strings(vec!["name", "contact.email", "age", "ok", "score", "none"]),
        rows: vec![strings(vec!["A", "a@x.com", "30", "TRUE", "1.5", ""]), strings(vec!["B", "b@x.com"])],
    };
    assert_eq!(
        values_of_rows(&table),
        vec![
            mapping(vec![
                ("name", text("A")),
                ("contact.email", text("a@x.com")),
                ("age", Value::Integer(30)),
                ("ok", Value::Bool(true)),
                ("score", Value::Float(Number::from_f64(1.5).unwrap())),
                ("none", Value::Null),
            ]),
            mapping(vec![("name", text("B")), ("contact.email", text("b@x.com"))]),
        ]
    );
}

#[test]
fn rows_ignore_cells_without_a_column() {
    let table = Table { header: strings(vec!["a"]), rows: vec![strings(vec!["1", "2", "3"]), vec![]] };
    assert_eq!(values_of_rows(&table), vec![mapping(vec![("a", Value::Integer(1))]), mapping(vec![])]);
    assert_eq!(
        nested_values_of_rows(&table),
        Ok(vec![mapping(vec![("a", Value::Integer(1))]), mapping(vec![])])
    );
}

#[test]
fn nested_rows_report_a_conflict() {
    let table = Table { header: strings(vec!["a", "a.b"]), rows: vec![strings(vec!["1", "2"])] };
    let refused = nested_values_of_rows(&table);
    assert_eq!(refused.map_err(|e| e.failure()), Err(Failure::StructureConflict));
    assert_eq!(
        kind(convert_csv_to_json_nested("a,a.b\n1,2\n")),
        Err(Failure::StructureConflict)
    );
}

#[test]
fn a_repeated_column_keeps_its_last_cell() {
    let table = Table { header: strings(vec!["a", "b", "a"]), rows: vec![strings(vec!["1", "2", "3"])] };
    assert_eq!(
        values_of_rows(&table),
        vec![mapping(vec![("a", Value::Integer(3)), ("b", Value::Integer(2))])]
    );
}

#[test]
fn json_values_hold_what_values_denote() {
    let value = mapping(vec![
        ("n", Value::Null),
        ("t", Value::Bool(true)),
        ("i", Value::Integer(-5)),
        ("f", Value::Float(Number::from_f64(2.5).unwrap())),
        ("s", text("x\"y")),
        ("q", Value::Sequence(vec![Value::Integer(1), mapping(vec![("z", Value::Sequence(vec![]))])])),
        ("m", mapping(vec![])),
    ]);
    let j = to_json(&value);
    let expected: serde_json::Value = serde_json::from_str(
        r#"{"n":null,"t":true,"i":-5,"f":2.5,"s":"x\"y","q":[1,{"z":[]}],"m":{}}"#,
    )
    .unwrap();
    assert_eq!(j, expected);
    assert_eq!(from_json(j), value);
    assert_eq!(
        compact_json(&value),
        r#"{"n":null,"t":true,"i":-5,"f":2.5,"s":"x\"y","q":[1,{"z":[]}],"m":{}}"#
    );
}

#[test]
fn json_numbers_become_integers_where_they_fit() {
    let j: serde_json::Value = serde_json::from_str("[1, -1, 18446744073709551615, 1.0, 9223372036854775807]").unwrap();
    assert_eq!(
        from_json(j),
        Value::Sequence(vec![
            Value::Integer(1),
            Value::Integer(-1),
            Value::Float(Number::from(u64::MAX)),
            Value::Float(Number::from_f64(1.0).unwrap()),
            Value::Integer(i64::MAX),
        ])
    );
}

#[test]
fn json_objects_keep_the_order_of_their_keys() {
    assert_eq!(
        validate_json(r#"{"b": 1, "a": {"d": 2, "c": 3}}"#),
        Ok(mapping(vec![
            ("b", Value::Integer(1)),
            ("a", mapping(vec![("d", Value::Integer(2)), ("c", Value::Integer(3))])),
        ]))
    );
}

#[test]
fn validate_json_refuses_malformed_text() {
    assert!(matches!(validate_json("{"), Err(FormatError::ParseError(_))));
    assert!(matches!(validate_json(""), Err(FormatError::ParseError(_))));
    assert_eq!(validate_json("{").unwrap_err().failure(), Failure::Parse);
    assert_eq!(validate_json(" null "), Ok(Value::Null));
}

#[test]
fn json_to_json_indents() {
    assert_eq!(
        convert_json_to_json(r#"{"a":[1,2],"b":{"c":null}}"#),
        Ok("{\n  \"a\": [\n    1,\n    2\n  ],\n  \"b\": {\n    \"c\": null\n  }\n}".to_string())
    );
    assert_eq!(serialize_json(&Value::Sequence(vec![])), Ok("[]".to_string()));
    assert_eq!(kind(convert_json_to_json("[1,")), Err(Failure::Parse));
}

#[test]
fn json_to_yaml() {
    assert_eq!(
        convert_json_to_yaml(r#"{"name":"A","tags":[1,true],"in":{"x":null}}"#),
        Ok("name: A\ntags:\n- 1\n- true\nin:\n  x: null\n".to_string())
    );
    assert_eq!(serialize_yaml(&Value::Integer(3)), Ok("3\n".to_string()));
}

#[test]
fn json_to_toml_wraps_a_sequence() {
    assert_eq!(
        convert_json_to_toml(r#"{"title":"T","owner":{"name":"A"}}"#),
        Ok("title = \"T\"\n\n[owner]\nname = \"A\"\n".to_string())
    );
    assert_eq!(
        convert_json_to_toml(r#"[{"a":1},{"a":2}]"#),
        Ok("[[items]]\na = 1\n\n[[items]]\na = 2\n".to_string())
    );
    assert_eq!(kind(convert_json_to_toml("3")), Err(Failure::Serialization));
    assert_eq!(kind(serialize_toml(&Value::Null)), Err(Failure::Serialization));
}

#[test]
fn json_to_csv_flattens_and_projects() {
    assert_eq!(
        convert_json_to_csv(r#"[{"name":"A","contact":{"email":"a@x.com"}},{"name":"B","age":3}]"#),
        Ok("age,contact_email,name\n,a@x.com,A\n3,,B\n".to_string())
    );
    assert_eq!(
        convert_json_to_csv(r#"{"b":{"c":1,"d":"x,y"},"a":[1,2]}"#),
        Ok("a,b_c,b_d\n\"[1,2]\",1,\"x,y\"\n".to_string())
    );
}

#[test]
fn an_empty_sequence_gives_empty_csv() {
    assert_eq!(convert_json_to_csv("[]"), Ok(String::new()));
    assert_eq!(convert_yaml_to_csv("[]"), Ok(String::new()));
    assert_eq!(serialize_table(&Value::Sequence(vec![])), Ok(String::new()));
}

#[test]
fn a_scalar_gives_one_cell() {
    assert_eq!(convert_json_to_csv("42"), Ok("value\n42\n".to_string()));
    assert_eq!(convert_json_to_csv("\"abc\""), Ok("value\nabc\n".to_string()));
    assert_eq!(convert_json_to_csv("\"a,b\""), Ok("value\n\"a,b\"\n".to_string()));
    assert_eq!(convert_json_to_csv("null"), Ok("value\n\"\"\n".to_string()));
    assert_eq!(convert_json_to_csv("1.5"), Ok("value\n1.5\n".to_string()));
    assert_eq!(convert_toml_to_csv("data = 3"), Ok("data\n3\n".to_string()));
    assert_eq!(convert_yaml_to_csv("true"), Ok("value\ntrue\n".to_string()));
}

#[test]
fn csv_to_csv_writes_the_same_table() {
    assert_eq!(convert_csv_to_csv("a,b\n1,\"x y\"\n"), Ok("a,b\n1,x y\n".to_string()));
    assert_eq!(convert_csv_to_csv("a,b\r\n\"1,5\",2\r\n"), Ok("a,b\n\"1,5\",2\n".to_string()));
    assert_eq!(kind(convert_csv_to_csv("a,b\n1\n")), Err(Failure::Parse));
}

#[test]
fn parse_csv_reads_header_and_rows() {
    assert_eq!(
        parse_csv("name,contact.email\nA,a@x.com\nB,\n"),
        Ok(Table {
            header: strings(vec!["name", "contact.email"]),
            rows: vec![strings(vec!["A", "a@x.com"]), strings(vec!["B", ""])],
        })
    );
    assert_eq!(parse_csv(""), Ok(Table { header: vec![], rows: vec![] }));
    assert_eq!(parse_csv("a,b\n1,2,3\n").map_err(|e| e.failure()), Err(Failure::Parse));
}

#[test]
fn serialize_csv_writes_lines() {
    assert_eq!(
        serialize_csv(&vec![strings(vec!["a", "b"]), strings(vec!["1", "x\"y"])]),
        Ok("a,b\n1,\"x\"\"y\"\n".to_string())
    );
    assert_eq!(serialize_csv(&vec![]), Ok(String::new()));
    assert_eq!(
        kind(serialize_csv(&vec![strings(vec!["a", "b"]), strings(vec!["1"])])),
        Err(Failure::Serialization)
    );
}

#[test]
fn csv_to_json_types_the_cells() {
    assert_eq!(
        convert_csv_to_json("name,contact.email,age\nA,a@x.com,30\n"),
        Ok("[\n  {\n    \"name\": \"A\",\n    \"contact.email\": \"a@x.com\",\n    \"age\": 30\n  }\n]".to_string())
    );
    assert_eq!(convert_csv_to_json("a,b\n"), Ok("[]".to_string()));
}

#[test]
fn csv_to_json_nested_follows_dotted_keys() {
    assert_eq!(
        convert_csv_to_json_nested("name,contact.email\nA,a@x.com\n"),
        Ok("[\n  {\n    \"name\": \"A\",\n    \"contact\": {\n      \"email\": \"a@x.com\"\n    }\n  }\n]".to_string())
    );
}

#[test]
fn csv_to_yaml() {
    assert_eq!(
        convert_csv_to_yaml("a,b\n1,x\ntrue,\n"),
        Ok("- a: 1\n  b: x\n- a: true\n  b: null\n".to_string())
    );
}

#[test]
fn csv_to_toml_goes_under_data_and_back() {
    let toml = convert_csv_to_toml("a,b\n1,x\n2,y\n");
    assert_eq!(toml, Ok("[[data]]\na = 1\nb = \"x\"\n\n[[data]]\na = 2\nb = \"y\"\n".to_string()));
    assert_eq!(convert_toml_to_csv(&toml.unwrap()), Ok("a,b\n1,x\n2,y\n".to_string()));
    assert_eq!(kind(convert_csv_to_toml("a,b\n1,\n")), Err(Failure::Serialization));
}

#[test]
fn toml_conversions() {
    let source = "title = \"T\"\nn = 3\n\n[owner]\nname = \"A\"\n";
    assert_eq!(
        validate_toml(source),
        Ok(mapping(vec![
            ("title", text("T")),
            ("n", Value::Integer(3)),
            ("owner", mapping(vec![("name", text("A"))])),
        ]))
    );
    assert_eq!(
        convert_toml_to_json(source),
        Ok("{\n  \"title\": \"T\",\n  \"n\": 3,\n  \"owner\": {\n    \"name\": \"A\"\n  }\n}".to_string())
    );
    assert_eq!(convert_toml_to_yaml(source), Ok("title: T\nn: 3\nowner:\n  name: A\n".to_string()));
    assert_eq!(convert_toml_to_toml("n=3\ntitle   =   'T'"), Ok("n = 3\ntitle = \"T\"\n".to_string()));
    assert_eq!(convert_toml_to_csv(source), Ok("n,owner_name,title\n3,A,T\n".to_string()));
    assert_eq!(kind(convert_toml_to_json("a = ")), Err(Failure::Parse));
    assert_eq!(validate_toml("= 1").map_err(|e| e.failure()), Err(Failure::Parse));
}

#[test]
fn yaml_conversions() {
    let source = "name: A\ntags:\n  - 1\n  - x\n";
    assert_eq!(
        validate_yaml(source),
        Ok(mapping(vec![("name", text("A")), ("tags", Value::Sequence(vec![Value::Integer(1), text("x")]))]))
    );
    assert_eq!(
        convert_yaml_to_json(source),
        Ok("{\n  \"name\": \"A\",\n  \"tags\": [\n    1,\n    \"x\"\n  ]\n}".to_string())
    );
    assert_eq!(convert_yaml_to_yaml("{name: A, tags: [1, x]}"), Ok("name: A\ntags:\n- 1\n- x\n".to_string()));
    assert_eq!(convert_yaml_to_toml(source), Ok("name = \"A\"\ntags = [\n    1,\n    \"x\",\n]\n".to_string()));
    assert_eq!(convert_yaml_to_toml("- a: 1\n"), Ok("[[items]]\na = 1\n".to_string()));
    assert_eq!(convert_yaml_to_csv("- a: 1\n- b: 2\n"), Ok("a,b\n1,\n,2\n".to_string()));
    assert_eq!(kind(convert_yaml_to_json("a: [1")), Err(Failure::Parse));
    assert_eq!(kind(convert_yaml_to_json("? [1, 2]\n: x\n")), Err(Failure::Serialization));
    assert_eq!(validate_yaml("? [1, 2]\n: x\n").map_err(|e| e.failure()), Err(Failure::Serialization));
    assert_eq!(convert_yaml_to_yaml("? [1, 2]\n: x\n"), Ok("? - 1\n  - 2\n: x\n".to_string()));
}

#[test]
fn formats_by_extension() {
    assert_eq!(format_for("json"), Some(Format::Json));
    assert_eq!(format_for("JSON"), Some(Format::Json));
    assert_eq!(format_for("toml"), Some(Format::Toml));
    assert_eq!(format_for("yaml"), Some(Format::Yaml));
    assert_eq!(format_for("Yml"), Some(Format::Yaml));
    assert_eq!(format_for("csv"), Some(Format::Csv));
    assert_eq!(format_for("txt"), None);
    assert_eq!(format_for(""), None);
    assert_eq!(format_for("jsonl"), None);
    assert_eq!(format_for_file(None), Format::Json);
    assert_eq!(format_for_file(Some("csv")), Format::Csv);
    assert_eq!(format_for_file(Some("YML")), Format::Yaml);
    assert_eq!(format_for_file(Some("doc")), Format::Json);
    assert_eq!(format_for_file(Some("")), Format::Json);
}

#[test]
fn conversion_by_extension() {
    assert_eq!(convert_based_on_extension(Some("json"), Some("yml"), "{\"a\":1}"), Ok("a: 1\n".to_string()));
    assert_eq!(convert_based_on_extension(Some("YAML"), Some("csv"), "a: 1\n"), Ok("a\n1\n".to_string()));
    assert_eq!(convert_based_on_extension(Some("csv"), Some("txt"), "a\n1\n"), Ok("[\n  {\n    \"a\": 1\n  }\n]".to_string()));
    assert_eq!(convert_based_on_extension(None, None, "[1]"), Ok("[\n  1\n]".to_string()));
    assert_eq!(convert_based_on_extension(Some("toml"), None, "a = 1"), Ok("{\n  \"a\": 1\n}".to_string()));
    assert_eq!(convert(Format::Csv, Format::Csv, "a\n1\n"), Ok("a\n1\n".to_string()));
    assert_eq!(convert(Format::Json, Format::Toml, "{\"a\":1}"), Ok("a = 1\n".to_string()));
}

#[test]
fn a_source_of_no_known_format_is_read_as_json() {
    assert_eq!(
        convert_based_on_extension(Some("xml"), Some("json"), "{\"a\":1}"),
        Ok("{\n  \"a\": 1\n}".to_string())
    );
    assert_eq!(convert_based_on_extension(Some("txt"), Some("yaml"), "[1]"), Ok("- 1\n".to_string()));
    assert_eq!(convert_based_on_extension(Some("xml"), Some("xml"), "{}"), Ok("{}".to_string()));
    assert_eq!(kind(convert_based_on_extension(Some("xml"), Some("json"), "<a/>")), Err(Failure::Parse));
    assert_eq!(kind(convert_based_on_extension(Some("txt"), Some("csv"), "a: 1")), Err(Failure::Parse));
}

#[test]
fn errors_carry_their_kind_and_words() {
    let e = FormatError::IoError(described("cannot read in.json", "no such file"));
    assert_eq!(e.failure(), Failure::Io);
    assert_eq!(e.detail(), "cannot read in.json: no such file");
    assert_eq!(FormatError::ParseError(String::new()).failure(), Failure::Parse);
    assert_eq!(FormatError::SerializationError(String::new()).failure(), Failure::Serialization);
    assert_eq!(FormatError::StructureConflict("a.b".to_string()).failure(), Failure::StructureConflict);
    assert!(validate_json("[").unwrap_err().detail().starts_with("malformed JSON: "));
    assert_eq!(e.describe(), "I/O error: cannot read in.json: no such file");
    assert_eq!(FormatError::ParseError("x".to_string()).describe(), "parse error: x");
    assert_eq!(FormatError::SerializationError("y".to_string()).describe(), "serialization error: y");
    assert_eq!(FormatError::StructureConflict("a.b".to_string()).describe(), "structure conflict: a.b");
    assert_eq!(Failure::Io.as_str(), "I/O error");
}
