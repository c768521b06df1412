use asp_cli::infer::infer;
use asp_cli::value::Value;
use serde_json::Number;

#[test]
fn infer_reads_truth_values_in_any_case() {
    assert_eq!(infer("true"), Value::Bool(true));
    assert_eq!(infer("FALSE"), Value::Bool(false));
    assert_eq!(infer("TrUe"), Value::Bool(true));
}

#[test]
fn infer_reads_integers_before_doubles() {
    assert_eq!(infer("42"), Value::Integer(42));
    assert_eq!(infer("007"), Value::Integer(7));
    assert_eq!(infer("-9223372036854775808"), Value::Integer(i64::MIN));
    assert_eq!(infer("9223372036854775807"), Value::Integer(i64::MAX));
}

#[test]
fn infer_reads_finite_doubles() {
    assert_eq!(infer("42.0"), Value::Float(Number::from_f64(42.0).unwrap()));
    assert_eq!(infer("+42"), Value::Float(Number::from_f64(42.0).unwrap()));
    assert_eq!(
        infer("9223372036854775808"),
        Value::Float(Number::from_f64(9223372036854775808.0).unwrap())
    );
}

#[test]
fn infer_keeps_other_cells_as_text() {
    assert_eq!(infer(""), Value::Null);
    assert_eq!(infer("abc"), Value::String("abc".to_string()));
    assert_eq!(infer("1e400"), Value::String("1e400".to_string()));
    assert_eq!(infer(" 42"), Value::String(" 42".to_string()));
    assert_eq!(infer("NaN"), Value::String("NaN".to_string()));
}
