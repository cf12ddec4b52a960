//! The error taxonomy, and the flattening of the composite shapes.

use query_params::encode::encode;
use query_params::errors::{Error, InnerError};
use query_params::value::{Field, Value};

fn field(name: &str, value: Value) -> Field {
    Field { name: name.to_string(), value, skip_if_empty: false }
}

#[test]
fn top_level_scalar_is_a_custom_error() {
    let err = encode(&Value::Bool(true)).unwrap_err();
    match &err.inner {
        InnerError::Custom(msg) => assert_eq!(msg, "top-level value is not a record"),
        other => panic!("expected a custom error, got {:?}", other),
    }
    assert_eq!(err.message(), "custom error: top-level value is not a record");
}

#[test]
fn composite_sequence_element_is_a_formatting_error() {
    let record = Value::Record(vec![field(
        "xs",
        Value::Sequence(vec![Value::U64(1), Value::Sequence(vec![Value::U64(2)])]),
    )]);
    let err = encode(&record).unwrap_err();
    assert!(matches!(err.inner, InnerError::Fmt));
    assert_eq!(err.message(), "canonical text conversion failed");
}

#[test]
fn absent_sequence_element_is_a_formatting_error() {
    let record = Value::Record(vec![field("xs", Value::Sequence(vec![Value::Absent]))]);
    let err = encode(&record).unwrap_err();
    assert!(matches!(err.inner, InnerError::Fmt));
}

#[test]
fn composite_map_key_is_a_formatting_error() {
    let record = Value::Record(vec![field(
        "m",
        Value::Dict(vec![(Value::Record(vec![]), Value::U64(1))]),
    )]);
    let err = encode(&record).unwrap_err();
    assert!(matches!(err.inner, InnerError::Fmt));
}

#[test]
fn error_constructors_carry_their_class() {
    let custom = Error::custom("boom");
    assert!(matches!(custom.inner, InnerError::Custom(_)));
    assert_eq!(custom.message(), "custom error: boom");

    let io = Error::io_error("sink closed");
    match &io.inner {
        InnerError::Io(msg) => assert_eq!(msg, "sink closed"),
        other => panic!("expected an i/o error, got {:?}", other),
    }
    assert_eq!(io.message(), "i/o error: sink closed");

    let fmt = Error::formatting();
    assert!(matches!(fmt.inner, InnerError::Fmt));
}

#[test]
fn nested_record_flattens_with_bare_names() {
    let record = Value::Record(vec![
        field("a", Value::U64(1)),
        field(
            "inner",
            Value::Record(vec![field("b", Value::U64(2)), field("c", Value::U64(3))]),
        ),
        field("d", Value::U64(4)),
    ]);
    assert_eq!(encode(&record).unwrap(), "a=1&b=2&c=3&d=4");
}

#[test]
fn struct_variant_encodes_like_a_record() {
    let v = Value::StructVariant(
        "Params".to_string(),
        vec![field("x", Value::I64(1)), field("y", Value::I64(2))],
    );
    assert_eq!(encode(&v).unwrap(), "x=1&y=2");
}

#[test]
fn map_pairs_become_entries_under_their_key_texts() {
    let record = Value::Record(vec![field(
        "m",
        Value::Dict(vec![
            (Value::Text("k1".to_string()), Value::U64(1)),
            (Value::U64(7), Value::Text("v".to_string())),
        ]),
    )]);
    assert_eq!(encode(&record).unwrap(), "k1=1&7=v");
}

#[test]
fn tuple_encodes_comma_joined_like_a_sequence() {
    let record = Value::Record(vec![field(
        "t",
        Value::Tuple(vec![Value::U64(1), Value::Bool(true)]),
    )]);
    assert_eq!(encode(&record).unwrap(), "t=1,true");
}

#[test]
fn present_optional_equals_unwrapped_encoding() {
    let wrapped = Value::Record(vec![field(
        "k",
        Value::Present(Box::new(Value::Text("v".to_string()))),
    )]);
    let bare = Value::Record(vec![field("k", Value::Text("v".to_string()))]);
    assert_eq!(encode(&wrapped).unwrap(), encode(&bare).unwrap());
}

#[test]
fn absent_optional_key_never_appears() {
    let record = Value::Record(vec![
        field("kept", Value::U64(1)),
        field("gone", Value::Absent),
    ]);
    let out = encode(&record).unwrap();
    assert_eq!(out, "kept=1");
    assert!(!out.contains("gone"));
}

#[test]
fn output_has_no_stray_separators() {
    let record = Value::Record(vec![
        field("a", Value::Absent),
        field("b", Value::U64(1)),
        field("c", Value::Absent),
        field("d", Value::U64(2)),
        field("e", Value::Absent),
    ]);
    let out = encode(&record).unwrap();
    assert_eq!(out, "b=1&d=2");
    assert!(!out.starts_with('?'));
    assert!(!out.starts_with('&'));
    assert!(!out.ends_with('&'));
    assert!(!out.contains("&&"));
}
