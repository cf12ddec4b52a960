//! Record-shaped values end to end: scalars, renames, sequences, optionals.

use query_params::encode::encode;
use query_params::value::{Field, Value};

#[derive(Debug)]
enum Enum {
    Unit,
}

fn field(name: &str, value: Value) -> Field {
    Field { name: name.to_string(), value, skip_if_empty: false }
}

fn skip_empty_field(name: &str, value: Value) -> Field {
    Field { name: name.to_string(), value, skip_if_empty: true }
}

#[test]
fn test_serde() {
    let duration = std::time::Duration::from_secs(60 * 60);
    let custom_unit = Enum::Unit;
    let record = Value::Record(vec![
        field("int", Value::U64(1)),
        field("unit", Value::UnitVariant("UNIT".to_string())),
        field(
            "duration",
            Value::Text(format!("T{}h", duration.as_secs() / 60 / 60)),
        ),
        field("unit2", Value::Text(format!("e{:?}", custom_unit))),
    ]);
    let expected = r#"int=1&unit=UNIT&duration=T1h&unit2=eUnit"#;
    assert_eq!(encode(&record).unwrap(), expected);
}

#[test]
fn test_ser_query_params_with_primitive_types() {
    let example_struct = Value::Record(vec![
        field("server", Value::Text("All might".to_string())),
        field("id", Value::I64(42)),
        field("running", Value::Bool(true)),
        skip_empty_field(
            "tags",
            Value::Sequence(vec![
                Value::Text("latest".to_string()),
                Value::Text("linux".to_string()),
            ]),
        ),
    ]);

    assert_eq!(
        encode(&example_struct).unwrap(),
        "server=All might&id=42&running=true&tags=latest,linux"
    );
}

#[test]
fn test_ser_empty_vec() {
    let example_struct = Value::Record(vec![
        field("server", Value::Text("All might".to_string())),
        field("id", Value::I64(42)),
        field("running", Value::Bool(true)),
        skip_empty_field("tags", Value::Sequence(vec![])),
    ]);

    assert_eq!(
        encode(&example_struct).unwrap(),
        "server=All might&id=42&running=true"
    );
}

#[test]
fn test_ser_for_empty_struct() {
    let empty_struct = Value::Record(vec![]);

    assert_eq!(encode(&empty_struct).unwrap().len(), 0);
}

#[test]
fn test_ser_with_optional_fields() {
    let opts_struct = Value::Record(vec![
        field("pretty", Value::Present(Box::new(Value::Bool(true)))),
        field(
            "format",
            Value::Present(Box::new(Value::Text("json".to_string()))),
        ),
        field("depth", Value::Absent),
    ]);

    assert_eq!(encode(&opts_struct).unwrap(), "pretty=true&format=json");
}

#[test]
fn unit_variant_renders_declared_name() {
    let record = Value::Record(vec![field(
        "unit",
        Value::UnitVariant("UNIT".to_string()),
    )]);
    assert_eq!(encode(&record).unwrap(), "unit=UNIT");
}

#[test]
fn record_of_only_invisible_fields_is_empty() {
    let record = Value::Record(vec![
        field("a", Value::Absent),
        skip_empty_field("b", Value::Sequence(vec![])),
        field("c", Value::Absent),
    ]);
    assert_eq!(encode(&record).unwrap(), "");
}

#[test]
fn lone_empty_sequence_marked_skip_yields_empty_string() {
    let record = Value::Record(vec![skip_empty_field("tags", Value::Sequence(vec![]))]);
    assert_eq!(encode(&record).unwrap(), "");
}

#[test]
fn field_order_follows_declaration_order() {
    let record = Value::Record(vec![
        field("z", Value::Bool(false)),
        field("a", Value::I64(-3)),
        field("m", Value::Text("x".to_string())),
    ]);
    assert_eq!(encode(&record).unwrap(), "z=false&a=-3&m=x");
}

#[test]
fn empty_sequence_without_skip_renders_empty_value() {
    let record = Value::Record(vec![field("tags", Value::Sequence(vec![]))]);
    assert_eq!(encode(&record).unwrap(), "tags=");
}

#[test]
fn sequence_of_three_is_one_comma_joined_entry() {
    let record = Value::Record(vec![field(
        "key",
        Value::Sequence(vec![
            Value::Text("a".to_string()),
            Value::Text("b".to_string()),
            Value::Text("c".to_string()),
        ]),
    )]);
    assert_eq!(encode(&record).unwrap(), "key=a,b,c");
}

#[test]
fn encoding_twice_is_byte_identical() {
    let record = Value::Record(vec![
        field("server", Value::Text("All might".to_string())),
        field("id", Value::I64(42)),
        field(
            "tags",
            Value::Sequence(vec![Value::U64(1), Value::U64(2)]),
        ),
    ]);
    let first = encode(&record).unwrap();
    let second = encode(&record).unwrap();
    assert_eq!(first, second);
}
