//! Canonical text forms of the scalar shapes, one field at a time.

use query_params::encode::{encode, i64_string, join_with, u64_string};
use query_params::value::{Field, Value};

fn one_field(name: &str, value: Value) -> Value {
    Value::Record(vec![Field { name: name.to_string(), value, skip_if_empty: false }])
}

#[test]
fn unsigned_decimal_rendering() {
    assert_eq!(u64_string(0), "0");
    assert_eq!(u64_string(7), "7");
    assert_eq!(u64_string(10), "10");
    assert_eq!(u64_string(65536), "65536");
    assert_eq!(u64_string(u64::MAX), "18446744073709551615");
}

#[test]
fn signed_decimal_rendering() {
    assert_eq!(i64_string(0), "0");
    assert_eq!(i64_string(42), "42");
    assert_eq!(i64_string(-1), "-1");
    assert_eq!(i64_string(i64::MAX), "9223372036854775807");
    assert_eq!(i64_string(i64::MIN), "-9223372036854775808");
}

#[test]
fn boolean_fields_render_true_and_false() {
    assert_eq!(encode(&one_field("on", Value::Bool(true))).unwrap(), "on=true");
    assert_eq!(encode(&one_field("on", Value::Bool(false))).unwrap(), "on=false");
}

#[test]
fn character_field_renders_verbatim() {
    assert_eq!(encode(&one_field("c", Value::Char('x'))).unwrap(), "c=x");
}

#[test]
fn text_field_keeps_spaces_and_punctuation() {
    let v = one_field("q", Value::Text("a b?c/d".to_string()));
    assert_eq!(encode(&v).unwrap(), "q=a b?c/d");
}

#[test]
fn bytes_field_renders_comma_joined_decimals() {
    let v = one_field("raw", Value::Bytes(vec![0, 7, 255]));
    assert_eq!(encode(&v).unwrap(), "raw=0,7,255");
}

#[test]
fn unit_field_renders_empty_value() {
    assert_eq!(encode(&one_field("u", Value::Unit)).unwrap(), "u=");
}

#[test]
fn newtype_wrappers_are_transparent() {
    let v = one_field("n", Value::Newtype(Box::new(Value::I64(5))));
    assert_eq!(encode(&v).unwrap(), "n=5");
    let v = one_field(
        "n",
        Value::NewtypeVariant("Wrapped".to_string(), Box::new(Value::Text("x".to_string()))),
    );
    assert_eq!(encode(&v).unwrap(), "n=x");
}

#[test]
fn sequence_elements_may_be_wrapped_scalars() {
    let v = one_field(
        "xs",
        Value::Sequence(vec![
            Value::Present(Box::new(Value::U64(1))),
            Value::Newtype(Box::new(Value::Bool(false))),
            Value::Char('z'),
        ]),
    );
    assert_eq!(encode(&v).unwrap(), "xs=1,false,z");
}

#[test]
fn join_with_places_one_separator_between_parts() {
    assert_eq!(join_with(&vec![], '&'), "");
    assert_eq!(join_with(&vec!["a".to_string()], '&'), "a");
    assert_eq!(
        join_with(&vec!["a".to_string(), "b".to_string(), "c".to_string()], '&'),
        "a&b&c"
    );
}
