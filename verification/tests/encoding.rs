//! The typed-to-text encoding policy on concrete values.

use csv_recorder::value::Value;

#[test]
fn decimal_encodes_as_decimal_text() {
    let v = Value::Decimal(3.5f64.to_string());
    assert_eq!(v.encode(), "3.5");
}

#[test]
fn integer_encodes_as_integer_text() {
    assert_eq!(Value::Integer(42).encode(), "42");
    assert_eq!(Value::Integer(0).encode(), "0");
    assert_eq!(Value::Integer(-7).encode(), "-7");
    assert_eq!(Value::Integer(i64::MAX).encode(), "9223372036854775807");
    assert_eq!(Value::Integer(i64::MIN).encode(), "-9223372036854775808");
}

#[test]
fn bit_encodes_as_boolean_text() {
    assert_eq!(Value::Bit(true).encode(), "true");
    assert_eq!(Value::Bit(false).encode(), "false");
}

#[test]
fn text_encodes_verbatim() {
    assert_eq!(Value::Text("hello".to_string()).encode(), "hello");
    assert_eq!(Value::Text(String::new()).encode(), "");
}

#[test]
fn zero_timeout_encodes_as_true() {
    assert_eq!(Value::Timeout { secs: 0, nanos: 0 }.encode(), "true");
}

#[test]
fn nonzero_timeout_encodes_as_false() {
    assert_eq!(Value::Timeout { secs: 5, nanos: 0 }.encode(), "false");
    assert_eq!(Value::Timeout { secs: 0, nanos: 1 }.encode(), "false");
}

#[test]
fn binary_encodes_as_empty_field() {
    assert_eq!(Value::Bin(vec![1u8, 2, 3]).encode(), "");
}
