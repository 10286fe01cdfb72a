// Tests for the classification of single raw values.

use typed_ini::value::{is_float_value, parse_boolean, parse_integer, TypedValue};

#[test]
fn integer_plain() {
    assert_eq!(parse_integer("100"), Some(100));
    assert_eq!(parse_integer("0"), Some(0));
}

#[test]
fn integer_leading_zeros() {
    // Numeric-value parsing: leading zeros are not preserved.
    assert_eq!(parse_integer("0100"), Some(100));
    assert_eq!(parse_integer("000"), Some(0));
}

#[test]
fn integer_signs() {
    assert_eq!(parse_integer("+42"), Some(42));
    assert_eq!(parse_integer("-7"), Some(-7));
    assert_eq!(parse_integer("+"), None);
    assert_eq!(parse_integer("-"), None);
}

#[test]
fn integer_bounds() {
    assert_eq!(
        parse_integer("170141183460469231731687303715884105727"),
        Some(i128::MAX)
    );
    assert_eq!(
        parse_integer("-170141183460469231731687303715884105728"),
        Some(i128::MIN)
    );
    assert_eq!(parse_integer("170141183460469231731687303715884105728"), None);
    assert_eq!(parse_integer("-170141183460469231731687303715884105729"), None);
}

#[test]
fn integer_rejects() {
    assert_eq!(parse_integer(""), None);
    assert_eq!(parse_integer("1.0"), None);
    assert_eq!(parse_integer("1,000"), None);
    assert_eq!(parse_integer("100 0000"), None);
    assert_eq!(parse_integer(" 100"), None);
    assert_eq!(parse_integer("100 "), None);
    assert_eq!(parse_integer("0x10"), None);
}

#[test]
fn float_accepts() {
    assert!(is_float_value("1.1"));
    assert!(is_float_value("1e5"));
    assert!(is_float_value(".5"));
    assert!(is_float_value("5."));
    assert!(is_float_value("-2.5E-3"));
    assert!(is_float_value("+10e+2"));
    assert!(is_float_value("inf"));
    assert!(is_float_value("-Infinity"));
    assert!(is_float_value("NaN"));
    // Digit runs beyond the 128-bit integer range still read as floats.
    assert!(is_float_value("170141183460469231731687303715884105728"));
}

#[test]
fn float_agrees_with_float_parsing() {
    // The grammar matches what the standard float parser accepts in full.
    for raw in [
        "1.1", "1e5", ".5", "5.", "-2.5E-3", "inf", "NaN", "1.2.3", "1e", "e5", ".", "1,000",
        "100 0000", "", "-", "+1", "0x1p3", "1_000", "infinit", "nan0",
    ] {
        assert_eq!(is_float_value(raw), raw.parse::<f64>().is_ok(), "raw = {:?}", raw);
    }
}

#[test]
fn float_rejects() {
    assert!(!is_float_value("1.2.3"));
    assert!(!is_float_value("1e"));
    assert!(!is_float_value("e5"));
    assert!(!is_float_value("."));
    assert!(!is_float_value(""));
    assert!(!is_float_value("1,000"));
    assert!(!is_float_value("100 0000"));
}

#[test]
fn boolean_spellings() {
    assert_eq!(parse_boolean("true"), Some(true));
    assert_eq!(parse_boolean("false"), Some(false));
    assert_eq!(parse_boolean("True"), None);
    assert_eq!(parse_boolean("TRUE"), None);
    assert_eq!(parse_boolean("1"), None);
    assert_eq!(parse_boolean(""), None);
}

#[test]
fn typed_value_precedence() {
    assert!(matches!(TypedValue::new(String::from("100")), TypedValue::Integer(100)));
    match TypedValue::new(String::from("1.1")) {
        TypedValue::Float(f) => assert_eq!(f, "1.1"),
        _ => panic!("1.1 must classify as a float"),
    }
    assert!(matches!(TypedValue::new(String::from("true")), TypedValue::Boolean(true)));
    assert!(matches!(TypedValue::new(String::from("false")), TypedValue::Boolean(false)));
    match TypedValue::new(String::from("1,000")) {
        TypedValue::Text(t) => assert_eq!(t, "1,000"),
        _ => panic!("1,000 must fall back to a string"),
    }
    match TypedValue::new(String::from("")) {
        TypedValue::Text(t) => assert_eq!(t, ""),
        _ => panic!("an empty present value must fall back to a string"),
    }
}
