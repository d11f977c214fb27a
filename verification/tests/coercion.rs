use from_env::coerce::{coerce_scalar, ConfigValue};

/// Whether `s` parses as a finite 64-bit float, the flag the embedding
/// application computes before calling the library.
fn finite_float(s: &str) -> bool {
    match s.parse::<f64>() {
        Ok(v) => v.is_finite(),
        Err(_) => false,
    }
}

fn coerce(s: &str) -> ConfigValue {
    coerce_scalar(s, finite_float(s))
}

#[test]
fn coerce_is_total_and_deterministic() {
    let inputs = ["", "true", "false", "42", "-7", "3.14", "abc", "07", "  ", "--", "NaN", "inf"];
    for s in inputs {
        let a = coerce(s);
        let b = coerce(s);
        assert_eq!(a, b);
    }
}

#[test]
fn coerce_true_literal() {
    assert_eq!(coerce("true"), ConfigValue::Boolean(true));
}

#[test]
fn coerce_false_literal() {
    assert_eq!(coerce("false"), ConfigValue::Boolean(false));
}

#[test]
fn coerce_unsigned_integer() {
    assert_eq!(coerce("42"), ConfigValue::Unsigned(42));
}

#[test]
fn coerce_signed_integer() {
    assert_eq!(coerce("-7"), ConfigValue::Signed(-7));
}

#[test]
fn coerce_float_text() {
    assert_eq!(coerce("3.14"), ConfigValue::FloatText("3.14".to_string()));
}

#[test]
fn coerce_plain_text() {
    assert_eq!(coerce("abc"), ConfigValue::Text("abc".to_string()));
}

#[test]
fn coerce_leading_zero_integer() {
    assert_eq!(coerce("07"), ConfigValue::Unsigned(7));
}

#[test]
fn coerce_case_sensitive_booleans() {
    assert_eq!(coerce("True"), ConfigValue::Text("True".to_string()));
    assert_eq!(coerce("FALSE"), ConfigValue::Text("FALSE".to_string()));
}

#[test]
fn coerce_plus_sign_integer() {
    assert_eq!(coerce("+42"), ConfigValue::Unsigned(42));
}

#[test]
fn coerce_u64_boundaries() {
    assert_eq!(
        coerce("18446744073709551615"),
        ConfigValue::Unsigned(u64::MAX)
    );
    // One past u64::MAX is no integer, but it is a finite float.
    assert_eq!(
        coerce("18446744073709551616"),
        ConfigValue::FloatText("18446744073709551616".to_string())
    );
}

#[test]
fn coerce_i64_boundaries() {
    assert_eq!(coerce("-9223372036854775808"), ConfigValue::Signed(i64::MIN));
    assert_eq!(
        coerce("-9223372036854775809"),
        ConfigValue::FloatText("-9223372036854775809".to_string())
    );
}

#[test]
fn coerce_non_finite_floats_stay_text() {
    // "NaN" and "inf" parse as 64-bit floats but are not finite.
    assert_eq!(coerce("NaN"), ConfigValue::Text("NaN".to_string()));
    assert_eq!(coerce("inf"), ConfigValue::Text("inf".to_string()));
}

#[test]
fn coerce_empty_string_is_text() {
    assert_eq!(coerce(""), ConfigValue::Text(String::new()));
}
