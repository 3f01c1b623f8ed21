use config_manager::json::{DataType, JsonNumber, JsonValue};
use config_manager::rules::{ValidationError, ValidationRule};

fn text(s: &str) -> JsonValue {
    JsonValue::String(s.to_string())
}

fn num(i: i64) -> JsonValue {
    JsonValue::Number(JsonNumber::from_i64(i))
}

#[test]
fn test_min_value_validation() {
    let rule = ValidationRule::MinValue(10);

    assert!(rule.apply(&num(15)).is_ok());
    assert!(rule.apply(&num(5)).is_err());
}

#[test]
fn test_max_value_validation() {
    let rule = ValidationRule::MaxValue(100);

    assert!(rule.apply(&num(50)).is_ok());
    assert!(rule.apply(&num(150)).is_err());
}

#[test]
fn test_length_validation() {
    let min_rule = ValidationRule::MinLength(3);
    let max_rule = ValidationRule::MaxLength(10);

    let value = text("hello");
    assert!(min_rule.apply(&value).is_ok());
    assert!(max_rule.apply(&value).is_ok());

    let value = text("hi");
    assert!(min_rule.apply(&value).is_err());

    let value = text("verylongstring");
    assert!(max_rule.apply(&value).is_err());
}

#[test]
fn test_pattern_validation() {
    let rule = ValidationRule::Pattern(r"^\d{3}-\d{3}-\d{4}$".to_string());

    assert!(rule.apply(&text("123-456-7890")).is_ok());
    assert!(rule.apply(&text("invalid")).is_err());
}

#[test]
fn test_required_validation() {
    let rule = ValidationRule::Required;

    assert!(rule.apply(&text("test")).is_ok());
    assert!(rule.apply(&JsonValue::Null).is_err());
}

#[test]
fn required_rule_reports_value_required() {
    let err = ValidationRule::Required.apply(&JsonValue::Null).unwrap_err();
    assert_eq!(err, ValidationError::ValueRequired);
    assert_eq!(err.message(), "Value is required");
}

#[test]
fn range_rules_report_bound_and_value() {
    assert_eq!(ValidationRule::MinValue(10).apply(&num(5)), Err(ValidationError::MinValue(10, 5)));
    assert_eq!(ValidationRule::MaxValue(100).apply(&num(150)), Err(ValidationError::MaxValue(100, 150)));
    assert_eq!(ValidationRule::MinValue(10).apply(&num(10)), Ok(()));
    assert_eq!(ValidationRule::MaxValue(100).apply(&num(100)), Ok(()));
}

#[test]
fn range_rules_pass_values_that_are_not_integers() {
    assert_eq!(ValidationRule::MinValue(10).apply(&text("5")), Ok(()));
    assert_eq!(ValidationRule::MaxValue(0).apply(&JsonValue::Number(JsonNumber::Float(2.5f64.to_bits()))), Ok(()));
    assert_eq!(ValidationRule::MaxValue(0).apply(&JsonValue::Number(JsonNumber::PosInt(u64::MAX))), Ok(()));
}

#[test]
fn length_is_counted_in_utf8_bytes() {
    // two characters, four bytes
    assert_eq!(ValidationRule::MaxLength(3).apply(&text("éé")), Err(ValidationError::MaxLength(3, 4)));
    assert_eq!(ValidationRule::MinLength(4).apply(&text("éé")), Ok(()));
    assert_eq!(ValidationRule::MinLength(4).apply(&num(1)), Ok(()));
}

#[test]
fn pattern_errors() {
    assert_eq!(
        ValidationRule::Pattern("^a$".to_string()).apply(&text("b")),
        Err(ValidationError::PatternMismatch("^a$".to_string(), "b".to_string()))
    );
    match ValidationRule::Pattern("(unclosed".to_string()).apply(&text("x")) {
        Err(ValidationError::InvalidPattern(msg)) => assert!(!msg.is_empty()),
        other => panic!("unexpected {:?}", other),
    }
    assert_eq!(ValidationRule::Pattern("(unclosed".to_string()).apply(&num(3)), Ok(()));
}

#[test]
fn custom_rule_passes_everything() {
    let rule = ValidationRule::Custom("anything".to_string());
    assert_eq!(rule.apply(&JsonValue::Null), Ok(()));
    assert_eq!(rule.apply(&text("x")), Ok(()));
}

#[test]
fn data_type_of_every_kind_of_value() {
    assert_eq!(DataType::from_json_value(&JsonValue::Number(JsonNumber::Float(1.5f64.to_bits()))), DataType::Float);
    assert_eq!(DataType::from_json_value(&JsonValue::Number(JsonNumber::PosInt(u64::MAX))), DataType::String);
    assert_eq!(DataType::from_json_value(&num(-3)), DataType::Integer);
    assert_eq!(DataType::from_json_value(&JsonValue::Null), DataType::String);
    assert_eq!(DataType::from_json_value(&JsonValue::Array(vec![num(1)])), DataType::Object);
    assert_eq!(DataType::from_json_value(&JsonValue::Object(vec![])), DataType::Object);
}

#[test]
fn json_number_accessors() {
    assert_eq!(JsonNumber::from_i64(-5), JsonNumber::NegInt(-5));
    assert_eq!(JsonNumber::from_i64(5), JsonNumber::PosInt(5));
    assert_eq!(JsonNumber::from_u64(7), JsonNumber::PosInt(7));
    assert_eq!(JsonNumber::PosInt(u64::MAX).as_i64(), None);
    assert_eq!(JsonNumber::PosInt(9).as_i64(), Some(9));
    assert!(JsonNumber::Float(0).is_f64());
    assert!(!JsonNumber::Float(0).is_i64());
    assert!(JsonValue::Null.is_null());
    assert_eq!(text("a").as_i64(), None);
}
