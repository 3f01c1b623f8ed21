use config_manager::json::{DataType, JsonNumber, JsonValue};
use config_manager::rules::{ValidationError, ValidationRule};
use config_manager::table::{ConfigError, ConfigManager, ConfigTable};
use config_manager::value::ConfigValue;

fn text(s: &str) -> JsonValue {
    JsonValue::String(s.to_string())
}

fn num(i: i64) -> JsonValue {
    JsonValue::Number(JsonNumber::from_i64(i))
}

fn create_test_manager() -> ConfigManager {
    ConfigManager::new()
}

fn create_test_configs() -> ConfigTable {
    let mut configs = ConfigTable::new();
    configs.insert(
        "app.name".to_string(),
        ConfigValue::new(text("TestApp"), DataType::String, false),
    );
    configs.insert(
        "server.port".to_string(),
        ConfigValue::new(num(3000), DataType::Integer, true),
    );
    configs.insert(
        "server.ssl".to_string(),
        ConfigValue::new(JsonValue::Bool(true), DataType::Boolean, false),
    );
    configs
}

fn to_serde(v: &JsonValue) -> serde_json::Value {
    match v {
        JsonValue::Null => serde_json::Value::Null,
        JsonValue::Bool(b) => serde_json::Value::Bool(*b),
        JsonValue::Number(JsonNumber::PosInt(u)) => serde_json::Value::from(*u),
        JsonValue::Number(JsonNumber::NegInt(i)) => serde_json::Value::from(*i),
        JsonValue::Number(JsonNumber::Float(bits)) => serde_json::Value::from(f64::from_bits(*bits)),
        JsonValue::String(s) => serde_json::Value::String(s.clone()),
        JsonValue::Array(items) => serde_json::Value::Array(items.iter().map(to_serde).collect()),
        JsonValue::Object(members) => serde_json::Value::Object(
            members.iter().map(|(k, v)| (k.clone(), to_serde(v))).collect(),
        ),
    }
}

#[test]
fn test_config_value_creation() {
    let config = ConfigValue::new(text("test"), DataType::String, false);

    assert_eq!(config.value, text("test"));
    assert_eq!(config.data_type, DataType::String);
    assert!(!config.required);
    assert!(config.validation_rules.is_empty());
}

#[test]
fn test_config_validation_required() {
    let mut config = ConfigValue::new(JsonValue::Null, DataType::String, true);
    config.description = "Test field".to_string();

    let result = config.validate();
    assert!(result.is_err());
}

#[test]
fn test_config_validation_min_max() {
    let mut config = ConfigValue::new(num(50), DataType::Integer, false);
    config.validation_rules.push(ValidationRule::MinValue(0));
    config.validation_rules.push(ValidationRule::MaxValue(100));

    assert!(config.validate().is_ok());

    let mut config = ConfigValue::new(num(150), DataType::Integer, false);
    config.validation_rules.push(ValidationRule::MinValue(0));
    config.validation_rules.push(ValidationRule::MaxValue(100));

    assert!(config.validate().is_err());
}

#[test]
fn test_config_validation_pattern() {
    let mut config = ConfigValue::new(text("test@example.com"), DataType::String, false);
    config.validation_rules.push(ValidationRule::Pattern(r"^[^@]+@[^@]+\.[^@]+$".to_string()));

    assert!(config.validate().is_ok());

    let mut config = ConfigValue::new(text("invalid-email"), DataType::String, false);
    config.validation_rules.push(ValidationRule::Pattern(r"^[^@]+@[^@]+\.[^@]+$".to_string()));

    assert!(config.validate().is_err());
}

#[test]
fn test_data_type_from_json() {
    assert_eq!(DataType::from_json_value(&text("test")), DataType::String);
    assert_eq!(DataType::from_json_value(&num(42)), DataType::Integer);
    assert_eq!(DataType::from_json_value(&JsonValue::Bool(true)), DataType::Boolean);
}

#[test]
fn test_config_manager_basic_operations() {
    let mut manager = create_test_manager();

    let value = ConfigValue::new(text("test"), DataType::String, false);
    manager.set("test.key".to_string(), value).unwrap();

    let retrieved = manager.get("test.key").unwrap();
    assert_eq!(retrieved.as_str(), Some("test"));

    assert!(manager.has("test.key"));
    assert!(!manager.has("nonexistent.key"));
}

#[test]
fn test_config_manager_export_import() {
    let mut manager = create_test_manager();

    let configs = create_test_configs();
    manager.update_configurations(configs).unwrap();

    let export: serde_json::Map<String, serde_json::Value> = manager
        .export_entries()
        .into_iter()
        .map(|(k, v)| (k, to_serde(v)))
        .collect();
    let json = serde_json::to_string_pretty(&export).unwrap();
    let exported: std::collections::HashMap<String, serde_json::Value> = serde_json::from_str(&json).unwrap();

    assert!(exported.contains_key("app.name"));
    assert!(exported.contains_key("server.port"));

    if let Some(name) = exported.get("app.name") {
        assert_eq!(name, "TestApp");
    }
}

#[test]
fn test_config_validation_integration() {
    let mut manager = create_test_manager();

    let mut port_config = ConfigValue::new(num(8080), DataType::Integer, true);
    port_config.validation_rules.push(ValidationRule::MinValue(1));
    port_config.validation_rules.push(ValidationRule::MaxValue(65535));

    manager.set("server.port".to_string(), port_config).unwrap();

    assert!(manager.validate_all().is_ok());
}

#[test]
fn test_hot_reload_simulation() {
    let mut manager = create_test_manager();

    let config = ConfigValue::new(text("v1"), DataType::String, false);
    manager.set("app.version".to_string(), config).unwrap();

    let config = ConfigValue::new(text("v2"), DataType::String, false);
    manager.set("app.version".to_string(), config).unwrap();

    let version = manager.get("app.version").unwrap();
    assert_eq!(version.as_str(), Some("v2"));
}

#[test]
fn test_large_config_loading() {
    let start = std::time::Instant::now();
    let mut manager = create_test_manager();

    let mut configs = ConfigTable::new();
    for i in 0..1000 {
        let key = format!("config.item_{}", i);
        let value = ConfigValue::new(JsonValue::String(format!("value_{}", i)), DataType::String, false);
        configs.insert(key, value);
    }
    assert_eq!(configs.len(), 1000);

    let update_start = std::time::Instant::now();
    manager.update_configurations(configs).unwrap();
    let update_duration = update_start.elapsed();

    let validation_start = std::time::Instant::now();
    manager.validate_all().unwrap();
    let validation_duration = validation_start.elapsed();

    let total_duration = start.elapsed();

    println!("Total time: {:?}", total_duration);
    println!("Update time: {:?}", update_duration);
    println!("Validation time: {:?}", validation_duration);

    assert!(total_duration < std::time::Duration::from_millis(1000));
    assert!(update_duration < std::time::Duration::from_millis(500));
    assert!(validation_duration < std::time::Duration::from_millis(500));
}

#[test]
fn test_concurrent_operations() {
    let manager = create_test_manager();
    let mut errors = Vec::new();
    for _ in 0..10 {
        for j in 0..100 {
            let key = format!("concurrent.key_{}", j);
            if let Err(e) = manager.get(&key) {
                errors.push(e);
            }
        }
    }
    assert!(errors.is_empty(), "Concurrent operations should not cause errors");
}

#[test]
fn get_of_missing_key_reads_null() {
    let manager = create_test_manager();
    assert_eq!(manager.get("missing.key"), Ok(&JsonValue::Null));
    assert!(!manager.has("missing.key"));
}

#[test]
fn set_leaves_other_keys_and_last_write_wins() {
    let mut manager = create_test_manager();
    manager.set("a".to_string(), ConfigValue::new(num(1), DataType::Integer, false)).unwrap();
    manager.set("b".to_string(), ConfigValue::new(num(2), DataType::Integer, false)).unwrap();
    manager.set("a".to_string(), ConfigValue::new(num(3), DataType::Integer, false)).unwrap();
    assert_eq!(manager.get("a").unwrap(), &num(3));
    assert_eq!(manager.get("b").unwrap(), &num(2));
    let mut keys = manager.keys();
    keys.sort();
    assert_eq!(keys, vec!["a".to_string(), "b".to_string()]);
}

#[test]
fn update_merges_and_replaces() {
    let mut manager = create_test_manager();
    manager.set("app.name".to_string(), ConfigValue::new(text("Old"), DataType::String, false)).unwrap();
    manager.set("extra".to_string(), ConfigValue::new(num(7), DataType::Integer, false)).unwrap();
    manager.update_configurations(create_test_configs()).unwrap();
    assert_eq!(manager.get("app.name").unwrap(), &text("TestApp"));
    assert_eq!(manager.get("extra").unwrap(), &num(7));
    assert_eq!(manager.keys().len(), 4);
}

#[test]
fn export_lists_each_key_once_with_its_value() {
    let mut manager = create_test_manager();
    manager.update_configurations(create_test_configs()).unwrap();
    let pairs = manager.export_entries();
    assert_eq!(pairs.len(), 3);
    let value_of = |k: &str| pairs.iter().find(|(key, _)| key == k).map(|(_, v)| *v);
    assert_eq!(value_of("app.name"), Some(&text("TestApp")));
    assert_eq!(value_of("server.port"), Some(&num(3000)));
    assert_eq!(value_of("server.ssl"), Some(&JsonValue::Bool(true)));
}

#[test]
fn validate_all_reports_the_failing_entry() {
    let mut manager = create_test_manager();
    manager.set("ok".to_string(), ConfigValue::new(num(5), DataType::Integer, false)).unwrap();
    let mut bad = ConfigValue::new(num(70000), DataType::Integer, true);
    bad.validation_rules.push(ValidationRule::MaxValue(65535));
    manager.set("server.port".to_string(), bad).unwrap();
    assert_eq!(
        manager.validate_all(),
        Err(ConfigError::Validation("server.port".to_string(), ValidationError::MaxValue(65535, 70000)))
    );
}

#[test]
fn required_missing_value_is_reported() {
    let mut config = ConfigValue::new(JsonValue::Null, DataType::String, true);
    config.description = "Test field".to_string();
    assert_eq!(config.validate(), Err(ValidationError::RequiredMissing));
    assert_eq!(config.validate().unwrap_err().message(), "Required configuration value is missing");
    config.default_value = Some(text("fallback"));
    config.validation_rules.push(ValidationRule::Required);
    assert_eq!(config.validate(), Ok(()));
}

#[test]
fn first_failing_rule_is_reported() {
    let mut config = ConfigValue::new(text("ab"), DataType::String, false);
    config.validation_rules.push(ValidationRule::MaxLength(10));
    config.validation_rules.push(ValidationRule::MinLength(3));
    config.validation_rules.push(ValidationRule::Pattern("^x".to_string()));
    assert_eq!(config.validate(), Err(ValidationError::MinLength(3, 2)));
}

#[test]
fn fresh_entry_is_valid() {
    let config = ConfigValue::new(JsonValue::Null, DataType::String, false);
    assert!(config.validate().is_ok());
}

#[test]
fn table_insert_and_lookup() {
    let mut t = ConfigTable::new();
    assert_eq!(t.len(), 0);
    t.insert("k".to_string(), ConfigValue::new(num(1), DataType::Integer, false));
    t.insert("k".to_string(), ConfigValue::new(num(2), DataType::Integer, false));
    assert_eq!(t.len(), 1);
    assert!(t.contains_key("k"));
    assert_eq!(t.get("k").unwrap().value, num(2));
    assert!(t.get("other").is_none());
}

#[test]
fn setting_a_valid_entry_keeps_the_configuration_valid() {
    let mut manager = create_test_manager();
    manager.update_configurations(create_test_configs()).unwrap();
    assert!(manager.validate_all().is_ok());
    let mut port = ConfigValue::new(num(443), DataType::Integer, true);
    port.validation_rules.push(ValidationRule::MinValue(1));
    manager.set("server.port".to_string(), port).unwrap();
    assert!(manager.validate_all().is_ok());
}

#[test]
fn error_messages_read_as_the_program_shows_them() {
    assert_eq!(ValidationError::ValueRequired.message(), "Value is required");
    assert_eq!(ValidationError::MinValue(10, 5).message(), "Expected value >= 10, got 5");
    assert_eq!(ValidationError::MaxValue(-3, -1).message(), "Expected value <= -3, got -1");
    assert_eq!(ValidationError::MinLength(3, 2).message(), "Expected length >= 3, got 2");
    assert_eq!(ValidationError::MaxLength(10, 12).message(), "Expected length <= 10, got 12");
    assert_eq!(
        ValidationError::PatternMismatch("^x".to_string(), "ab".to_string()).message(),
        "Pattern mismatch: expected ^x, got ab"
    );
    assert_eq!(ValidationError::InvalidPattern("bad".to_string()).message(), "Invalid pattern: bad");
    assert_eq!(ValidationError::TypeMismatch("int".to_string()).message(), "Type mismatch: int");
    assert_eq!(
        ConfigError::Validation("server.port".to_string(), ValidationError::MaxValue(65535, 70000)).message(),
        "Validation error in server.port: Expected value <= 65535, got 70000"
    );
    assert_eq!(ConfigError::InvalidFormat("Custom format not implemented".to_string()).message(), "Custom format not implemented");
}
