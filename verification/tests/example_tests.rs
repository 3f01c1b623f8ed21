use config_manager::example::{add_validation_rules, load_sample_config, set_sample_config, SAMPLE_CONFIG};
use config_manager::json::{DataType, JsonNumber, JsonValue};
use config_manager::rules::ValidationRule;
use config_manager::table::ConfigManager;

fn text(s: &str) -> JsonValue {
    JsonValue::String(s.to_string())
}

#[test]
fn sample_document_loads_nine_settings() {
    let mut manager = ConfigManager::new();
    load_sample_config(&mut manager).unwrap();
    assert_eq!(manager.keys().len(), 9);
    assert_eq!(manager.get("app.name").unwrap(), &text("MyApp"));
    assert_eq!(manager.get("server.port").unwrap(), &JsonValue::Number(JsonNumber::PosInt(8080)));
    assert_eq!(manager.get("database.timeout").unwrap(), &JsonValue::Number(JsonNumber::PosInt(30000)));
    assert!(SAMPLE_CONFIG.contains("\"description\": \"A sample application\""));
}

#[test]
fn sample_settings_are_added() {
    let mut manager = ConfigManager::new();
    load_sample_config(&mut manager).unwrap();
    set_sample_config(&mut manager).unwrap();
    assert_eq!(manager.keys().len(), 12);
    assert_eq!(manager.get("app.environment").unwrap(), &text("production"));
    assert_eq!(manager.get("app.api_key").unwrap(), &text("secret_key_12345"));
    assert_eq!(manager.get("logging.level").unwrap(), &text("info"));
    assert_eq!(manager.get("app.name").unwrap(), &text("MyApp"));
}

#[test]
fn sample_rules_are_set_and_hold() {
    let mut manager = ConfigManager::new();
    load_sample_config(&mut manager).unwrap();
    set_sample_config(&mut manager).unwrap();
    add_validation_rules(&mut manager).unwrap();
    assert_eq!(manager.keys().len(), 12);
    assert_eq!(manager.get("server.port").unwrap(), &JsonValue::Number(JsonNumber::PosInt(8080)));
    assert!(manager.validate_all().is_ok());

    let mut fresh = ConfigManager::new();
    add_validation_rules(&mut fresh).unwrap();
    let mut keys = fresh.keys();
    keys.sort();
    assert_eq!(keys, vec!["app.api_key".to_string(), "database.url".to_string(), "server.port".to_string()]);
    assert_eq!(
        DataType::from_json_value(fresh.get("server.port").unwrap()),
        DataType::Integer
    );
    assert!(ValidationRule::Pattern(r"^[a-z]+://.*$".to_string())
        .apply(fresh.get("database.url").unwrap())
        .is_ok());
}
