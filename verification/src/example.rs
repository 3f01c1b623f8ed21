//! The sample configuration that the example program works with: a JSON
//! document to load, a few settings to add, and settings with rules.
use vstd::prelude::*;

use crate::json::{DataType, JsonNumber, JsonValue};
use crate::parsers::{json_leaves, json_text_document, load_config_file, ConfigFormat};
use crate::rules::ValidationRule;
use crate::table::{ConfigError, ConfigManager};
use crate::value::{ConfigValue, ConfigValueView};

verus! {

/// The sample configuration document.
pub const SAMPLE_CONFIG: &'static str = r#"
{
    "app": {
        "name": "MyApp",
        "version": "1.0.0",
        "description": "A sample application"
    },
    "server": {
        "port": 8080,
        "host": "localhost",
        "ssl": true
    },
    "database": {
        "url": "postgresql://localhost:5432/mydb",
        "max_connections": 10,
        "timeout": 30000
    }
}
"#;

/// Loads the entries of the sample document into the manager: see
/// `json_leaves`. Where the document cannot be read, the manager is left as
/// it was and the reader's error is returned.
pub fn load_sample_config(manager: &mut ConfigManager) -> (r: Result<(), ConfigError>)
    ensures
        match json_text_document(SAMPLE_CONFIG@) {
            Ok(v) => r is Ok && final(manager)@ == old(manager)@.union_prefer_right(
                json_leaves(v, Seq::empty(), Map::empty())),
            Err(m) => final(manager)@ == old(manager)@ && (r matches Err(ConfigError::Parse(x)) && x@ == m),
        },
{
    let configs = match load_config_file(SAMPLE_CONFIG, ConfigFormat::Json) {
        Ok(t) => t,
        Err(e) => return Err(e),
    };
    manager.update_configurations(configs)
}

/// Whether `cv` has the type `data_type`, is required as `required` says,
/// and has no description, default, override or dependency.
pub open spec fn plain_setting(cv: ConfigValueView, data_type: DataType, required: bool) -> bool {
    &&& cv.data_type == data_type
    &&& cv.required == required
    &&& cv.description == Seq::<char>::empty()
    &&& cv.default_value is None
    &&& cv.env_override is None
    &&& cv.depends_on is None
}

/// Whether the value of `cv` is the JSON string `text`.
pub open spec fn holds_text(cv: ConfigValueView, text: Seq<char>) -> bool {
    cv.value matches JsonValue::String(s) && s@ == text
}

/// Whether `cv` is a string setting with value `text` and no rules.
pub open spec fn text_setting(cv: ConfigValueView, text: Seq<char>, required: bool) -> bool {
    &&& plain_setting(cv, DataType::String, required)
    &&& holds_text(cv, text)
    &&& cv.validation_rules == Seq::<ValidationRule>::empty()
}

/// Adds the sample settings: the environment `production`, the required
/// API key `secret_key_12345` and the log level `info`, all strings.
pub fn set_sample_config(manager: &mut ConfigManager) -> (r: Result<(), ConfigError>)
    ensures
        r is Ok,
        final(manager)@ == old(manager)@.insert("app.environment"@, final(manager)@["app.environment"@])
            .insert("app.api_key"@, final(manager)@["app.api_key"@])
            .insert("logging.level"@, final(manager)@["logging.level"@]),
        text_setting(final(manager)@["app.environment"@], "production"@, false),
        text_setting(final(manager)@["app.api_key"@], "secret_key_12345"@, true),
        text_setting(final(manager)@["logging.level"@], "info"@, false),
{
    proof {
        reveal_strlit("app.environment");
        reveal_strlit("app.api_key");
        reveal_strlit("logging.level");
        assert("app.environment"@.len() != "app.api_key"@.len());
        assert("app.environment"@.len() != "logging.level"@.len());
        assert("app.api_key"@.len() != "logging.level"@.len());
    }
    let env_config = ConfigValue::new(JsonValue::String("production".to_string()), DataType::String, false);
    manager.set("app.environment".to_string(), env_config)?;

    let api_key_config = ConfigValue::new(JsonValue::String("secret_key_12345".to_string()), DataType::String, true);
    manager.set("app.api_key".to_string(), api_key_config)?;

    let log_level_config = ConfigValue::new(JsonValue::String("info".to_string()), DataType::String, false);
    manager.set("logging.level".to_string(), log_level_config)?;
    Ok(())
}

/// Sets three settings with rules: the required port 8080, between 1 and
/// 65535; the required database URL, which must look like a URL; and the
/// required API key, at least 10 bytes long.
pub fn add_validation_rules(manager: &mut ConfigManager) -> (r: Result<(), ConfigError>)
    ensures
        r is Ok,
        final(manager)@ == old(manager)@.insert("server.port"@, final(manager)@["server.port"@])
            .insert("database.url"@, final(manager)@["database.url"@])
            .insert("app.api_key"@, final(manager)@["app.api_key"@]),
        ({
            let port = final(manager)@["server.port"@];
            &&& plain_setting(port, DataType::Integer, true)
            &&& port.value == JsonValue::Number(JsonNumber::PosInt(8080))
            &&& port.validation_rules == seq![ValidationRule::MinValue(1), ValidationRule::MaxValue(65535)]
        }),
        ({
            let url = final(manager)@["database.url"@];
            &&& plain_setting(url, DataType::String, true)
            &&& holds_text(url, "postgresql://localhost:5432/mydb"@)
            &&& url.validation_rules.len() == 1
            &&& url.validation_rules[0] matches ValidationRule::Pattern(p) && p@ == "^[a-z]+://.*$"@
        }),
        ({
            let key = final(manager)@["app.api_key"@];
            &&& plain_setting(key, DataType::String, true)
            &&& holds_text(key, "secret_key_12345"@)
            &&& key.validation_rules == seq![ValidationRule::MinLength(10)]
        }),
{
    proof {
        reveal_strlit("server.port");
        reveal_strlit("database.url");
        reveal_strlit("app.api_key");
        assert("server.port"@[0] != "app.api_key"@[0]);
        assert("server.port"@.len() != "database.url"@.len());
        assert("database.url"@.len() != "app.api_key"@.len());
    }
    let mut port_config = ConfigValue::new(JsonValue::Number(JsonNumber::from_i64(8080)), DataType::Integer, true);
    port_config.validation_rules.push(ValidationRule::MinValue(1));
    port_config.validation_rules.push(ValidationRule::MaxValue(65535));
    manager.set("server.port".to_string(), port_config)?;

    let mut url_config = ConfigValue::new(
        JsonValue::String("postgresql://localhost:5432/mydb".to_string()),
        DataType::String,
        true,
    );
    url_config.validation_rules.push(ValidationRule::Pattern("^[a-z]+://.*$".to_string()));
    manager.set("database.url".to_string(), url_config)?;

    let mut api_key_config = ConfigValue::new(JsonValue::String("secret_key_12345".to_string()), DataType::String, true);
    api_key_config.validation_rules.push(ValidationRule::MinLength(10));
    manager.set("app.api_key".to_string(), api_key_config)?;
    Ok(())
}

} // verus!
