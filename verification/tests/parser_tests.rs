use config_manager::json::{DataType, JsonNumber, JsonValue};
use config_manager::parsers::{
    accepts_document, candidate_formats, load_config_file, load_document, load_from_custom, load_from_json,
    load_from_toml, load_from_yaml, parse_document, parse_json_object, parse_toml_object, parse_yaml_object,
    toml_to_json, ConfigDocument, ConfigFormat, TomlValue, YamlValue,
};
use config_manager::table::ConfigTable;
use config_manager::value::ConfigValue;
use config_manager::table::{ConfigError, ConfigManager};

fn text(s: &str) -> JsonValue {
    JsonValue::String(s.to_string())
}

fn num(i: i64) -> JsonValue {
    JsonValue::Number(JsonNumber::from_i64(i))
}

fn obj(members: Vec<(&str, JsonValue)>) -> JsonValue {
    JsonValue::Object(members.into_iter().map(|(k, v)| (k.to_string(), v)).collect())
}

#[test]
fn json_nested_objects_become_dotted_keys() {
    let doc = obj(vec![
        ("app", obj(vec![("name", text("TestApp")), ("port", num(8080))])),
        ("debug", JsonValue::Bool(false)),
    ]);
    let t = load_from_json(doc);
    assert_eq!(t.len(), 3);
    assert_eq!(t.get("app.name").unwrap().value, text("TestApp"));
    assert_eq!(t.get("app.port").unwrap().data_type, DataType::Integer);
    assert_eq!(t.get("debug").unwrap().data_type, DataType::Boolean);
    assert!(!t.contains_key("app"));
}

#[test]
fn json_arrays_typed_by_first_item_and_empty_arrays_skipped() {
    let doc = obj(vec![
        ("hosts", JsonValue::Array(vec![text("a"), text("b")])),
        ("empty", JsonValue::Array(vec![])),
        ("nothing", JsonValue::Null),
    ]);
    let t = load_from_json(doc);
    assert_eq!(t.len(), 2);
    let hosts = t.get("hosts").unwrap();
    assert_eq!(hosts.data_type, DataType::String);
    assert_eq!(hosts.value, JsonValue::Array(vec![text("a"), text("b")]));
    assert!(!t.contains_key("empty"));
    assert_eq!(t.get("nothing").unwrap().data_type, DataType::String);
    assert!(!t.get("nothing").unwrap().required);
}

#[test]
fn json_non_object_document_has_no_entries() {
    assert_eq!(load_from_json(num(3)).len(), 0);
}

#[test]
fn json_later_member_replaces_earlier_key() {
    let doc = obj(vec![("a", obj(vec![("b", num(2))])), ("a.b", num(1))]);
    let t = load_from_json(doc);
    assert_eq!(t.len(), 1);
    assert_eq!(t.get("a.b").unwrap().value, num(1));
}

#[test]
fn yaml_mappings_flatten_and_other_nodes_become_entries() {
    let doc = YamlValue::Mapping(vec![
        (
            Some("app".to_string()),
            YamlValue::Mapping(vec![
                (Some("name".to_string()), YamlValue::Value(text("TestApp"))),
                (Some("port".to_string()), YamlValue::Value(num(8080))),
            ]),
        ),
        (Some("list".to_string()), YamlValue::Value(JsonValue::Array(vec![]))),
        (None, YamlValue::Value(JsonValue::Bool(true))),
    ]);
    let t = load_from_yaml(doc).unwrap();
    assert_eq!(t.len(), 4);
    assert_eq!(t.get("app.port").unwrap().value, num(8080));
    assert_eq!(t.get("list").unwrap().data_type, DataType::Object);
    assert_eq!(t.get("").unwrap().data_type, DataType::Boolean);
}

#[test]
fn yaml_unconvertible_node_is_an_error() {
    let doc = YamlValue::Mapping(vec![
        (Some("a".to_string()), YamlValue::Value(num(1))),
        (Some("b".to_string()), YamlValue::Unconvertible("bad node".to_string())),
        (Some("c".to_string()), YamlValue::Unconvertible("later".to_string())),
    ]);
    assert_eq!(load_from_yaml(doc).err(), Some(ConfigError::Parse("bad node".to_string())));
}

#[test]
fn toml_tables_flatten_with_toml_types() {
    let doc = TomlValue::Table(vec![
        (
            "app".to_string(),
            TomlValue::Table(vec![
                ("name".to_string(), TomlValue::String("TestApp".to_string())),
                ("port".to_string(), TomlValue::Integer(8080)),
            ]),
        ),
        ("ratio".to_string(), TomlValue::Float(0.5f64.to_bits())),
        ("ports".to_string(), TomlValue::Array(vec![TomlValue::Integer(1), TomlValue::Integer(2)])),
        ("none".to_string(), TomlValue::Array(vec![])),
        ("when".to_string(), TomlValue::Datetime("1979-05-27T07:32:00Z".to_string())),
    ]);
    let t = load_from_toml(doc);
    assert_eq!(t.len(), 5);
    assert_eq!(t.get("app.name").unwrap().value, text("TestApp"));
    assert_eq!(t.get("app.port").unwrap().data_type, DataType::Integer);
    assert_eq!(t.get("ratio").unwrap().data_type, DataType::Float);
    assert_eq!(t.get("ports").unwrap().data_type, DataType::Array(Box::new(DataType::Integer)));
    assert_eq!(t.get("ports").unwrap().value, JsonValue::Array(vec![num(1), num(2)]));
    assert_eq!(t.get("when").unwrap().value, text("1979-05-27T07:32:00Z"));
    assert_eq!(t.get("when").unwrap().data_type, DataType::String);
    assert!(!t.contains_key("none"));
}

#[test]
fn toml_values_convert_to_json() {
    assert_eq!(toml_to_json(TomlValue::Integer(-4)), JsonValue::Number(JsonNumber::NegInt(-4)));
    assert_eq!(toml_to_json(TomlValue::Float(f64::NAN.to_bits())), JsonValue::Null);
    assert_eq!(toml_to_json(TomlValue::Float(f64::INFINITY.to_bits())), JsonValue::Null);
    assert_eq!(
        toml_to_json(TomlValue::Float(1.25f64.to_bits())),
        JsonValue::Number(JsonNumber::Float(1.25f64.to_bits()))
    );
    assert_eq!(
        toml_to_json(TomlValue::Table(vec![("k".to_string(), TomlValue::Boolean(true))])),
        obj(vec![("k", JsonValue::Bool(true))])
    );
}

#[test]
fn custom_format_is_not_supported() {
    assert_eq!(
        load_from_custom().err(),
        Some(ConfigError::InvalidFormat("Custom format not implemented".to_string()))
    );
}

#[test]
fn formats_from_extensions() {
    assert_eq!(ConfigFormat::from_file_extension("config.json"), Some(ConfigFormat::Json));
    assert_eq!(ConfigFormat::from_file_extension("/etc/app/config.yaml"), Some(ConfigFormat::Yaml));
    assert_eq!(ConfigFormat::from_file_extension("config.yml"), Some(ConfigFormat::Yaml));
    assert_eq!(ConfigFormat::from_file_extension("config.toml"), Some(ConfigFormat::Toml));
    assert_eq!(ConfigFormat::from_file_extension("config.ini"), None);
    assert_eq!(ConfigFormat::from_file_extension("config"), None);
    assert_eq!(ConfigFormat::from_file_extension(".json"), None);
    assert_eq!(ConfigFormat::from_extension("yml"), Some(ConfigFormat::Yaml));
    assert_eq!(ConfigFormat::from_extension("JSON"), None);
}

#[test]
fn formats_to_try_for_a_path() {
    assert_eq!(candidate_formats("a.toml"), vec![ConfigFormat::Toml]);
    assert_eq!(
        candidate_formats("tmpfile"),
        vec![ConfigFormat::Json, ConfigFormat::Yaml, ConfigFormat::Toml]
    );
}

#[test]
fn documents_load_into_the_manager() {
    let mut manager = ConfigManager::new();
    let doc = ConfigDocument::Json(obj(vec![("app", obj(vec![("name", text("TestApp"))]))]));
    assert!(doc.is_table());
    manager.load_document(doc).unwrap();
    assert_eq!(manager.get("app.name").unwrap(), &text("TestApp"));

    let bad = ConfigDocument::Yaml(YamlValue::Mapping(vec![(
        Some("x".to_string()),
        YamlValue::Unconvertible("no".to_string()),
    )]));
    assert!(manager.load_document(bad).is_err());
    assert_eq!(manager.keys(), vec!["app.name".to_string()]);

    assert!(!ConfigDocument::Yaml(YamlValue::Value(text("scalar"))).is_table());
    let t = load_document(ConfigDocument::Toml(TomlValue::Table(vec![]))).unwrap();
    assert_eq!(t.len(), 0);
}

#[test]
fn guessed_formats_only_accept_tables() {
    let scalar = ConfigDocument::Yaml(YamlValue::Value(text("not a configuration")));
    assert!(!accepts_document(&scalar, true));
    assert!(accepts_document(&scalar, false));
    let table = ConfigDocument::Toml(TomlValue::Table(vec![]));
    assert!(accepts_document(&table, true));
}

#[test]
fn json_text_loads_into_entries() {
    let t = load_config_file(r#"{"app": {"name": "TestApp", "port": 8080}, "debug": false}"#, ConfigFormat::Json).unwrap();
    assert_eq!(t.len(), 3);
    assert_eq!(t.get("app.name").unwrap().value, text("TestApp"));
    assert_eq!(t.get("app.port").unwrap().value, num(8080));
    assert_eq!(t.get("app.port").unwrap().data_type, DataType::Integer);
    assert_eq!(t.get("debug").unwrap().value, JsonValue::Bool(false));
}

#[test]
fn yaml_text_loads_into_entries() {
    let t = load_config_file("app:\n  name: TestApp\n  port: 8080\nhosts:\n  - a\n  - b\n", ConfigFormat::Yaml).unwrap();
    assert_eq!(t.len(), 3);
    assert_eq!(t.get("app.name").unwrap().value, text("TestApp"));
    assert_eq!(t.get("app.port").unwrap().value, num(8080));
    assert_eq!(t.get("hosts").unwrap().value, JsonValue::Array(vec![text("a"), text("b")]));
}

#[test]
fn toml_text_loads_into_entries() {
    let t = load_config_file("title = \"x\"\n[server]\nport = 8080\nssl = true\n", ConfigFormat::Toml).unwrap();
    assert_eq!(t.len(), 3);
    assert_eq!(t.get("title").unwrap().value, text("x"));
    assert_eq!(t.get("server.port").unwrap().value, num(8080));
    assert_eq!(t.get("server.port").unwrap().data_type, DataType::Integer);
    assert_eq!(t.get("server.ssl").unwrap().value, JsonValue::Bool(true));
}

#[test]
fn unreadable_text_is_a_parse_error() {
    assert!(matches!(load_config_file("{ not json", ConfigFormat::Json), Err(ConfigError::Parse(_))));
    assert!(matches!(load_config_file("a = = 1", ConfigFormat::Toml), Err(ConfigError::Parse(_))));
    assert!(matches!(load_config_file("a: [1, 2", ConfigFormat::Yaml), Err(ConfigError::Parse(_))));
    assert_eq!(
        load_config_file("{}", ConfigFormat::Custom).err(),
        Some(ConfigError::InvalidFormat("Custom format not implemented".to_string()))
    );
    assert_eq!(parse_document("{}", ConfigFormat::Custom).err(), Some("Custom format not implemented".to_string()));
}

#[test]
fn parsed_documents_have_the_format_read() {
    match parse_document(r#"{"a": 1}"#, ConfigFormat::Json) {
        Ok(ConfigDocument::Json(v)) => assert_eq!(v, obj(vec![("a", num(1))])),
        _ => panic!("expected a JSON document"),
    }
    assert!(matches!(parse_document("a = 1", ConfigFormat::Toml), Ok(ConfigDocument::Toml(_))));
}

#[test]
fn file_content_is_read_in_the_format_of_its_extension() {
    let mut manager = ConfigManager::new();
    manager.load_file_content("settings.yaml", "app:\n  name: FromYaml\n").unwrap();
    assert_eq!(manager.get("app.name").unwrap(), &text("FromYaml"));
    assert!(matches!(manager.load_file_content("settings.json", "app:\n  name: x\n"), Err(ConfigError::Parse(_))));
    assert_eq!(manager.get("app.name").unwrap(), &text("FromYaml"));
}

#[test]
fn file_content_without_extension_is_guessed() {
    let mut manager = ConfigManager::new();
    manager.load_file_content("tmpfile", r#"{"test": {"key": "value"}}"#).unwrap();
    assert_eq!(manager.get("test.key").unwrap(), &text("value"));
    manager.load_file_content("tmpfile2", "[section]\nanswer = 42\n").unwrap();
    assert_eq!(manager.get("section.answer").unwrap(), &num(42));
    let before = manager.keys().len();
    assert!(manager.load_file_content("tmpfile3", "invalid content that is not valid JSON, YAML, or TOML").is_err());
    assert_eq!(manager.keys().len(), before);
}

#[test]
fn objects_flatten_under_a_prefix() {
    let mut configs = ConfigTable::new();
    configs.insert("keep".to_string(), ConfigValue::new(num(1), DataType::Integer, false));
    parse_json_object(obj(vec![("a", obj(vec![("b", num(2))]))]), "root", &mut configs).unwrap();
    assert_eq!(configs.get("root.a.b").unwrap().value, num(2));
    assert_eq!(configs.get("keep").unwrap().value, num(1));

    parse_toml_object(
        TomlValue::Table(vec![("port".to_string(), TomlValue::Integer(80))]),
        "server",
        &mut configs,
    )
    .unwrap();
    assert_eq!(configs.get("server.port").unwrap().value, num(80));

    parse_yaml_object(
        YamlValue::Mapping(vec![(Some("name".to_string()), YamlValue::Value(text("n")))]),
        "app",
        &mut configs,
    )
    .unwrap();
    assert_eq!(configs.get("app.name").unwrap().value, text("n"));
    assert_eq!(configs.len(), 4);
}

#[test]
fn yaml_error_keeps_the_entries_merged_before_it() {
    let mut configs = ConfigTable::new();
    configs.insert("old".to_string(), ConfigValue::new(num(0), DataType::Integer, false));
    let doc = YamlValue::Mapping(vec![
        (Some("a".to_string()), YamlValue::Value(num(1))),
        (
            Some("n".to_string()),
            YamlValue::Mapping(vec![
                (Some("x".to_string()), YamlValue::Value(text("in"))),
                (Some("y".to_string()), YamlValue::Unconvertible("bad node".to_string())),
                (Some("z".to_string()), YamlValue::Value(text("after"))),
            ]),
        ),
        (Some("c".to_string()), YamlValue::Value(num(3))),
    ]);
    assert_eq!(
        parse_yaml_object(doc, "p", &mut configs),
        Err(ConfigError::Parse("bad node".to_string()))
    );
    assert_eq!(configs.len(), 3);
    assert_eq!(configs.get("old").unwrap().value, num(0));
    assert_eq!(configs.get("p.a").unwrap().value, num(1));
    assert_eq!(configs.get("p.n.x").unwrap().value, text("in"));
    assert!(!configs.contains_key("p.n.z"));
    assert!(!configs.contains_key("p.c"));
}
