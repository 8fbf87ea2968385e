use procenv::builder::ConfigBuilder;
use procenv::coerce::coerce_value;
use procenv::env::{env_to_value, insert_nested};
use procenv::format::{parse_str, FileFormat};
use procenv::merge::deep_merge;
use procenv::value::ConfigValue;

fn obj(entries: Vec<(&str, ConfigValue)>) -> ConfigValue {
    ConfigValue::Object(entries.into_iter().map(|(k, v)| (k.to_string(), v)).collect())
}

fn num(i: i64) -> ConfigValue {
    ConfigValue::Int(i)
}

fn text(s: &str) -> ConfigValue {
    ConfigValue::Str(s.to_string())
}

fn vars(pairs: &[(&str, &str)]) -> Vec<(String, String)> {
    pairs.iter().map(|(k, v)| (k.to_string(), v.to_string())).collect()
}

#[test]
fn test_coerce_value_bool() {
    assert_eq!(coerce_value("true"), ConfigValue::Bool(true));
    assert_eq!(coerce_value("TRUE"), ConfigValue::Bool(true));
    assert_eq!(coerce_value("false"), ConfigValue::Bool(false));
    assert_eq!(coerce_value("FALSE"), ConfigValue::Bool(false));
}

#[test]
fn test_coerce_value_integer() {
    assert_eq!(coerce_value("42"), num(42));
    assert_eq!(coerce_value("-100"), num(-100));
    assert_eq!(coerce_value("0"), num(0));
}

#[test]
fn test_coerce_value_float() {
    let val = coerce_value("3.14");
    if let ConfigValue::Float(t) = val {
        let n: f64 = t.parse().unwrap();
        assert!((n - 3.14).abs() < 0.001);
    } else {
        panic!("Expected number");
    }
}

#[test]
fn test_coerce_value_string() {
    assert_eq!(coerce_value("hello"), text("hello"));
    assert_eq!(coerce_value("hello world"), text("hello world"));
}

#[test]
fn test_deep_merge_objects() {
    let mut base = obj(vec![("a", num(1)), ("b", obj(vec![("x", num(10)), ("y", num(20))]))]);
    let overlay = obj(vec![("b", obj(vec![("y", num(200)), ("z", num(30))])), ("c", num(3))]);

    deep_merge(&mut base, overlay);

    assert_eq!(base.get_path("a"), Some(&num(1)));
    assert_eq!(base.get_path("b.x"), Some(&num(10)));
    assert_eq!(base.get_path("b.y"), Some(&num(200)));
    assert_eq!(base.get_path("b.z"), Some(&num(30)));
    assert_eq!(base.get_path("c"), Some(&num(3)));
}

#[test]
fn test_deep_merge_replace() {
    let mut base = obj(vec![("a", ConfigValue::List(vec![num(1), num(2), num(3)]))]);
    let overlay = obj(vec![("a", ConfigValue::List(vec![num(4), num(5)]))]);

    deep_merge(&mut base, overlay);

    assert_eq!(base.get_path("a"), Some(&ConfigValue::List(vec![num(4), num(5)])));
}

#[test]
fn test_insert_nested() {
    let mut map = Vec::new();
    insert_nested(&mut map, &["database", "host"], text("localhost"));

    let value = ConfigValue::Object(map);
    assert_eq!(value.get_path("database.host"), Some(&text("localhost")));
}

#[test]
fn test_env_to_value() {
    let env = vars(&[
        ("TEST_FILE_DATABASE_HOST", "testhost"),
        ("TEST_FILE_DATABASE_PORT", "5432"),
        ("TEST_FILE_DEBUG", "true"),
    ]);

    let value = env_to_value("TEST_FILE_", "_", &env);

    assert_eq!(value.get_path("database.host"), Some(&text("testhost")));
    assert_eq!(value.get_path("database.port"), Some(&num(5432)));
    assert_eq!(value.get_path("debug"), Some(&ConfigValue::Bool(true)));
}

#[test]
fn test_parse_json_string() {
    let content = r#"{"name": "test", "port": 8080}"#;
    let value = parse_str(content, FileFormat::Json).ok().unwrap();

    assert_eq!(value.get_path("name"), Some(&text("test")));
    assert_eq!(value.get_path("port"), Some(&num(8080)));
}

#[test]
fn test_parse_toml_string() {
    let content = r#"
            name = "test"
            port = 8080

            [database]
            host = "localhost"
        "#;
    let value = parse_str(content, FileFormat::Toml).ok().unwrap();

    assert_eq!(value.get_path("name"), Some(&text("test")));
    assert_eq!(value.get_path("port"), Some(&num(8080)));
    assert_eq!(value.get_path("database.host"), Some(&text("localhost")));
}

#[test]
fn test_parse_yaml_string() {
    let content = r#"
name: test
port: 8080
database:
  host: localhost
"#;
    let value = parse_str(content, FileFormat::Yaml).ok().unwrap();

    assert_eq!(value.get_path("name"), Some(&text("test")));
    assert_eq!(value.get_path("port"), Some(&num(8080)));
    assert_eq!(value.get_path("database.host"), Some(&text("localhost")));
}

#[test]
fn test_config_builder_env_override() {
    let env = vars(&[("CFGTEST_PORT", "9000")]);
    let defaults = obj(vec![("name", text("default")), ("port", num(8080))]);

    let (value, _origins) = ConfigBuilder::new()
        .defaults_value(defaults)
        .env_prefix("CFGTEST_")
        .merge(&Vec::new(), &env)
        .ok()
        .unwrap();

    assert_eq!(value.get_path("name"), Some(&text("default")));
    assert_eq!(value.get_path("port"), Some(&num(9000)));
}
