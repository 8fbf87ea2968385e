use procenv::resolve::{resolve, FieldSchema, Resolution, ResolveOptions};
use procenv::sources::Source;
use procenv::value::ConfigValue;

fn field(name: &str, var: &str, default: Option<&str>) -> FieldSchema {
    FieldSchema {
        name: name.to_string(),
        var: Some(var.to_string()),
        default: default.map(|d| d.to_string()),
        optional: false,
        secret: false,
        nested: None,
        flatten_prefix: None,
        profile_overrides: Vec::new(),
    }
}

fn vars(pairs: &[(&str, &str)]) -> Vec<(String, String)> {
    pairs.iter().map(|(k, v)| (k.to_string(), v.to_string())).collect()
}

fn run(schema: &Vec<FieldSchema>, options: &ResolveOptions, env: &[(&str, &str)]) -> Resolution {
    match resolve(schema, options, &Vec::new(), &vars(env), &Vec::new()) {
        Ok(r) => r,
        Err(e) => panic!("resolution failed: {}", e.render()),
    }
}

fn plain_options() -> ResolveOptions {
    ResolveOptions {
        prefix: None,
        separator: "_".to_string(),
        profile_var: None,
        profiles: Vec::new(),
        files: Vec::new(),
    }
}

fn basic_schema() -> Vec<FieldSchema> {
    let mut debug = field("debug", "BASIC_DEBUG", None);
    debug.optional = true;
    vec![field("db_url", "BASIC_DB_URL", None), field("port", "BASIC_PORT", Some("8080")), debug]
}

fn source_of(r: &Resolution, name: &str) -> Source {
    r.sources.get(name).expect("source missing").source.clone()
}

#[test]
fn test_environment_source_attribution() {
    let r = run(
        &basic_schema(),
        &plain_options(),
        &[("BASIC_DB_URL", "postgres://localhost/test"), ("BASIC_PORT", "9000")],
    );
    assert_eq!(r.value.get_path("db_url"), Some(&ConfigValue::Str("postgres://localhost/test".to_string())));
    assert_eq!(r.value.get_path("port"), Some(&ConfigValue::Int(9000)));
    assert_eq!(r.value.get_path("debug"), None);
    assert_eq!(source_of(&r, "db_url"), Source::Environment);
    assert_eq!(source_of(&r, "port"), Source::Environment);
    assert_eq!(source_of(&r, "debug"), Source::NotSet);
}

#[test]
fn test_default_source_attribution() {
    let r = run(&basic_schema(), &plain_options(), &[("BASIC_DB_URL", "postgres://localhost/test")]);
    assert_eq!(source_of(&r, "port"), Source::Default);
    assert_eq!(r.value.get_path("port"), Some(&ConfigValue::Int(8080)));
}

fn profile_schema() -> Vec<FieldSchema> {
    let mut db_url = field("db_url", "PROFILE_DB_URL", None);
    db_url.profile_overrides = vec![
        ("dev".to_string(), "postgres://localhost/dev".to_string()),
        ("prod".to_string(), "postgres://prod-server/db".to_string()),
    ];
    vec![db_url, field("port", "PROFILE_PORT", Some("8080"))]
}

fn profile_options() -> ResolveOptions {
    let mut o = plain_options();
    o.profile_var = Some("PROFILE_APP_ENV".to_string());
    o.profiles = vec!["dev".to_string(), "prod".to_string()];
    o
}

#[test]
fn test_profile_source_attribution_dev() {
    let r = run(&profile_schema(), &profile_options(), &[("PROFILE_APP_ENV", "dev")]);
    assert_eq!(r.value.get_path("db_url"), Some(&ConfigValue::Str("postgres://localhost/dev".to_string())));
    assert_eq!(source_of(&r, "db_url"), Source::Profile("dev".to_string()));
    assert_eq!(source_of(&r, "port"), Source::Default);
}

#[test]
fn test_profile_source_attribution_prod() {
    let r = run(&profile_schema(), &profile_options(), &[("PROFILE_APP_ENV", "prod")]);
    assert_eq!(r.value.get_path("db_url"), Some(&ConfigValue::Str("postgres://prod-server/db".to_string())));
    assert_eq!(source_of(&r, "db_url"), Source::Profile("prod".to_string()));
}

#[test]
fn test_env_overrides_profile() {
    let r = run(
        &profile_schema(),
        &profile_options(),
        &[("PROFILE_APP_ENV", "dev"), ("PROFILE_DB_URL", "postgres://custom/override")],
    );
    assert_eq!(r.value.get_path("db_url"), Some(&ConfigValue::Str("postgres://custom/override".to_string())));
    assert_eq!(source_of(&r, "db_url"), Source::Environment);
}

fn flatten_schema() -> Vec<FieldSchema> {
    let mut database = field("database", "", None);
    database.var = None;
    database.flatten_prefix = Some("FLAT_DB_".to_string());
    database.nested = Some(vec![field("host", "HOST", None), field("port", "PORT", Some("5432"))]);
    vec![field("name", "FLAT_APP_NAME", None), database]
}

#[test]
fn test_flatten_env_source_attribution() {
    let r = run(
        &flatten_schema(),
        &plain_options(),
        &[("FLAT_APP_NAME", "my-app"), ("FLAT_DB_HOST", "localhost"), ("FLAT_DB_PORT", "5433")],
    );
    assert_eq!(r.value.get_path("name"), Some(&ConfigValue::Str("my-app".to_string())));
    assert_eq!(r.value.get_path("database.host"), Some(&ConfigValue::Str("localhost".to_string())));
    assert_eq!(r.value.get_path("database.port"), Some(&ConfigValue::Int(5433)));
    assert_eq!(source_of(&r, "database.host"), Source::Environment);
    assert_eq!(source_of(&r, "database.port"), Source::Environment);
}

#[test]
fn test_flatten_default_source_attribution() {
    let r = run(&flatten_schema(), &plain_options(), &[("FLAT_APP_NAME", "my-app"), ("FLAT_DB_HOST", "localhost")]);
    assert_eq!(r.value.get_path("database.port"), Some(&ConfigValue::Int(5432)));
    assert_eq!(source_of(&r, "database.port"), Source::Default);
    assert_eq!(r.sources.get("database.port").unwrap().var_name, "FLAT_DB_PORT");
}

#[test]
fn test_flatten_all_fields_tracked() {
    let r = run(&flatten_schema(), &plain_options(), &[("FLAT_APP_NAME", "my-app"), ("FLAT_DB_HOST", "localhost")]);
    assert_eq!(r.sources.entries().len(), 3);
    assert!(r.sources.get("name").is_some());
    assert!(r.sources.get("database.host").is_some());
    assert!(r.sources.get("database.port").is_some());
}
