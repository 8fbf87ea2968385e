use procenv::error::Error;
use procenv::format::FileFormat;
use procenv::sources::{ConfigSources, Source, ValueSource};

#[test]
fn test_source_display() {
    assert_eq!(Source::Environment.render(), "Environment variable");
    assert_eq!(Source::Default.render(), "Default value");
    assert_eq!(Source::NotSet.render(), "Not set");
    assert_eq!(Source::DotenvFile(None).render(), ".env file");
    assert_eq!(
        Source::DotenvFile(Some(".env.local".to_string())).render(),
        ".env file (.env.local)"
    );
}

#[test]
fn test_source_equality() {
    assert_eq!(Source::Environment, Source::Environment);
    assert_eq!(Source::Default, Source::Default);
    assert_ne!(Source::Environment, Source::Default);
    assert_eq!(Source::DotenvFile(None), Source::DotenvFile(None));
}

#[test]
fn test_value_source_new() {
    let vs = ValueSource::new("DATABASE_URL", Source::Environment);
    assert_eq!(vs.var_name, "DATABASE_URL");
    assert_eq!(vs.source, Source::Environment);
}

#[test]
fn test_value_source_display() {
    let vs = ValueSource::new("PORT", Source::Default);
    assert_eq!(vs.render(), "PORT: Default value");
}

#[test]
fn test_config_sources_new() {
    let sources = ConfigSources::new();
    assert!(sources.entries().is_empty());
}

#[test]
fn test_config_sources_add_and_get() {
    let mut sources = ConfigSources::new();
    sources.add("db_url", ValueSource::new("DATABASE_URL", Source::Environment));
    sources.add("port", ValueSource::new("PORT", Source::Default));

    assert_eq!(sources.entries().len(), 2);

    let db_source = sources.get("db_url").unwrap();
    assert_eq!(db_source.var_name, "DATABASE_URL");
    assert_eq!(db_source.source, Source::Environment);

    let port_source = sources.get("port").unwrap();
    assert_eq!(port_source.var_name, "PORT");
    assert_eq!(port_source.source, Source::Default);

    assert!(sources.get("nonexistent").is_none());
}

#[test]
fn test_config_sources_iter() {
    let mut sources = ConfigSources::new();
    sources.add("field1", ValueSource::new("VAR1", Source::Environment));
    sources.add("field2", ValueSource::new("VAR2", Source::Default));

    let entries: Vec<_> = sources.iter().collect();
    assert_eq!(entries.len(), 2);
    assert_eq!(entries[0].0, "field1");
    assert_eq!(entries[1].0, "field2");
}

#[test]
fn test_config_sources_extend_nested() {
    let mut parent = ConfigSources::new();
    parent.add("name", ValueSource::new("APP_NAME", Source::Environment));

    let mut nested = ConfigSources::new();
    nested.add("host", ValueSource::new("DB_HOST", Source::DotenvFile(None)));
    nested.add("port", ValueSource::new("DB_PORT", Source::Default));

    parent.extend_nested("database", nested);

    assert_eq!(parent.entries().len(), 3);
}

#[test]
fn test_config_sources_display() {
    let mut sources = ConfigSources::new();
    sources.add("database_url", ValueSource::new("DATABASE_URL", Source::Environment));
    sources.add("port", ValueSource::new("PORT", Source::Default));

    let display = sources.render();
    assert!(display.contains("Configuration Source"));
    assert!(display.contains("database_url"));
    assert!(display.contains("Environment variable"));
    assert!(display.contains("[DATABASE_URL]"));
    assert!(display.contains("port"));
    assert!(display.contains("Default value"));
}

#[test]
fn test_error_missing() {
    let err = Error::missing("DATABASE_URL");
    let display = err.render();
    assert!(display.contains("DATABASE_URL"));
    assert!(display.contains("missing"));
}

#[test]
fn test_error_parse_non_secret() {
    let err = Error::parse("PORT", "invalid", false, "u16", &std::fmt::Error.to_string());
    let display = err.render();
    assert!(display.contains("PORT"));
    assert!(display.contains("invalid"));
    assert!(display.contains("u16"));
}

#[test]
fn test_error_parse_secret_redacted() {
    let err = Error::parse("API_KEY", "secret-value", true, "String", &std::fmt::Error.to_string());
    let display = err.render();
    assert!(display.contains("API_KEY"));
    assert!(display.contains("<redacted>"));
    assert!(!display.contains("secret-value"));
}

#[test]
fn test_error_multiple() {
    let errors = vec![Error::missing("VAR1"), Error::missing("VAR2")];
    let err = Error::multiple(errors).unwrap();

    if let Error::Multiple { errors } = err {
        assert_eq!(errors.len(), 2);
    } else {
        panic!("Expected Multiple variant");
    }
}

#[test]
fn test_error_multiple_single_unwraps() {
    let errors = vec![Error::missing("VAR1")];
    let err = Error::multiple(errors).unwrap();

    assert!(matches!(err, Error::Missing { .. }));
}

#[test]
fn test_error_multiple_empty_returns_none() {
    let result = Error::multiple(vec![]);
    assert!(result.is_none());
}

#[test]
fn test_source_custom_provider() {
    let s1 = Source::CustomProvider("vault".to_string());
    let s2 = Source::CustomProvider("vault".to_string());
    assert_eq!(s1, s2);
    assert_eq!(s1.render(), "Custom provider (vault)");
}

#[test]
fn test_file_format_detection() {
    assert_eq!(FileFormat::from_path("config.json"), Some(FileFormat::Json));
    assert_eq!(FileFormat::from_path("config.toml"), Some(FileFormat::Toml));
    assert_eq!(FileFormat::from_path("config.yaml"), Some(FileFormat::Yaml));
    assert_eq!(FileFormat::from_path("config.yml"), Some(FileFormat::Yaml));
    assert_eq!(FileFormat::from_path("config.txt"), None);
}
