use procenv::builder::ConfigBuilder;
use procenv::coerce::coerce_value;
use procenv::env::env_to_value;
use procenv::error::{Error, FileError, Span};
use procenv::format::{parse_file, parse_str, FileFormat, FileRead};
use procenv::location::{extract_yaml_location, line_col_to_offset, offset_to_span};
use procenv::merge::deep_merge;
use procenv::origin::OriginTracker;
use procenv::resolve::{
    check_required, defaults_for, effective_env, env_mappings, resolve, validate_profile, FieldSchema,
    ResolveOptions,
};
use procenv::sources::Source;
use procenv::validation::{
    validation_errors_to_procenv, RuleFailure, ValidationFieldError, ValidationReport,
};
use procenv::value::ConfigValue;

fn obj(entries: Vec<(&str, ConfigValue)>) -> ConfigValue {
    ConfigValue::Object(entries.into_iter().map(|(k, v)| (k.to_string(), v)).collect())
}

fn num(i: i64) -> ConfigValue {
    ConfigValue::Int(i)
}

fn text(s: &str) -> ConfigValue {
    ConfigValue::Str(s.to_string())
}

fn vars(pairs: &[(&str, &str)]) -> Vec<(String, String)> {
    pairs.iter().map(|(k, v)| (k.to_string(), v.to_string())).collect()
}

fn field(name: &str, var: Option<&str>, default: Option<&str>) -> FieldSchema {
    FieldSchema {
        name: name.to_string(),
        var: var.map(|v| v.to_string()),
        default: default.map(|d| d.to_string()),
        optional: false,
        secret: false,
        nested: None,
        flatten_prefix: None,
        profile_overrides: Vec::new(),
    }
}

fn options(profile_var: Option<&str>, profiles: &[&str]) -> ResolveOptions {
    ResolveOptions {
        prefix: None,
        separator: "_".to_string(),
        profile_var: profile_var.map(|v| v.to_string()),
        profiles: profiles.iter().map(|p| p.to_string()).collect(),
        files: Vec::new(),
    }
}

#[test]
fn merge_example_overlapping_and_new_keys() {
    let mut base = obj(vec![("a", num(1)), ("b", obj(vec![("x", num(10)), ("y", num(20))]))]);
    let overlay = obj(vec![("b", obj(vec![("y", num(200)), ("z", num(30))])), ("c", num(3))]);
    deep_merge(&mut base, overlay);
    let expected = obj(vec![
        ("a", num(1)),
        ("b", obj(vec![("x", num(10)), ("y", num(200)), ("z", num(30))])),
        ("c", num(3)),
    ]);
    assert_eq!(base, expected);
}

#[test]
fn merge_is_not_commutative_on_overlapping_scalars() {
    let mut ab = obj(vec![("k", num(1))]);
    deep_merge(&mut ab, obj(vec![("k", num(2))]));
    let mut ba = obj(vec![("k", num(2))]);
    deep_merge(&mut ba, obj(vec![("k", num(1))]));
    assert_eq!(ab.get_path("k"), Some(&num(2)));
    assert_eq!(ba.get_path("k"), Some(&num(1)));
}

#[test]
fn merge_disjoint_layers_in_either_grouping() {
    let a = || obj(vec![("a", num(1))]);
    let b = || obj(vec![("b", obj(vec![("x", num(2))]))]);
    let c = || obj(vec![("c", text("three"))]);
    let mut left = a();
    deep_merge(&mut left, b());
    deep_merge(&mut left, c());
    let mut bc = b();
    deep_merge(&mut bc, c());
    let mut right = a();
    deep_merge(&mut right, bc);
    for path in ["a", "b.x", "c"] {
        assert_eq!(left.get_path(path), right.get_path(path));
    }
}

#[test]
fn merge_scalar_overlay_replaces_object() {
    let mut base = obj(vec![("db", obj(vec![("host", text("h"))]))]);
    deep_merge(&mut base, obj(vec![("db", text("url"))]));
    assert_eq!(base.get_path("db"), Some(&text("url")));
    assert_eq!(base.get_path("db.host"), None);
}

#[test]
fn coerce_examples() {
    assert_eq!(coerce_value("true"), ConfigValue::Bool(true));
    assert_eq!(coerce_value("TRUE"), ConfigValue::Bool(true));
    assert_eq!(coerce_value("42"), num(42));
    assert_eq!(coerce_value("3.14"), ConfigValue::Float("3.14".to_string()));
    assert_eq!(coerce_value("hello world"), text("hello world"));
}

#[test]
fn coerce_edge_cases() {
    assert_eq!(coerce_value("1e10"), text("1e10"));
    assert_eq!(coerce_value("10"), num(10));
    assert_eq!(coerce_value("+7"), num(7));
    assert_eq!(coerce_value("9223372036854775808"), text("9223372036854775808"));
    assert_eq!(coerce_value("1.2.3"), text("1.2.3"));
    assert_eq!(coerce_value(""), text(""));
    assert_eq!(coerce_value("FaLsE"), ConfigValue::Bool(false));
    assert_eq!(ConfigValue::from_str_infer("-5"), num(-5));
}

#[test]
fn env_mapping_example() {
    let env = vars(&[
        ("APP_DATABASE_HOST", "localhost"),
        ("APP_DATABASE_PORT", "5432"),
        ("OTHER_VAR", "ignored"),
    ]);
    let value = env_to_value("APP_", "_", &env);
    let expected = obj(vec![("database", obj(vec![("host", text("localhost")), ("port", num(5432))]))]);
    assert_eq!(value, expected);
}

#[test]
fn env_mapping_scalar_blocks_nested_insert() {
    let env = vars(&[("APP_DB", "plain"), ("APP_DB_HOST", "h")]);
    let value = env_to_value("APP_", "_", &env);
    assert_eq!(value, obj(vec![("db", text("plain"))]));
}

#[test]
fn env_mapping_custom_separator() {
    let env = vars(&[("APP_DATABASE__MAX_CONN", "10")]);
    let value = env_to_value("APP_", "__", &env);
    assert_eq!(value.get_path("database.max_conn"), Some(&num(10)));
}

#[test]
fn required_file_missing_is_not_found() {
    let r = parse_file("config.toml", true, &FileRead::Missing);
    match r {
        Err(FileError::NotFound { path }) => assert_eq!(path, "config.toml"),
        _ => panic!("expected NotFound"),
    }
}

#[test]
fn optional_file_missing_is_no_layer() {
    let r = parse_file("config.toml", false, &FileRead::Missing);
    assert!(matches!(r, Ok(None)));
}

#[test]
fn file_read_failure_and_unknown_format() {
    let r = parse_file("a.json", true, &FileRead::Failed("denied".to_string()));
    assert!(matches!(r, Err(FileError::ReadError { .. })));
    let r = parse_file("a.ini", true, &FileRead::Text("x=1".to_string()));
    match r {
        Err(FileError::UnknownFormat { extension }) => assert_eq!(extension, "ini"),
        _ => panic!("expected UnknownFormat"),
    }
    let r = parse_file("a.JSON", true, &FileRead::Text("{\"k\": true}".to_string()));
    assert_eq!(r.ok().unwrap().unwrap().get_path("k"), Some(&ConfigValue::Bool(true)));
}

#[test]
fn json_parse_error_is_located() {
    let content = "{\n  \"a\": 1,\n  \"b\": ]\n}";
    match parse_str(content, FileFormat::Json) {
        Err(FileError::Parse { format, span, .. }) => {
            assert_eq!(format, "JSON");
            assert_eq!(span.offset, 19);
            assert!(span.len >= 1);
        }
        _ => panic!("expected a located parse error"),
    }
}

#[test]
fn toml_and_yaml_parse_errors() {
    let r = parse_str("name = ", FileFormat::Toml);
    assert!(matches!(r, Err(FileError::Parse { format: "TOML", .. }) | Err(FileError::ParseNoSpan { format: "TOML", .. })));
    let r = parse_str("a: [1, 2\nb: 3\n", FileFormat::Yaml);
    assert!(matches!(r, Err(FileError::Parse { format: "YAML", .. }) | Err(FileError::ParseNoSpan { format: "YAML", .. })));
}

#[test]
fn float_parsed_from_json_keeps_float_kind() {
    let v = parse_str("{\"r\": 1.0, \"big\": 18446744073709551615}", FileFormat::Json).ok().unwrap();
    assert_eq!(v.get_path("r"), Some(&ConfigValue::Float("1.0".to_string())));
    assert_eq!(v.get_path("big"), Some(&ConfigValue::UInt(18446744073709551615)));
}

#[test]
fn offsets_and_spans() {
    assert_eq!(line_col_to_offset("ab\ncd\nef", 2, 2), 4);
    assert_eq!(line_col_to_offset("ab\r\ncd", 2, 1), 3);
    assert_eq!(line_col_to_offset("ab\ncd", 9, 1), 6);
    assert_eq!(offset_to_span(0, "abc, def"), Span { offset: 0, len: 3 });
    assert_eq!(offset_to_span(4, "abc, def"), Span { offset: 4, len: 1 });
    assert_eq!(offset_to_span(50, "abc"), Span { offset: 50, len: 1 });
    assert_eq!(offset_to_span(0, "abcdefghijklmnopqrstuvwxyz"), Span { offset: 0, len: 20 });
}

#[test]
fn yaml_location_from_message() {
    assert_eq!(extract_yaml_location("unexpected end at line 5, column 10"), Some((5, 10)));
    assert_eq!(extract_yaml_location("at line 7 column 3"), Some((7, 3)));
    assert_eq!(extract_yaml_location("no location here"), None);
    assert_eq!(extract_yaml_location("at line 12"), None);
}

#[test]
fn two_missing_fields_are_one_multiple_in_order() {
    let schema = vec![field("database_url", Some("DATABASE_URL"), None), field("api_key", Some("API_KEY"), None)];
    match check_required(&schema, &obj(vec![])) {
        Err(Error::Multiple { errors }) => {
            assert_eq!(errors.len(), 2);
            match (&errors[0], &errors[1]) {
                (Error::Missing { var: a, .. }, Error::Missing { var: b, .. }) => {
                    assert_eq!(a, "database_url");
                    assert_eq!(b, "api_key");
                }
                _ => panic!("expected two Missing errors"),
            }
        }
        _ => panic!("expected Multiple"),
    }
}

#[test]
fn one_missing_field_is_not_wrapped() {
    let schema = vec![field("database_url", Some("DATABASE_URL"), None), field("port", Some("PORT"), Some("8080"))];
    match check_required(&schema, &obj(vec![])) {
        Err(Error::Missing { var, .. }) => assert_eq!(var, "database_url"),
        _ => panic!("expected a single Missing error"),
    }
    assert!(check_required(&schema, &obj(vec![("database_url", text("x"))])).is_ok());
}

#[test]
fn null_counts_as_missing_and_optional_does_not() {
    let mut opt = field("debug", None, None);
    opt.optional = true;
    let schema = vec![field("url", None, None), opt];
    let value = obj(vec![("url", ConfigValue::Null)]);
    assert!(matches!(check_required(&schema, &value), Err(Error::Missing { .. })));
}

fn profiled_schema() -> Vec<FieldSchema> {
    let mut level = field("log_level", Some("LOG_LEVEL"), Some("info"));
    level.profile_overrides = vec![("dev".to_string(), "debug".to_string()), ("prod".to_string(), "warn".to_string())];
    vec![level]
}

#[test]
fn profile_then_environment_precedence() {
    let schema = profiled_schema();
    let opts = options(Some("APP_ENV"), &["dev", "prod"]);

    let before = vars(&[("APP_ENV", "dev")]);
    let res = resolve(&schema, &opts, &Vec::new(), &before, &Vec::new()).ok().unwrap();
    assert_eq!(res.sources.get("log_level").unwrap().source, Source::Profile("dev".to_string()));
    assert_eq!(res.value.get_path("log_level"), Some(&text("debug")));

    let before = vars(&[("APP_ENV", "dev"), ("LOG_LEVEL", "trace")]);
    let res = resolve(&schema, &opts, &Vec::new(), &before, &Vec::new()).ok().unwrap();
    assert_eq!(res.sources.get("log_level").unwrap().source, Source::Environment);
    assert_eq!(res.value.get_path("log_level"), Some(&text("trace")));
}

#[test]
fn dotenv_value_is_attributed_to_dotenv() {
    let schema = profiled_schema();
    let opts = options(None, &[]);
    let dotenv = vars(&[("LOG_LEVEL", "error")]);
    let res = resolve(&schema, &opts, &Vec::new(), &Vec::new(), &dotenv).ok().unwrap();
    assert_eq!(res.sources.get("log_level").unwrap().source, Source::DotenvFile(None));
    assert_eq!(res.value.get_path("log_level"), Some(&text("error")));

    let before = vars(&[("LOG_LEVEL", "warn")]);
    let now = effective_env(&before, &dotenv);
    assert_eq!(now, before);
}

#[test]
fn default_and_file_attribution() {
    let schema = vec![field("port", Some("PORT"), Some("8080")), field("host", Some("HOST"), None)];
    let mut opts = options(None, &[]);
    opts.files = vec![("config.json".to_string(), true)];
    let reads = vec![FileRead::Text("{\"host\": \"example.org\"}".to_string())];
    let res = resolve(&schema, &opts, &reads, &Vec::new(), &Vec::new()).ok().unwrap();
    assert_eq!(res.sources.get("port").unwrap().source, Source::Default);
    assert_eq!(
        res.sources.get("host").unwrap().source,
        Source::ConfigFile(Some("config.json".to_string()))
    );
    assert_eq!(res.value.get_path("port"), Some(&num(8080)));
    assert_eq!(res.origins.get_file_source("host"), Some("config.json".to_string()));
}

#[test]
fn invalid_profile_fails_resolution() {
    let schema = profiled_schema();
    let opts = options(Some("APP_ENV"), &["dev", "prod"]);
    let before = vars(&[("APP_ENV", "qa")]);
    match resolve(&schema, &opts, &Vec::new(), &before, &Vec::new()) {
        Err(Error::InvalidProfile { profile, var, help, .. }) => {
            assert_eq!(profile, "qa");
            assert_eq!(var, "APP_ENV");
            assert_eq!(help, "valid profiles are: dev, prod");
        }
        _ => panic!("expected InvalidProfile"),
    }
    assert!(validate_profile(Some("qa"), "APP_ENV", &Vec::new()).is_ok());
    assert!(validate_profile(None, "APP_ENV", &vec!["dev".to_string()]).is_ok());
}

#[test]
fn missing_required_file_stops_resolution() {
    let schema = profiled_schema();
    let mut opts = options(None, &[]);
    opts.files = vec![("config.toml".to_string(), true)];
    let r = resolve(&schema, &opts, &vec![FileRead::Missing], &Vec::new(), &Vec::new());
    assert!(matches!(r, Err(Error::File { source: FileError::NotFound { .. } })));
}

#[test]
fn flattened_schema_defaults_mappings_and_missing() {
    let mut db = field("database", None, None);
    db.flatten_prefix = Some("DB_".to_string());
    db.nested = Some(vec![field("host", Some("HOST"), Some("localhost")), field("user", Some("USER"), None)]);
    let schema = vec![field("name", Some("APP_NAME"), Some("svc")), db];

    let d = defaults_for(&schema, None);
    assert_eq!(d.get_path("database.host"), Some(&text("localhost")));
    assert_eq!(d.get_path("name"), Some(&text("svc")));

    let maps = env_mappings(&schema);
    assert_eq!(
        maps,
        vec![
            ("name".to_string(), "APP_NAME".to_string()),
            ("database.host".to_string(), "DB_HOST".to_string()),
            ("database.user".to_string(), "DB_USER".to_string()),
        ]
    );

    match check_required(&schema, &d) {
        Err(Error::Missing { var, .. }) => assert_eq!(var, "database.user"),
        _ => panic!("expected database.user missing"),
    }

    let opts = options(None, &[]);
    let before = vars(&[("DB_USER", "admin")]);
    let res = resolve(&schema, &opts, &Vec::new(), &before, &Vec::new()).ok().unwrap();
    assert_eq!(res.value.get_path("database.user"), Some(&text("admin")));
    let src = res.sources.get("database.user").unwrap();
    assert_eq!(src.var_name, "DB_USER");
    assert_eq!(src.source, Source::Environment);
}

#[test]
fn builder_layers_in_order() {
    let reads = vec![
        FileRead::Text("{\"port\": 1, \"db\": {\"host\": \"a\"}}".to_string()),
        FileRead::Missing,
        FileRead::Text("port = 2\n".to_string()),
    ];
    let env = vars(&[("APP_DB_HOST", "b"), ("SECRET_URL", "postgres://x")]);
    let (value, origins) = ConfigBuilder::new()
        .defaults_value(obj(vec![("port", num(0)), ("url", text("none"))]))
        .file("base.json")
        .file_optional("local.json")
        .file("over.toml")
        .env_prefix("APP_")
        .env_mapping("url", "SECRET_URL")
        .merge(&reads, &env)
        .ok()
        .unwrap();
    assert_eq!(value.get_path("port"), Some(&num(2)));
    assert_eq!(value.get_path("db.host"), Some(&text("b")));
    assert_eq!(value.get_path("url"), Some(&text("postgres://x")));
    assert_eq!(origins.find_origin("port").unwrap().source, Source::ConfigFile(Some("over.toml".to_string())));
    assert_eq!(origins.find_origin("db.host").unwrap().source, Source::Environment);
    assert_eq!(origins.find_origin("url").unwrap().source, Source::Environment);
    assert_eq!(origins.get_file_source("db.host"), None);
}

#[test]
fn origin_tracker_last_writer_wins() {
    let mut t = OriginTracker::new();
    let layer = obj(vec![("a", num(1)), ("b", obj(vec![("c", num(2))]))]);
    t.track_value(&layer, "", &Source::ConfigFile(Some("one.toml".to_string())));
    t.track_value(&obj(vec![("b", obj(vec![("c", num(3))]))]), "", &Source::Environment);
    assert_eq!(t.find_origin("a").unwrap().source, Source::ConfigFile(Some("one.toml".to_string())));
    assert_eq!(t.find_origin("b.c").unwrap().source, Source::Environment);
    assert!(t.find_origin("b").is_none());
    let mut fields = t.tracked_fields();
    fields.sort();
    assert_eq!(fields, vec!["a".to_string(), "b.c".to_string()]);
}

#[test]
fn error_texts_and_codes() {
    let e = Error::InvalidUtf8 { var: "X".to_string() };
    assert_eq!(e.render(), "environment variable X contains invalid UTF-8");
    assert_eq!(e.code(), "procenv::invalid_utf8");
    let e = Error::Provider { provider: "vault".to_string(), message: "down".to_string(), help: String::new() };
    assert_eq!(e.render(), "error connecting to vault: down");
    assert_eq!(e.code(), "procenv::provider_error");
    let e = Error::multiple(vec![Error::missing("A"), Error::missing("B"), Error::missing("C")]).unwrap();
    assert_eq!(e.render(), "3 configuration error(s) occurred");
    assert_eq!(e.code(), "procenv::multiple_errors");
    let e = Error::parse("PORT", "ab\"c", false, "u16", "invalid digit");
    assert_eq!(e.render(), "failed to parse PORT: expected u16, got \"ab\\\"c\"");
    let e = Error::from(FileError::NotFound { path: "c.toml".to_string() });
    assert_eq!(e.render(), "configuration file error: configuration file not found: c.toml");
    assert_eq!(e.code(), "procenv::file::not_found");
    let e = Error::missing("DB");
    assert_eq!(e.code(), "procenv::missing_var");
    if let Error::Missing { help, .. } = e {
        assert_eq!(help, "set DB in your environment or .env file");
    }
    let e = Error::Validation { errors: vec![ValidationFieldError::new("a", "email", "bad")] };
    assert_eq!(e.render(), "1 validation error(s) occurred");
}

#[test]
fn validation_report_flattening() {
    let report = ValidationReport {
        fields: vec![(
            "email".to_string(),
            vec![RuleFailure { code: "email".to_string(), message: None, params: vec![("value".to_string(), "x".to_string())] }],
        )],
        nested: vec![(
            "db".to_string(),
            ValidationReport {
                fields: vec![(
                    "port".to_string(),
                    vec![RuleFailure {
                        code: "range".to_string(),
                        message: Some("out of range".to_string()),
                        params: vec![
                            ("min".to_string(), "1".to_string()),
                            ("value".to_string(), "0".to_string()),
                            ("max".to_string(), "100".to_string()),
                        ],
                    }],
                )],
                nested: Vec::new(),
            },
        )],
    };
    let errors = validation_errors_to_procenv(&report);
    assert_eq!(errors.len(), 2);
    assert_eq!(errors[0].field, "email");
    assert_eq!(errors[0].message, "validation failed: email");
    assert_eq!(errors[0].params, None);
    assert_eq!(errors[1].field, "db.port");
    assert_eq!(errors[1].code, "range");
    assert_eq!(errors[1].message, "out of range");
    assert_eq!(errors[1].params, Some("min: 1, max: 100".to_string()));
    assert_eq!(errors[1].render(), "field `db.port` failed validation: out of range");
    let e = ValidationFieldError::new("f", "c", "m").with_params("min: 1");
    assert_eq!(e.params, Some("min: 1".to_string()));
}

#[test]
fn object_equality_ignores_entry_order() {
    let a = obj(vec![("x", num(1)), ("y", obj(vec![("p", text("q")), ("r", ConfigValue::Null)]))]);
    let b = obj(vec![("y", obj(vec![("r", ConfigValue::Null), ("p", text("q"))])), ("x", num(1))]);
    assert_eq!(a, b);
    assert_ne!(a, obj(vec![("x", num(1))]));
    assert_ne!(ConfigValue::List(vec![num(1), num(2)]), ConfigValue::List(vec![num(2), num(1)]));
    assert_ne!(num(1), ConfigValue::UInt(1));
}

#[test]
fn toml_span_is_at_least_one_byte() {
    match parse_str("a = 1\na = 2\n", FileFormat::Toml) {
        Err(FileError::Parse { span, .. }) => assert!(span.len >= 1),
        Err(FileError::ParseNoSpan { .. }) => {}
        _ => panic!("expected a parse error"),
    }
}

#[test]
fn aggregate_renders_every_inner_error() {
    let inner = Error::multiple(vec![Error::missing("B"), Error::InvalidUtf8 { var: "C".to_string() }]).unwrap();
    let e = Error::multiple(vec![Error::missing("A"), inner]).unwrap();
    assert_eq!(
        e.render_all(),
        "2 configuration error(s) occurred\n- missing required environment variable: A\n- 2 configuration error(s) occurred\n- missing required environment variable: B\n- environment variable C contains invalid UTF-8"
    );
    assert_eq!(Error::missing("A").render_all(), "missing required environment variable: A");
}

#[test]
fn origin_records_iterate() {
    let mut t = OriginTracker::new();
    t.track_value(&obj(vec![("a", num(1)), ("b", num(2))]), "svc", &Source::Default);
    let mut paths: Vec<String> = t.iter().map(|r| r.path.clone()).collect();
    paths.sort();
    assert_eq!(paths, vec!["svc.a".to_string(), "svc.b".to_string()]);
}

#[test]
fn debug_form_redacts_secret_values() {
    let e = Error::parse("API_KEY", "hunter2", true, "String", "bad");
    let d = e.debug_text();
    assert!(!d.contains("hunter2"));
    assert_eq!(
        d,
        "Parse { var: \"API_KEY\", value: <redacted>, secret: true, expected_type: \"String\", help: \"expected a valid String\", source: \"bad\" }"
    );
    let e = Error::parse("PORT", "x", false, "u16", "bad");
    assert!(e.debug_text().contains("value: \"x\""));
}

#[test]
fn replaced_subtree_leaves_no_stale_origins() {
    let reads = vec![FileRead::Text("{\"db\": {\"host\": \"a\", \"port\": 1}}".to_string())];
    let env = vars(&[("DB_URL", "postgres://x")]);
    let (value, origins) = ConfigBuilder::new()
        .file("base.json")
        .env_mapping("db", "DB_URL")
        .merge(&reads, &env)
        .ok()
        .unwrap();
    assert_eq!(value.get_path("db"), Some(&text("postgres://x")));
    assert_eq!(origins.find_origin("db").unwrap().source, Source::Environment);
    assert!(origins.find_origin("db.host").is_none());
    assert!(origins.find_origin("db.port").is_none());
}

#[test]
fn inference_prefers_unsigned_then_signed() {
    assert_eq!(ConfigValue::from_str_infer("true"), ConfigValue::Bool(true));
    assert_eq!(ConfigValue::from_str_infer("42"), ConfigValue::UInt(42));
    assert_eq!(ConfigValue::from_str_infer("-5"), num(-5));
    assert!(matches!(ConfigValue::from_str_infer("1e3"), ConfigValue::Float(_)));
    assert_eq!(ConfigValue::from_str_infer("2.5"), ConfigValue::Float("2.5".to_string()));
    assert_eq!(ConfigValue::from_str_infer("hello"), text("hello"));
    assert_eq!(coerce_value("1e3"), text("1e3"));
}

#[test]
fn span_ends_at_unicode_whitespace() {
    assert_eq!(offset_to_span(0, "a\u{a0}b"), Span { offset: 0, len: 1 });
    assert_eq!(offset_to_span(0, "ab\u{3000}c"), Span { offset: 0, len: 2 });
    assert_eq!(offset_to_span(2, "a\u{a0}b"), Span { offset: 2, len: 1 });
    assert_eq!(offset_to_span(0, "é,"), Span { offset: 0, len: 2 });
}

#[test]
fn toml_float_that_is_not_finite_becomes_zero() {
    let v = parse_str("x = nan\ny = 1.5\nz = inf\n", FileFormat::Toml).ok().unwrap();
    assert_eq!(v.get_path("x"), Some(&num(0)));
    assert_eq!(v.get_path("y"), Some(&ConfigValue::Float("1.5".to_string())));
    assert_eq!(v.get_path("z"), Some(&num(0)));
}

#[test]
fn unknown_format_without_extension_is_named_unknown() {
    match parse_file("config", true, &FileRead::Text("{}".to_string())) {
        Err(FileError::UnknownFormat { extension }) => assert_eq!(extension, "unknown"),
        _ => panic!("expected UnknownFormat"),
    }
    match parse_file("a.json", true, &FileRead::Failed("denied".to_string())) {
        Err(FileError::ReadError { path, message }) => {
            assert_eq!(path, "a.json");
            assert_eq!(message, "denied");
        }
        _ => panic!("expected ReadError"),
    }
}

#[test]
fn merge_stops_at_first_failing_file() {
    let reads = vec![FileRead::Text("{\"a\": 1}".to_string()), FileRead::Missing, FileRead::Missing];
    let r = ConfigBuilder::new()
        .file("one.json")
        .file("two.json")
        .file("three.json")
        .merge(&reads, &Vec::new());
    match r {
        Err(FileError::NotFound { path }) => assert_eq!(path, "two.json"),
        _ => panic!("expected NotFound for the second file"),
    }
}

#[test]
fn invalid_profile_carries_allow_list() {
    match validate_profile(Some("qa"), "APP_ENV", &vec!["dev".to_string(), "prod".to_string()]) {
        Err(Error::InvalidProfile { valid_profiles, help, .. }) => {
            assert_eq!(valid_profiles, vec!["dev".to_string(), "prod".to_string()]);
            assert_eq!(help, "valid profiles are: dev, prod");
        }
        _ => panic!("expected InvalidProfile"),
    }
}

#[test]
fn aggregate_debug_form_lists_inner_errors() {
    let e = Error::multiple(vec![Error::missing("A"), Error::InvalidUtf8 { var: "B".to_string() }]).unwrap();
    assert_eq!(
        e.debug_text(),
        "Multiple { errors: [Missing { var: \"A\", help: \"set A in your environment or .env file\" }, InvalidUtf8 { var: \"B\" }] }"
    );
}

#[test]
fn type_mismatch_is_located_in_its_file() {
    let reads = vec![FileRead::Text("name = \"svc\"\nport = \"abc\"\n".to_string())];
    let (_value, origins) = ConfigBuilder::new().file("app.toml").merge(&reads, &Vec::new()).ok().unwrap();
    match origins.type_mismatch_error("port", "invalid type: string, expected u16") {
        Some(FileError::Parse { format, path, span, message, .. }) => {
            assert_eq!(format, "TOML");
            assert_eq!(path, "app.toml");
            assert_eq!(span, Span { offset: 13, len: 4 });
            assert_eq!(message, "invalid type: string, expected u16");
        }
        _ => panic!("expected a located error"),
    }
    assert!(origins.type_mismatch_error("missing", "x").is_none());
}
