use quiz_arena::config::env::{
    ClaimRegistry, ConfigError, EnvSnapshot, EnvValueError, env_var_name, parse_env_value,
    path_text,
};
use quiz_arena::config::load::{config_path, environment_snapshot, inline_config};
use quiz_arena::config::section::{SectionResolution, SectionStep};
use quiz_arena::config::value::{ConfigValue, insert_at_path, leaf_paths, merge};

fn text(s: &str) -> ConfigValue {
    ConfigValue::Text(s.to_owned())
}

fn table(entries: Vec<(&str, ConfigValue)>) -> ConfigValue {
    ConfigValue::Table(
        entries
            .into_iter()
            .map(|(k, v)| (k.to_owned(), v))
            .collect(),
    )
}

/// The defaults of a section with a text, an integer, a nested table and an
/// optional field.
fn my_module_defaults() -> ConfigValue {
    table(vec![
        ("database_url", text("sqlite::memory:")),
        ("note", ConfigValue::Null),
        ("port", ConfigValue::Integer(1234)),
        ("retry", table(vec![("max_attempts", ConfigValue::Integer(3))])),
    ])
}

fn env(vars: &[(&str, &str)]) -> EnvSnapshot {
    EnvSnapshot::new(
        vars.iter()
            .map(|(n, v)| (n.to_string(), Some(v.to_string())))
            .collect(),
    )
}

fn get<'a>(value: &'a ConfigValue, path: &[&str]) -> Option<&'a ConfigValue> {
    let mut node = value;
    for segment in path {
        match node {
            ConfigValue::Table(entries) => {
                node = &entries.iter().find(|(k, _)| k == segment)?.1;
            }
            _ => return None,
        }
    }
    Some(node)
}

/// Resolves a section, checking nothing between steps, and returns the tree
/// or the first failure.
fn resolve(
    name: &str,
    template: ConfigValue,
    file: Option<ConfigValue>,
    aliases: &[(&str, &str)],
    claims: &mut ClaimRegistry,
    env: &EnvSnapshot,
) -> Result<ConfigValue, ConfigError> {
    let mut resolution = SectionResolution::begin(
        name,
        template,
        file,
        aliases
            .iter()
            .map(|(f, v)| (f.to_string(), v.to_string()))
            .collect(),
    )?;
    loop {
        match resolution.step(claims, env) {
            SectionStep::Applied { .. } | SectionStep::Unset { .. } => {}
            SectionStep::Finished => return Ok(resolution.into_tree()),
            SectionStep::Failed(error) => return Err(error),
        }
    }
}

#[test]
fn config_missing_section_yields_defaults() {
    let tree = resolve(
        "my_module",
        my_module_defaults(),
        None,
        &[],
        &mut ClaimRegistry::new(),
        &env(&[]),
    )
    .unwrap();
    assert_eq!(tree, my_module_defaults());
}

#[test]
fn partial_file_section_leaves_omitted_fields_at_their_defaults() {
    let tree = resolve(
        "my_module",
        my_module_defaults(),
        Some(table(vec![("port", ConfigValue::Integer(9000))])),
        &[],
        &mut ClaimRegistry::new(),
        &env(&[]),
    )
    .unwrap();
    assert_eq!(get(&tree, &["port"]), Some(&ConfigValue::Integer(9000)));
    assert_eq!(get(&tree, &["database_url"]), Some(&text("sqlite::memory:")));
    assert_eq!(
        get(&tree, &["retry", "max_attempts"]),
        Some(&ConfigValue::Integer(3))
    );
}

#[test]
fn unknown_file_fields_survive_the_overlay() {
    let tree = resolve(
        "my_module",
        my_module_defaults(),
        Some(table(vec![("databse_url", text("typo"))])),
        &[],
        &mut ClaimRegistry::new(),
        &env(&[]),
    )
    .unwrap();
    assert_eq!(get(&tree, &["databse_url"]), Some(&text("typo")));
}

#[test]
fn config_non_table_section_is_rejected() {
    let error = resolve(
        "my_module",
        my_module_defaults(),
        Some(ConfigValue::Integer(5)),
        &[],
        &mut ClaimRegistry::new(),
        &env(&[]),
    )
    .unwrap_err();
    assert!(error.message().contains("must be a table"));
}

#[test]
fn config_env_overrides_file() {
    let tree = resolve(
        "my_module",
        my_module_defaults(),
        Some(table(vec![("database_url", text("from-file"))])),
        &[],
        &mut ClaimRegistry::new(),
        &env(&[("QUIZ_ARENA_MY_MODULE_DATABASE_URL", "from-env")]),
    )
    .unwrap();
    assert_eq!(get(&tree, &["database_url"]), Some(&text("from-env")));
}

#[test]
fn config_env_reaches_typed_nested_and_optional_fields() {
    let tree = resolve(
        "my_module",
        my_module_defaults(),
        None,
        &[],
        &mut ClaimRegistry::new(),
        &env(&[
            ("QUIZ_ARENA_MY_MODULE_PORT", "8081"),
            ("QUIZ_ARENA_MY_MODULE_RETRY_MAX_ATTEMPTS", "9"),
            ("QUIZ_ARENA_MY_MODULE_NOTE", "hello"),
        ]),
    )
    .unwrap();
    assert_eq!(get(&tree, &["port"]), Some(&ConfigValue::Integer(8081)));
    assert_eq!(
        get(&tree, &["retry", "max_attempts"]),
        Some(&ConfigValue::Integer(9))
    );
    assert_eq!(get(&tree, &["note"]), Some(&text("hello")));
}

#[test]
fn config_invalid_env_value_names_the_variable() {
    let error = resolve(
        "my_module",
        my_module_defaults(),
        None,
        &[],
        &mut ClaimRegistry::new(),
        &env(&[("QUIZ_ARENA_MY_MODULE_PORT", "abc")]),
    )
    .unwrap_err();
    assert_eq!(
        error.message(),
        "invalid value in environment variable `QUIZ_ARENA_MY_MODULE_PORT`: expected an integer"
    );
}

#[test]
fn non_unicode_env_value_is_reported() {
    let snapshot = EnvSnapshot::new(vec![(
        "QUIZ_ARENA_MY_MODULE_DATABASE_URL".to_owned(),
        None,
    )]);
    let error = resolve(
        "my_module",
        my_module_defaults(),
        None,
        &[],
        &mut ClaimRegistry::new(),
        &snapshot,
    )
    .unwrap_err();
    assert!(error.message().contains("is not valid Unicode"));
    assert!(error.message().contains("QUIZ_ARENA_MY_MODULE_DATABASE_URL"));
}

#[test]
fn env_accepts_unsigned_integers_above_i64_max() {
    let tree = resolve(
        "unsigned",
        table(vec![("value", ConfigValue::Integer(0))]),
        None,
        &[],
        &mut ClaimRegistry::new(),
        &env(&[("QUIZ_ARENA_UNSIGNED_VALUE", "18446744073709551615")]),
    )
    .unwrap();
    assert_eq!(
        get(&tree, &["value"]),
        Some(&ConfigValue::Integer(u64::MAX as i128))
    );
}

#[test]
fn config_ambiguous_env_names_across_sections_are_rejected() {
    let mut claims = ClaimRegistry::new();
    let snapshot = env(&[]);
    resolve(
        "my",
        table(vec![("module_x", text(""))]),
        None,
        &[],
        &mut claims,
        &snapshot,
    )
    .unwrap();
    let error = resolve(
        "my_module",
        table(vec![("x", text(""))]),
        None,
        &[],
        &mut claims,
        &snapshot,
    )
    .unwrap_err();
    assert!(error.message().contains("ambiguous"));
    assert_eq!(
        error.message(),
        "environment variable `QUIZ_ARENA_MY_MODULE_X` is ambiguous, it maps to both `my.module_x` and `my_module.x`"
    );
}

#[test]
fn unit_config_works_for_configless_sections() {
    let tree = resolve(
        "bare",
        ConfigValue::Null,
        None,
        &[],
        &mut ClaimRegistry::new(),
        &env(&[]),
    )
    .unwrap();
    assert_eq!(tree, ConfigValue::Null);
}

#[test]
fn config_alias_env_overrides_file() {
    let tree = resolve(
        "my_module",
        my_module_defaults(),
        Some(table(vec![("database_url", text("from-file"))])),
        &[("database_url", "STD_DATABASE_URL")],
        &mut ClaimRegistry::new(),
        &env(&[("STD_DATABASE_URL", "from-alias")]),
    )
    .unwrap();
    assert_eq!(get(&tree, &["database_url"]), Some(&text("from-alias")));
}

#[test]
fn config_derived_env_overrides_alias_env() {
    let tree = resolve(
        "my_module",
        my_module_defaults(),
        None,
        &[("database_url", "STD_DATABASE_URL")],
        &mut ClaimRegistry::new(),
        &env(&[
            ("STD_DATABASE_URL", "from-alias"),
            ("QUIZ_ARENA_MY_MODULE_DATABASE_URL", "from-env"),
        ]),
    )
    .unwrap();
    assert_eq!(get(&tree, &["database_url"]), Some(&text("from-env")));
}

#[test]
fn config_alias_reaches_nested_fields() {
    let tree = resolve(
        "my_module",
        my_module_defaults(),
        None,
        &[("retry.max_attempts", "STD_MAX_ATTEMPTS")],
        &mut ClaimRegistry::new(),
        &env(&[("STD_MAX_ATTEMPTS", "7")]),
    )
    .unwrap();
    assert_eq!(
        get(&tree, &["retry", "max_attempts"]),
        Some(&ConfigValue::Integer(7))
    );
}

#[test]
fn config_alias_for_unknown_field_is_rejected() {
    let error = resolve(
        "my_module",
        my_module_defaults(),
        None,
        &[("databse_url", "STD_URL")],
        &mut ClaimRegistry::new(),
        &env(&[]),
    )
    .unwrap_err();
    assert!(error.message().contains("unknown field"));
    assert_eq!(
        error.message(),
        "alias `STD_URL` targets unknown field `databse_url` in section `my_module`"
    );
}

#[test]
fn steps_report_each_variable_in_order() {
    let mut resolution = SectionResolution::begin(
        "telemetry",
        table(vec![
            ("enabled", ConfigValue::Bool(false)),
            ("otlp_endpoint", text("http://localhost:4317")),
        ]),
        None,
        vec![(
            "otlp_endpoint".to_owned(),
            "OTEL_EXPORTER_OTLP_ENDPOINT".to_owned(),
        )],
    )
    .unwrap();
    let mut claims = ClaimRegistry::new();
    let snapshot = env(&[
        ("OTEL_EXPORTER_OTLP_ENDPOINT", "http://collector:4317"),
        ("QUIZ_ARENA_TELEMETRY_ENABLED", "true"),
    ]);
    assert_eq!(
        resolution.step(&mut claims, &snapshot),
        SectionStep::Applied {
            var: "OTEL_EXPORTER_OTLP_ENDPOINT".to_owned()
        }
    );
    assert_eq!(
        resolution.step(&mut claims, &snapshot),
        SectionStep::Applied {
            var: "QUIZ_ARENA_TELEMETRY_ENABLED".to_owned()
        }
    );
    assert_eq!(
        resolution.step(&mut claims, &snapshot),
        SectionStep::Unset {
            var: "QUIZ_ARENA_TELEMETRY_OTLP_ENDPOINT".to_owned()
        }
    );
    assert_eq!(resolution.step(&mut claims, &snapshot), SectionStep::Finished);
    let tree = resolution.into_tree();
    assert_eq!(get(&tree, &["enabled"]), Some(&ConfigValue::Bool(true)));
    assert_eq!(
        get(&tree, &["otlp_endpoint"]),
        Some(&text("http://collector:4317"))
    );
}

#[test]
fn env_values_take_the_shape_of_their_defaults() {
    assert_eq!(
        parse_env_value("true", &ConfigValue::Bool(false)),
        Ok(ConfigValue::Bool(true))
    );
    assert_eq!(
        parse_env_value("yes", &ConfigValue::Bool(false)),
        Err(EnvValueError::ExpectedBoolean)
    );
    assert_eq!(
        parse_env_value("-42", &ConfigValue::Integer(0)),
        Ok(ConfigValue::Integer(-42))
    );
    assert_eq!(
        parse_env_value("+7", &ConfigValue::Integer(0)),
        Ok(ConfigValue::Integer(7))
    );
    assert_eq!(
        parse_env_value("18446744073709551616", &ConfigValue::Integer(0)),
        Err(EnvValueError::ExpectedInteger)
    );
    assert_eq!(
        parse_env_value("-9223372036854775809", &ConfigValue::Integer(0)),
        Err(EnvValueError::ExpectedInteger)
    );
    assert_eq!(
        parse_env_value("1.5", &ConfigValue::Number("0.5".to_owned())),
        Ok(ConfigValue::Number("1.5".to_owned()))
    );
    assert_eq!(
        parse_env_value("one", &ConfigValue::Number("0.5".to_owned())),
        Err(EnvValueError::ExpectedNumber)
    );
    assert_eq!(
        parse_env_value("[1, 2]", &ConfigValue::Array("[]".to_owned())),
        Ok(ConfigValue::Array("[1, 2]".to_owned()))
    );
    assert_eq!(
        parse_env_value("1, 2", &ConfigValue::Array("[]".to_owned())),
        Err(EnvValueError::ExpectedArray)
    );
    assert_eq!(
        parse_env_value("false", &ConfigValue::Null),
        Ok(ConfigValue::Bool(false))
    );
    assert_eq!(
        parse_env_value("12", &ConfigValue::Null),
        Ok(ConfigValue::Number("12".to_owned()))
    );
    assert_eq!(parse_env_value("12abc", &ConfigValue::Null), Ok(text("12abc")));
    assert_eq!(parse_env_value("anything", &text("")), Ok(text("anything")));
}

#[test]
fn derived_names_upper_case_section_and_path() {
    let path = vec!["retry".to_owned(), "max_attempts".to_owned()];
    assert_eq!(
        env_var_name("my_module", &path),
        "QUIZ_ARENA_MY_MODULE_RETRY_MAX_ATTEMPTS"
    );
    assert_eq!(env_var_name("bare", &Vec::new()), "QUIZ_ARENA_BARE");
    assert_eq!(path_text(&path), "retry.max_attempts");
    assert_eq!(path_text(&Vec::new()), "");
}

#[test]
fn merging_overlays_tables_entry_by_entry() {
    let mut base = my_module_defaults();
    merge(
        &mut base,
        table(vec![
            ("retry", table(vec![("backoff", ConfigValue::Integer(2))])),
            ("port", ConfigValue::Integer(1)),
        ]),
    );
    assert_eq!(get(&base, &["port"]), Some(&ConfigValue::Integer(1)));
    assert_eq!(
        get(&base, &["retry", "max_attempts"]),
        Some(&ConfigValue::Integer(3))
    );
    assert_eq!(
        get(&base, &["retry", "backoff"]),
        Some(&ConfigValue::Integer(2))
    );
    let mut scalar = my_module_defaults();
    merge(&mut scalar, text("replaced"));
    assert_eq!(scalar, text("replaced"));
}

#[test]
fn inserting_creates_and_replaces_tables() {
    let mut tree = table(vec![("retry", text("scalar"))]);
    let path = vec!["retry".to_owned(), "max_attempts".to_owned()];
    insert_at_path(&mut tree, &path, ConfigValue::Integer(5));
    assert_eq!(
        get(&tree, &["retry", "max_attempts"]),
        Some(&ConfigValue::Integer(5))
    );
    let deep = vec!["a".to_owned(), "b".to_owned(), "c".to_owned()];
    insert_at_path(&mut tree, &deep, ConfigValue::Bool(true));
    assert_eq!(get(&tree, &["a", "b", "c"]), Some(&ConfigValue::Bool(true)));
}

#[test]
fn leaves_list_every_non_table_value() {
    let mut prefix = Vec::new();
    let mut out = Vec::new();
    leaf_paths(&my_module_defaults(), &mut prefix, &mut out);
    let paths: Vec<String> = out.iter().map(|(p, _)| p.join(".")).collect();
    assert_eq!(
        paths,
        vec!["database_url", "note", "port", "retry.max_attempts"]
    );
    assert!(prefix.is_empty());
}

#[test]
fn claims_keep_a_name_with_one_field() {
    let mut claims = ClaimRegistry::new();
    let path = vec!["x".to_owned()];
    assert!(claims.claim("QUIZ_ARENA_A_X", "a", &path).is_ok());
    assert!(claims.claim("QUIZ_ARENA_A_X", "a", &path).is_ok());
    assert!(claims.claim("QUIZ_ARENA_A_X", "b", &path).is_err());
}

#[test]
fn config_file_path_and_inline_layer() {
    let default = config_path(None).unwrap();
    assert_eq!(default.path, "config.toml");
    assert!(!default.explicit);
    assert!(!default.required(false));
    assert!(default.required(true));
    let explicit = config_path(Some(Some("/etc/app.toml".to_owned()))).unwrap();
    assert!(explicit.explicit);
    assert!(explicit.required(false));
    assert!(config_path(Some(None)).is_err());
    assert_eq!(inline_config(None), Ok(None));
    assert_eq!(
        inline_config(Some(Some("[a]".to_owned()))),
        Ok(Some("[a]".to_owned()))
    );
    assert!(inline_config(Some(None))
        .unwrap_err()
        .message()
        .contains("QUIZ_ARENA_CONFIG"));
}

#[test]
fn snapshot_leaves_out_the_file_layer_variables() {
    let snapshot = environment_snapshot(vec![
        (
            Some("QUIZ_ARENA_CONFIG_PATH".to_owned()),
            Some("x".to_owned()),
        ),
        (Some("QUIZ_ARENA_CONFIG".to_owned()), Some("y".to_owned())),
        (None, Some("z".to_owned())),
        (Some("OTEL_SERVICE_NAME".to_owned()), Some("svc".to_owned())),
        (Some("BAD".to_owned()), None),
    ]);
    assert_eq!(snapshot.get("QUIZ_ARENA_CONFIG_PATH"), None);
    assert_eq!(snapshot.get("QUIZ_ARENA_CONFIG"), None);
    assert_eq!(
        snapshot.get("OTEL_SERVICE_NAME"),
        Some(Some(&"svc".to_owned()))
    );
    assert_eq!(snapshot.get("BAD"), Some(None));
}

#[test]
fn a_later_variable_of_a_name_replaces_an_earlier_one() {
    let snapshot = EnvSnapshot::new(vec![
        ("A".to_owned(), Some("first".to_owned())),
        ("B".to_owned(), None),
        ("A".to_owned(), Some("second".to_owned())),
    ]);
    assert_eq!(snapshot.get("A"), Some(Some(&"second".to_owned())));
    assert_eq!(snapshot.get("B"), Some(None));
    assert_eq!(snapshot.get("C"), None);
}
