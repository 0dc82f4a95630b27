use forgeconf::ConfigError;

#[test]
fn mismatch_helper_builds_type_mismatch() {
    let err = ConfigError::mismatch("port", "u16", "string");
    assert!(matches!(
        err,
        ConfigError::TypeMismatch {
            field,
            expected,
            found
        } if field == "port" && expected == "u16" && found == "string"
    ));
}

#[test]
fn nested_helper_wraps_inner_error() {
    let inner = ConfigError::missing("host");
    let err = ConfigError::nested("server", inner);
    assert!(matches!(
        err,
        ConfigError::Nested { section, source }
            if section == "server" && matches!(*source, ConfigError::MissingValue(ref key) if key == "host")
    ));
}

#[test]
fn missing_helper_sets_field_name() {
    let err = ConfigError::missing("database");
    assert!(matches!(err, ConfigError::MissingValue(ref key) if key == "database"));
}

#[test]
fn every_error_has_its_message() {
    assert_eq!(
        ConfigError::UnsupportedFormat("ini".into()).to_string(),
        "unsupported file format 'ini'"
    );
    assert_eq!(
        ConfigError::MissingExtension.to_string(),
        "configuration file is missing an extension"
    );
    assert_eq!(ConfigError::missing("port").to_string(), "missing value for 'port'");
    assert_eq!(
        ConfigError::mismatch("port", "u16", "abc").to_string(),
        "type mismatch for 'port': expected u16, found abc"
    );
    assert_eq!(
        ConfigError::nested("server", ConfigError::nested("tls", ConfigError::missing("cert"))).to_string(),
        "nested section 'server' failed: nested section 'tls' failed: missing value for 'cert'"
    );
    assert_eq!(ConfigError::Io("no such file".into()).to_string(), "no such file");
    assert_eq!(ConfigError::Toml("bad".into()).to_string(), "toml parse error: bad");
    assert_eq!(ConfigError::Json("bad".into()).to_string(), "json parse error: bad");
    assert_eq!(ConfigError::Yaml("bad".into()).to_string(), "yaml parse error: bad");
}
