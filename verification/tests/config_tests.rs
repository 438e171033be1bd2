use food_ingest::config::{resolve_chunk_size, resolve_config, ConfigError, DEFAULT_CHUNK_SIZE};

fn s(v: &str) -> Option<String> {
    Some(v.to_string())
}

#[test]
fn full_environment_resolves() {
    let config = resolve_config(s("u"), s("d"), s("h"), s("pw")).unwrap();
    assert_eq!(config.user, "u");
    assert_eq!(config.dbname, "d");
    assert_eq!(config.host, "h");
    assert_eq!(config.password, "pw");
}

#[test]
fn missing_user_is_named_before_anything_else() {
    let err = resolve_config(None, None, None, None).unwrap_err();
    assert_eq!(err, ConfigError::MissingVar { name: "POSTGRES_USER".to_string() });
}

#[test]
fn missing_database_is_named() {
    let err = resolve_config(s("u"), None, s("h"), s("pw")).unwrap_err();
    assert_eq!(err, ConfigError::MissingVar { name: "POSTGRES_DB".to_string() });
}

#[test]
fn missing_host_is_named() {
    let err = resolve_config(s("u"), s("d"), None, s("pw")).unwrap_err();
    assert_eq!(err, ConfigError::MissingVar { name: "POSTGRES_HOST".to_string() });
}

#[test]
fn missing_password_is_named() {
    let err = resolve_config(s("u"), s("d"), s("h"), None).unwrap_err();
    assert_eq!(err, ConfigError::MissingVar { name: "POSTGRES_PASSWORD".to_string() });
}

#[test]
fn connection_string_holds_all_four_settings() {
    let config = resolve_config(s("u"), s("d"), s("h"), s("pw")).unwrap();
    assert_eq!(config.connection_string(), "user=u host=h password=pw dbname=d");
}

#[test]
fn chunk_size_defaults_to_one_hundred() {
    assert_eq!(resolve_chunk_size(None), Ok(100));
    assert_eq!(DEFAULT_CHUNK_SIZE, 100);
}

#[test]
fn positive_chunk_size_is_kept() {
    assert_eq!(resolve_chunk_size(Some(7)), Ok(7));
    assert_eq!(resolve_chunk_size(Some(1)), Ok(1));
}

#[test]
fn zero_chunk_size_is_refused() {
    assert_eq!(resolve_chunk_size(Some(0)), Err(ConfigError::InvalidChunkSize));
}
