use arboretum::config::{Config, EnvVars};

#[test]
fn test_default_config() {
    let config = Config::default();
    assert_eq!(config.listen_addr, "0.0.0.0:3333");
    assert_eq!(config.max_retention_seconds, 7200);
    assert_eq!(config.cleanup_interval_seconds, 300);
}

#[test]
fn test_from_env() {
    let env = EnvVars {
        listen_addr: Some("127.0.0.1:8080".to_string()),
        max_retention_seconds: Some("3600".to_string()),
        ..Default::default()
    };

    let config = Config::from_env(&env);
    assert_eq!(config.listen_addr, "127.0.0.1:8080");
    assert_eq!(config.max_retention_seconds, 3600);
}

#[test]
fn default_config_other_fields() {
    let config = Config::default();
    assert_eq!(config.db_path, "arboretum.db");
    assert_eq!(config.max_logs, None);
    assert_eq!(config.max_spans, None);
}

#[test]
fn from_env_ignores_unparsable_numbers() {
    let env = EnvVars {
        max_retention_seconds: Some("two hours".to_string()),
        cleanup_interval_seconds: Some("-5".to_string()),
        max_logs: Some("100".to_string()),
        max_spans: Some("lots".to_string()),
        ..Default::default()
    };
    let config = Config::from_env(&env);
    assert_eq!(config.max_retention_seconds, 7200);
    assert_eq!(config.cleanup_interval_seconds, 300);
    assert_eq!(config.max_logs, Some(100));
    assert_eq!(config.max_spans, None);
}

#[test]
fn overrides_keep_what_env_does_not_set() {
    let base = Config {
        listen_addr: "10.0.0.1:9000".to_string(),
        db_path: "/var/lib/arboretum.db".to_string(),
        max_retention_seconds: 60,
        cleanup_interval_seconds: 10,
        max_logs: Some(5),
        max_spans: Some(6),
    };
    let same = base.clone().with_env_overrides(&EnvVars::default());
    assert_eq!(same.listen_addr, "10.0.0.1:9000");
    assert_eq!(same.db_path, "/var/lib/arboretum.db");
    assert_eq!(same.max_retention_seconds, 60);
    assert_eq!(same.cleanup_interval_seconds, 10);
    assert_eq!(same.max_logs, Some(5));
    assert_eq!(same.max_spans, Some(6));

    let env = EnvVars {
        db_path: Some("other.db".to_string()),
        cleanup_interval_seconds: Some("42".to_string()),
        max_logs: Some("bad".to_string()),
        ..Default::default()
    };
    let changed = base.with_env_overrides(&env);
    assert_eq!(changed.db_path, "other.db");
    assert_eq!(changed.cleanup_interval_seconds, 42);
    // A set but unparsable limit clears the limit.
    assert_eq!(changed.max_logs, None);
    assert_eq!(changed.max_spans, Some(6));
}
