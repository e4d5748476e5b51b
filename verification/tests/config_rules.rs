use uptime_api::config::{env_list, env_or, env_required, Config, ConfigError, ConfigKey};
use uptime_api::secrets::Secrets;

fn s(v: &str) -> Option<String> {
    Some(v.to_string())
}

#[test]
fn a_full_environment_loads() {
    let c = Config::load(s("v1"), s("5"), s("9000"), s(" us-east , ,eu-west,"), s("https://app.example")).unwrap();
    assert_eq!(c.version, "v1");
    assert_eq!(c.max_connections, 5);
    assert_eq!(c.port, 9000);
    assert_eq!(c.regions, vec!["us-east".to_string(), "eu-west".to_string()]);
    assert_eq!(c.frontend_url, "https://app.example");
}

#[test]
fn optional_numbers_fall_back_to_their_defaults() {
    let c = Config::load(s("v1"), None, None, s("us-east"), s("https://app.example")).unwrap();
    assert_eq!(c.max_connections, 1);
    assert_eq!(c.port, 8080);
}

#[test]
fn the_first_bad_variable_decides_the_error() {
    let load = |v, m, p, r, f| Config::load(v, m, p, r, f).err();
    assert_eq!(load(None, s("x"), None, None, None), Some(ConfigError::Missing(ConfigKey::VersionSlug)));
    assert_eq!(load(s("v1"), s("-1"), s("x"), None, None), Some(ConfigError::Invalid(ConfigKey::MaxConnections)));
    assert_eq!(load(s("v1"), None, s("65536"), None, None), Some(ConfigError::Invalid(ConfigKey::Port)));
    assert_eq!(load(s("v1"), None, None, None, None), Some(ConfigError::Missing(ConfigKey::Regions)));
    assert_eq!(load(s("v1"), None, None, s(" , "), None), Some(ConfigError::EmptyList(ConfigKey::Regions)));
    assert_eq!(load(s("v1"), None, None, s("a"), None), Some(ConfigError::Missing(ConfigKey::FrontendUrl)));
}

#[test]
fn numbers_parse_as_rust_parses_them() {
    assert_eq!(env_or(ConfigKey::Port, s("+80"), 8080, 65535), Ok(80));
    assert_eq!(env_or(ConfigKey::Port, s(" 80"), 8080, 65535), Err(ConfigError::Invalid(ConfigKey::Port)));
    assert_eq!(env_or(ConfigKey::MaxConnections, s("4294967295"), 1, u32::MAX), Ok(u32::MAX));
    assert_eq!(env_or(ConfigKey::MaxConnections, s("4294967296"), 1, u32::MAX), Err(ConfigError::Invalid(ConfigKey::MaxConnections)));
    assert_eq!(env_or(ConfigKey::MaxConnections, None, 1, u32::MAX), Ok(1));
}

#[test]
fn lists_are_trimmed_and_blank_entries_dropped() {
    assert_eq!(env_list(ConfigKey::Regions, s("a,b")), Ok(vec!["a".to_string(), "b".to_string()]));
    assert_eq!(env_list(ConfigKey::Regions, s("\u{3000}a\t, b c ,")), Ok(vec!["a".to_string(), "b c".to_string()]));
    assert_eq!(env_list(ConfigKey::Regions, s("")), Err(ConfigError::EmptyList(ConfigKey::Regions)));
    assert_eq!(env_list(ConfigKey::Regions, None), Err(ConfigError::Missing(ConfigKey::Regions)));
}

#[test]
fn required_variables_must_be_set() {
    assert_eq!(env_required(ConfigKey::FrontendUrl, s("")), Ok(String::new()));
    assert_eq!(env_required(ConfigKey::FrontendUrl, None), Err(ConfigError::Missing(ConfigKey::FrontendUrl)));
}

#[test]
fn secrets_need_the_database_url() {
    assert_eq!(Secrets::load(s("postgres://db")).unwrap().database_url, "postgres://db");
    assert!(matches!(Secrets::load(None), Err(ConfigError::Missing(ConfigKey::DatabaseUrl))));
}

#[test]
fn keys_are_named_after_their_variables() {
    assert_eq!(ConfigKey::VersionSlug.name(), "VERSION_SLUG");
    assert_eq!(ConfigKey::MaxConnections.name(), "MAX_CONNECTIONS");
    assert_eq!(ConfigKey::Port.name(), "PORT");
    assert_eq!(ConfigKey::Regions.name(), "REGIONS");
    assert_eq!(ConfigKey::FrontendUrl.name(), "FRONTEND_URL");
    assert_eq!(ConfigKey::DatabaseUrl.name(), "DATABASE_URL");
}
