use std::path::Path;
use zelland::config::{Config, ConfigError};

fn defaults() -> Config {
    Config::with_home(Some("/home/tester"))
}

#[test]
fn test_default_config() {
    let cfg = defaults();
    assert_eq!(cfg.port, 0);
    assert!(cfg.cert_file.is_none());
    assert!(cfg.key_file.is_none());
    // projects_path should end with "code"
    assert!(Path::new(&cfg.projects_path).ends_with("code"));
}

#[test]
fn test_parse_full_config() {
    let input = r#"
port 9090
cert_file "/etc/ssl/cert.pem"
key_file "/etc/ssl/key.pem"
projects_path "/srv/projects"
"#;
    let cfg = Config::parse(input, defaults()).unwrap();
    assert_eq!(cfg.port, 9090);
    assert_eq!(cfg.cert_file.as_deref(), Some("/etc/ssl/cert.pem"));
    assert_eq!(cfg.key_file.as_deref(), Some("/etc/ssl/key.pem"));
    assert_eq!(cfg.projects_path, "/srv/projects");
}

#[test]
fn test_parse_partial_config_uses_defaults() {
    let input = "port 4000\n";
    let cfg = Config::parse(input, defaults()).unwrap();
    assert_eq!(cfg.port, 4000);
    assert!(cfg.cert_file.is_none());
    assert!(cfg.key_file.is_none());
    // projects_path falls back to default ~/code
    assert!(Path::new(&cfg.projects_path).ends_with("code"));
}

#[test]
fn test_parse_empty_config_uses_defaults() {
    let cfg = Config::parse("", defaults()).unwrap();
    assert_eq!(cfg.port, 0);
}

#[test]
fn test_merge_overrides() {
    let mut cfg = defaults();
    cfg.merge(Some(9999), Some("/tmp/projects".to_string()));
    assert_eq!(cfg.port, 9999);
    assert_eq!(cfg.projects_path, "/tmp/projects");
}

#[test]
fn test_merge_none_preserves() {
    let mut cfg = defaults();
    let original_port = cfg.port;
    cfg.merge(None, None);
    assert_eq!(cfg.port, original_port);
}

#[test]
fn test_parse_invalid_kdl() {
    let result = Config::parse("this is not { valid kdl", defaults());
    assert!(matches!(result, Err(ConfigError::Kdl(_))));
}

#[test]
fn with_home_joins_code() {
    assert_eq!(Config::with_home(Some("/home/a")).projects_path, "/home/a/code");
    assert_eq!(Config::with_home(Some("/home/a/")).projects_path, "/home/a/code");
    assert_eq!(Config::with_home(None).projects_path, "");
}

#[test]
fn port_is_truncated_to_16_bits() {
    let cfg = Config::parse("port 65537\n", defaults()).unwrap();
    assert_eq!(cfg.port, 1);
}

#[test]
fn first_node_of_a_name_wins() {
    let cfg = Config::parse("port 1\nport 2\ncert_file 3\n", defaults()).unwrap();
    assert_eq!(cfg.port, 1);
    assert_eq!(cfg.cert_file, None);
}
