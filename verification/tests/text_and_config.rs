use rhythmix::config::{config_from_vars, max_file_size_from_var, ServerConfig};
use rhythmix::text::{decimal_string, parse_unsigned};

#[test]
fn test_decimal_string() {
    assert_eq!(decimal_string(0), "0");
    assert_eq!(decimal_string(7), "7");
    assert_eq!(decimal_string(10), "10");
    assert_eq!(decimal_string(10485760), "10485760");
    assert_eq!(decimal_string(u64::MAX), u64::MAX.to_string());
}

#[test]
fn test_parse_unsigned_matches_std() {
    let cases = ["", "+", "-", "0", "+12", "-12", "++1", "65535", "65536", "007", "12a", " 1", "99999999999999999999999"];
    for c in cases {
        assert_eq!(parse_unsigned(c.as_bytes(), 65535), c.parse::<u16>().ok().map(|v| v as u64), "{}", c);
        assert_eq!(parse_unsigned(c.as_bytes(), u64::MAX), c.parse::<u64>().ok(), "{}", c);
    }
}

#[test]
fn test_server_config_default() {
    let config = ServerConfig::default();
    assert_eq!(config.host, "127.0.0.1");
    assert_eq!(config.port, 3000);
    assert_eq!(config.thread_pool_size, 4);
}

#[test]
fn test_load_config_from_env() {
    let config = config_from_vars(
        Some("0.0.0.0".to_string()),
        Some("8080".to_string()),
        Some("8".to_string()),
    );
    assert_eq!(config.host, "0.0.0.0");
    assert_eq!(config.port, 8080);
    assert_eq!(config.thread_pool_size, 8);
}

#[test]
fn test_env_configuration() {
    let config = config_from_vars(
        Some("127.0.0.1".to_string()),
        Some("3000".to_string()),
        Some("4".to_string()),
    );
    assert_eq!(config.host, "127.0.0.1");
    assert_eq!(config.port, 3000);
    assert_eq!(config.thread_pool_size, 4);
}

#[test]
fn test_config_fallbacks() {
    let config = config_from_vars(None, Some("70000".to_string()), Some("four".to_string()));
    assert_eq!(config.host, "127.0.0.1");
    assert_eq!(config.port, 3000);
    assert_eq!(config.thread_pool_size, 4);
    let config = config_from_vars(None, None, None);
    assert_eq!(config.port, 3000);
}

#[test]
fn test_max_file_size_setting() {
    assert_eq!(max_file_size_from_var(None), 10 * 1024 * 1024);
    assert_eq!(max_file_size_from_var(Some("2048".to_string())), 2048);
    assert_eq!(max_file_size_from_var(Some("10MB".to_string())), 10485760);
    assert_eq!(max_file_size_from_var(Some("-1".to_string())), 10485760);
}
