use tlq::config::{Config, LogLevel};

#[test]
fn test_default_config() {
    let config = Config::default();
    assert_eq!(config.port, 1337);
    assert_eq!(config.max_message_size, 65536);
    assert_eq!(config.log_level, "info");
}

#[test]
fn test_ports() {
    let test_cases = vec![
        ("8080", 8080, "valid port"),
        ("not-a-port", 1337, "invalid string"),
        ("99999", 1337, "out of range"),
        ("", 1337, "empty string"),
    ];

    for (input, expected_port, description) in test_cases {
        let config = Config::from_parts(Some(input.to_string()), None, None);
        assert_eq!(
            config.port, expected_port,
            "Failed for {}: input '{}'",
            description, input
        );
    }
}

#[test]
fn test_message_sizes() {
    let test_cases = vec![
        ("1024", 1024, "raw bytes"),
        ("64K", 64 * 1024, "uppercase K suffix"),
        ("128k", 128 * 1024, "lowercase k suffix"),
        ("abc", 65536, "invalid format"),
        ("K", 65536, "just K"),
        ("0", 65536, "zero value"),
        ("0k", 65536, "zero with k suffix"),
        ("", 65536, "empty string"),
    ];

    for (input, expected_size, description) in test_cases {
        let config = Config::from_parts(None, Some(input.to_string()), None);
        assert_eq!(
            config.max_message_size, expected_size,
            "Failed for {}: input '{}'",
            description, input
        );
    }
}

#[test]
fn test_log_levels() {
    let test_cases = vec![
        ("trace", LogLevel::Trace),
        ("debug", LogLevel::Debug),
        ("info", LogLevel::Info),
        ("warn", LogLevel::Warn),
        ("warning", LogLevel::Warn),
        ("error", LogLevel::Error),
        ("INFO", LogLevel::Info),
        ("Info", LogLevel::Info),
        ("invalid", LogLevel::Info),
        ("", LogLevel::Info),
    ];

    for (input, expected_level) in test_cases {
        let config = Config::from_parts(None, None, Some(input.to_string()));
        assert_eq!(config.log_level, input);
        assert_eq!(
            config.tracing_level(),
            expected_level,
            "Failed for log level: {}",
            input
        );
    }
}

#[test]
fn test_multiple_env_vars() {
    let config = Config::from_parts(
        Some("3000".to_string()),
        Some("32K".to_string()),
        Some("debug".to_string()),
    );
    assert_eq!(config.port, 3000);
    assert_eq!(config.max_message_size, 32 * 1024);
    assert_eq!(config.log_level, "debug");
}

#[test]
fn test_partial_env_vars() {
    let config = Config::from_parts(Some("5000".to_string()), None, None);
    assert_eq!(config.port, 5000);
    assert_eq!(config.max_message_size, 65536);
    assert_eq!(config.log_level, "info");
}

#[test]
fn test_parse_size_helper() {
    // Valid cases
    assert_eq!(Config::parse_size("1024"), Some(1024));
    assert_eq!(Config::parse_size("64K"), Some(65536));
    assert_eq!(Config::parse_size("64k"), Some(65536));
    assert_eq!(Config::parse_size("1K"), Some(1024));

    // Invalid cases
    assert_eq!(Config::parse_size(""), None);
    assert_eq!(Config::parse_size("0"), None);
    assert_eq!(Config::parse_size("0K"), None);
    assert_eq!(Config::parse_size("K"), None);
    assert_eq!(Config::parse_size("abc"), None);
    assert_eq!(Config::parse_size("-1"), None);
}
