//! Tests for the configuration parser and validator.

use localhost::config::parser::{ConfigFormat, ConfigParser};
use localhost::config::server::{ListenerConfig, ServerConfig};
use localhost::config::validation::{ConfigValidator, ValidationErrorType};

#[test]
fn test_config_parser_creation() {
    let parser = ConfigParser::new(ConfigFormat::Toml);
    assert_eq!(parser.format, ConfigFormat::Toml);
}

#[test]
fn test_parse_duration() {
    let parser = ConfigParser::default();
    assert_eq!(parser.parse_duration("30s").unwrap(), 30);
    assert_eq!(parser.parse_duration("5m").unwrap(), 300);
    assert_eq!(parser.parse_duration("1h").unwrap(), 3600);
    assert_eq!(parser.parse_duration("60").unwrap(), 60);
}

#[test]
fn test_parse_size() {
    let parser = ConfigParser::default();
    assert_eq!(parser.parse_size("1024").unwrap(), 1024);
    assert_eq!(parser.parse_size("1KB").unwrap(), 1024);
    assert_eq!(parser.parse_size("1MB").unwrap(), 1024 * 1024);
    assert_eq!(parser.parse_size("1GB").unwrap(), 1024 * 1024 * 1024);
}

#[test]
fn test_parse_bool() {
    let parser = ConfigParser::default();
    assert!(parser.parse_bool("true"));
    assert!(parser.parse_bool("yes"));
    assert!(parser.parse_bool("1"));
    assert!(parser.parse_bool("on"));
    assert!(!parser.parse_bool("false"));
    assert!(!parser.parse_bool("no"));
    assert!(!parser.parse_bool("0"));
}

#[test]
fn test_parse_value() {
    let parser = ConfigParser::default();
    assert_eq!(parser.parse_value("\"hello\""), "hello");
    assert_eq!(parser.parse_value("'world'"), "world");
    assert_eq!(parser.parse_value("test"), "test");
}

#[test]
fn test_detect_format() {
    let parser = ConfigParser::default();
    assert_eq!(parser.detect_format("config.toml"), ConfigFormat::Toml);
    assert_eq!(parser.detect_format("config.json"), ConfigFormat::Json);
    assert_eq!(parser.detect_format("config"), ConfigFormat::Toml);
}

#[test]
fn test_generate_example_config() {
    let example = ConfigParser::generate_example_config();
    assert!(example.contains("[server]"));
    assert!(example.contains("[global]"));
    assert!(example.contains("[vhost.localhost]"));
    assert!(example.contains("listen = \"127.0.0.1:8080\""));
}

#[test]
fn test_parse_whole_config() {
    let parser = ConfigParser::default();
    let text = ConfigParser::generate_example_config();
    let config = parser.parse_content(&text, ConfigFormat::Toml).unwrap();
    assert_eq!(config.listeners.len(), 1);
    assert_eq!(config.listeners[0].port, 8080);
    assert_eq!(config.global.timeouts.read_header, 5);
    assert_eq!(config.global.timeouts.request, 30);
    assert_eq!(config.virtual_hosts.len(), 1);
    assert_eq!(config.virtual_hosts[0].server_name, "localhost");
    assert_eq!(config.virtual_hosts[0].max_body_size, 10 * 1024 * 1024);
    assert_eq!(config.virtual_hosts[0].routes.len(), 1);
}

#[test]
fn test_validator_creation() {
    let validator = ConfigValidator::new();
    assert!(validator.errors().is_empty());
    assert!(validator.warnings().is_empty());
}

#[test]
fn test_validate_empty_listeners() {
    let mut validator = ConfigValidator::new();
    let config = ServerConfig {
        listeners: vec![],
        ..Default::default()
    };
    let result = validator.validate(&config);
    assert!(result.is_err());
    assert!(!validator.errors().is_empty());
}

#[test]
fn test_validate_valid_config() {
    let mut validator = ConfigValidator::new();
    let config = ServerConfig::default();
    let result = validator.validate(&config);
    if result.is_err() {
        println!("Validation errors: {:?}", validator.errors());
    }
}

#[test]
fn test_validate_duplicate_listeners() {
    let mut validator = ConfigValidator::new();
    let config = ServerConfig {
        listeners: vec![
            ListenerConfig {
                address: "127.0.0.1".to_string(),
                port: 8080,
                default: true,
            },
            ListenerConfig {
                address: "127.0.0.1".to_string(),
                port: 8080,
                default: false,
            },
        ],
        ..Default::default()
    };
    let result = validator.validate(&config);
    assert!(result.is_err());
    assert!(validator
        .errors()
        .iter()
        .any(|e| e.message.contains("Duplicate")));
}

#[test]
fn test_validate_http_methods() {
    let validator = ConfigValidator::new();
    assert!(validator.is_valid_http_method("GET"));
    assert!(validator.is_valid_http_method("POST"));
    assert!(validator.is_valid_http_method("get"));
    assert!(!validator.is_valid_http_method("INVALID"));
}

#[test]
fn test_validate_redirect_status() {
    let validator = ConfigValidator::new();
    assert!(validator.is_valid_redirect_status(301));
    assert!(validator.is_valid_redirect_status(302));
    assert!(!validator.is_valid_redirect_status(200));
    assert!(!validator.is_valid_redirect_status(404));
}

#[test]
fn test_validation_error_display() {
    let error = localhost::config::validation::ValidationError {
        field: "test.field".to_string(),
        message: "Test error message".to_string(),
        error_type: ValidationErrorType::Required,
    };
    let display = error.describe();
    assert!(display.contains("test.field"));
    assert!(display.contains("Test error message"));
    assert!(display.contains("Required"));
}
