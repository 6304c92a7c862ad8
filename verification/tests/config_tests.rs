//! Tests for the runtime configuration helpers.

use apollo_exporter::config::{extract_device_name, Config};
use std::time::Duration;

fn base_config() -> Config {
    Config {
        hosts: vec!["http://192.168.1.100".to_string()],
        names: None,
        port: 9926,
        bind: "0.0.0.0".to_string(),
        poll_interval: 30,
        http_timeout: 10,
        log_level: "info".to_string(),
    }
}

#[test]
fn test_metrics_bind_address() {
    let config = base_config();
    assert_eq!(config.metrics_bind_address(), "0.0.0.0:9926");
}

#[test]
fn test_durations() {
    let mut config = base_config();
    config.poll_interval = 45;
    config.http_timeout = 15;

    assert_eq!(config.poll_interval_duration(), Duration::from_secs(45));
    assert_eq!(config.http_timeout_duration(), Duration::from_secs(15));
}

#[test]
fn test_get_device_names() {
    let mut config_with_names = base_config();
    config_with_names.hosts = vec![
        "http://192.168.1.100".to_string(),
        "http://192.168.1.101:8080".to_string(),
    ];
    config_with_names.names = Some(vec!["Living Room".to_string(), "Bedroom".to_string()]);

    let names = config_with_names.get_device_names();
    assert_eq!(names.len(), 2);
    assert_eq!(
        names[0],
        ("http://192.168.1.100".to_string(), "Living Room".to_string())
    );
    assert_eq!(
        names[1],
        ("http://192.168.1.101:8080".to_string(), "Bedroom".to_string())
    );

    let mut config_without_names = base_config();
    config_without_names.hosts = vec![
        "http://192.168.1.100".to_string(),
        "https://apollo.local".to_string(),
    ];

    let names = config_without_names.get_device_names();
    assert_eq!(names.len(), 2);
    assert_eq!(
        names[0],
        ("http://192.168.1.100".to_string(), "192.168.1.100".to_string())
    );
    assert_eq!(
        names[1],
        ("https://apollo.local".to_string(), "apollo.local".to_string())
    );
}

#[test]
fn test_extract_device_name() {
    assert_eq!(extract_device_name("http://192.168.1.100"), "192.168.1.100");
    assert_eq!(extract_device_name("http://192.168.1.100:8080"), "192.168.1.100");
    assert_eq!(extract_device_name("https://apollo.local"), "apollo.local");
    assert_eq!(extract_device_name("apollo.local"), "apollo.local");
}

#[test]
fn test_get_device_names_short_name_list() {
    // Fewer names than hosts: the extracted name fills the gap.
    let mut config = base_config();
    config.hosts = vec![
        "http://192.168.1.100".to_string(),
        "http://192.168.1.101".to_string(),
    ];
    config.names = Some(vec!["Living Room".to_string()]);

    let names = config.get_device_names();
    assert_eq!(names.len(), 2);
    assert_eq!(names[0].1, "Living Room");
    assert_eq!(names[1].1, "192.168.1.101");
}
