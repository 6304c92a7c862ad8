//! Tests for the metrics store: upsert, removal, deterministic rendering,
//! the channel fold and the stale `aqi_info` retraction.

use apollo_exporter::apollo::{ApolloStatus, SensorValue};
use apollo_exporter::metrics::Metrics;

fn reading(value_centi: i64, unit: &str, name: &str) -> SensorValue {
    SensorValue { value_centi, unit: unit.to_string(), name: name.to_string() }
}

fn labels(pairs: &[(&str, &str)]) -> Vec<(String, String)> {
    pairs.iter().map(|(k, v)| (k.to_string(), v.to_string())).collect()
}

#[test]
fn test_metrics_update() {
    let mut metrics = Metrics::new();

    let sensors = vec![
        ("co2".to_string(), reading(45000, "ppm", "CO2")),
        ("sen55_temperature".to_string(), reading(2250, "°C", "Temperature")),
        ("sen55_humidity".to_string(), reading(4500, "%", "Humidity")),
        ("pm__2_5_m_weight_concentration".to_string(), reading(1250, "µg/m³", "PM2.5")),
    ];

    let status = ApolloStatus { sensors, device_name: "Test Device".to_string() };

    metrics.update_device("192.168.1.100", &status);

    let output = metrics.gather();
    assert!(output.contains("apollo_air1_device_up"));
    assert!(output.contains("apollo_air1_co2_ppm"));
    assert!(output.contains("apollo_air1_temperature_celsius"));
    assert!(output.contains("apollo_air1_humidity_percent"));
    assert!(output.contains("apollo_air1_pm2_5_ugm3"));
    assert!(output.contains("apollo_air1_aqi"));
    assert!(output.contains("450")); // CO2 value
    assert!(output.contains("22.5")); // Temperature value
    assert!(output.contains("45")); // Humidity value
    assert!(output.contains("12.5")); // PM2.5 value
}

#[test]
fn test_device_down_marking() {
    let mut metrics = Metrics::new();

    metrics.mark_device_down("Test Device", "192.168.1.100");

    let output = metrics.gather();
    assert!(output.contains("apollo_air1_device_up"));
    assert!(output.contains(r#"device="Test Device""#));
    assert!(output.contains("} 0"));
}

#[test]
fn test_aqi_calculation_integration() {
    let mut metrics = Metrics::new();

    // PM2.5 at 20.0 ug/m3 yields the Moderate sub-index 71; PM10 at 30.0
    // yields the lower sub-index 28.
    let sensors = vec![
        ("pm__2_5_m_weight_concentration".to_string(), reading(2000, "µg/m³", "PM2.5")),
        ("pm__10_m_weight_concentration".to_string(), reading(3000, "µg/m³", "PM10")),
    ];

    let status = ApolloStatus { sensors, device_name: "Test Device".to_string() };

    metrics.update_device("192.168.1.100", &status);

    let output = metrics.gather();
    assert!(output.contains("apollo_air1_aqi{"));
    assert!(output.contains("71"));

    assert!(output.contains("apollo_air1_aqi_pm25{"));
    assert!(output.contains("apollo_air1_aqi_pm10{"));

    assert!(output.contains("apollo_air1_aqi_info{"));
    assert!(output.contains("category=\"Moderate\""));
    assert!(output.contains("primary_pollutant=\"PM2.5\""));
}

#[test]
fn test_aqi_state_cleanup() {
    let mut metrics = Metrics::new();

    // First update with a Good AQI (5.0 ug/m3 PM2.5).
    let status = ApolloStatus {
        sensors: vec![
            ("pm__2_5_m_weight_concentration".to_string(), reading(500, "µg/m³", "PM2.5")),
        ],
        device_name: "Test Device".to_string(),
    };
    metrics.update_device("192.168.1.100", &status);

    let output = metrics.gather();
    assert!(output.contains("category=\"Good\""));

    // Update to a Moderate AQI (20.0 ug/m3 PM2.5).
    let status = ApolloStatus {
        sensors: vec![
            ("pm__2_5_m_weight_concentration".to_string(), reading(2000, "µg/m³", "PM2.5")),
        ],
        device_name: "Test Device".to_string(),
    };
    metrics.update_device("192.168.1.100", &status);

    let output = metrics.gather();
    // The Moderate series is exposed; no stale Good series survives.
    assert!(output.contains("category=\"Moderate\""));
    assert!(!output.contains("category=\"Good\""));
}

#[test]
fn test_set_remove_render_exact() {
    let mut metrics = Metrics::new();
    assert_eq!(metrics.gather(), "");

    metrics.set("foo", labels(&[("a", "b")]), 150);
    assert_eq!(metrics.gather(), "foo{a=\"b\"} 1.5\n");

    // Upsert replaces the value in place.
    metrics.set("foo", labels(&[("a", "b")]), -25);
    assert_eq!(metrics.gather(), "foo{a=\"b\"} -0.25\n");

    // A second identity renders after the first, in insertion order.
    metrics.set("foo", labels(&[("a", "c")]), 300);
    assert_eq!(metrics.gather(), "foo{a=\"b\"} -0.25\nfoo{a=\"c\"} 3\n");

    // Removing one series deletes exactly that series.
    metrics.remove("foo", &labels(&[("a", "b")]));
    assert_eq!(metrics.gather(), "foo{a=\"c\"} 3\n");

    // Removing an absent series is a no-op.
    metrics.remove("foo", &labels(&[("a", "b")]));
    metrics.remove("bar", &labels(&[("a", "c")]));
    assert_eq!(metrics.gather(), "foo{a=\"c\"} 3\n");
}

#[test]
fn test_rssi_exposed_as_whole_number() {
    let mut metrics = Metrics::new();
    let status = ApolloStatus {
        sensors: vec![("rssi".to_string(), reading(-6250, "dBm", "WiFi RSSI"))],
        device_name: "Test Device".to_string(),
    };
    metrics.update_device("192.168.1.100", &status);

    let output = metrics.gather();
    assert!(output.contains("apollo_air1_wifi_rssi_dbm{device=\"Test Device\",host=\"192.168.1.100\"} -62\n"));
}

#[test]
fn test_unknown_channel_dropped() {
    let mut metrics = Metrics::new();
    let status = ApolloStatus {
        sensors: vec![("mystery_channel".to_string(), reading(100, "", "Mystery"))],
        device_name: "Test Device".to_string(),
    };
    metrics.update_device("192.168.1.100", &status);

    let output = metrics.gather();
    // Only the device-up gauge is exposed; the unknown channel is dropped.
    assert_eq!(
        output,
        "apollo_air1_device_up{device=\"Test Device\",host=\"192.168.1.100\"} 1\n"
    );
}
