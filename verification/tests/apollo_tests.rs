//! Tests for the sensor-device handling: unit extraction, the channel
//! catalog, the snapshot fold and the connectivity verdict.

use apollo_exporter::apollo::{
    build_status, connection_established, connection_probe_order, extract_unit, known_sensors,
    sensor_url, SensorData,
};

#[test]
fn test_extract_unit() {
    assert_eq!(extract_unit("450 ppm", 45000), "ppm");
    assert_eq!(extract_unit("22.5 °C", 2250), "°C");
    assert_eq!(extract_unit("65 %", 6500), "%");
    assert_eq!(extract_unit("1013.25 hPa", 101325), "hPa");
    assert_eq!(extract_unit("-62 dBm", -6200), "dBm");
    assert_eq!(extract_unit("2.5 µg/m³", 250), "µg/m³");
}

#[test]
fn test_extract_unit_one_decimal_rendering() {
    // The state shows one decimal (22.6) where the exact rendering has two
    // (22.55): only the one-decimal rendering is found.
    assert_eq!(extract_unit("22.6 °C", 2255), "°C");
}

#[test]
fn test_extract_unit_fallback_list() {
    // Neither rendering of the value occurs: fall back to known units.
    assert_eq!(extract_unit("cold °F", 100), "°F");
    assert_eq!(extract_unit("warm °C here", 100), "°C");
    assert_eq!(extract_unit("uptime in s", 99999999), "s");
    assert_eq!(extract_unit("no unit at all", 100), "");
}

#[test]
fn test_known_sensors_catalog() {
    let catalog = known_sensors();
    assert_eq!(catalog.len(), 12);
    assert_eq!(catalog[0].0, "co2");
    assert_eq!(catalog[0].1, "CO2");
    assert_eq!(catalog[4].0, "pm__2_5_m_weight_concentration");
    assert_eq!(catalog[4].1, "PM2.5");
    assert_eq!(catalog[11].0, "rssi");
    assert_eq!(catalog[11].1, "WiFi RSSI");
}

#[test]
fn test_sensor_url() {
    assert_eq!(sensor_url("http://192.168.1.100", "co2"), "http://192.168.1.100/sensor/co2");
}

#[test]
fn test_connection_probe_order() {
    let order = connection_probe_order();
    assert_eq!(order, vec!["co2", "esp_temperature", "uptime"]);
}

#[test]
fn test_connection_established() {
    assert!(connection_established(&vec![true]));
    assert!(connection_established(&vec![false, true]));
    assert!(connection_established(&vec![false, false, true]));
    assert!(!connection_established(&vec![false, false, false]));
    assert!(!connection_established(&vec![]));
}

#[test]
fn test_build_status_partial_device() {
    // A device answering on exactly 2 of the 12 catalog channels yields a
    // status with exactly those 2 readings.
    let mut results: Vec<Option<SensorData>> = Vec::new();
    for _ in 0..12 {
        results.push(None);
    }
    results[0] = Some(SensorData {
        id: "sensor-co2".to_string(),
        value_centi: 52000,
        state: "520 ppm".to_string(),
    });
    results[1] = Some(SensorData {
        id: "sensor-sen55_temperature".to_string(),
        value_centi: 2250,
        state: "22.5 °C".to_string(),
    });

    let status = build_status("Test Device", &results).unwrap();
    assert_eq!(status.device_name, "Test Device");
    assert_eq!(status.sensors.len(), 2);

    let co2 = status.value_of("co2").unwrap();
    assert_eq!(co2, 52000);
    let temp = status.value_of("sen55_temperature").unwrap();
    assert_eq!(temp, 2250);
    assert!(status.value_of("sen55_humidity").is_none());

    // The folded readings carry the extracted unit and the display name.
    let co2_entry = status.sensors.iter().find(|p| p.0 == "co2").unwrap();
    assert_eq!(co2_entry.1.unit, "ppm");
    assert_eq!(co2_entry.1.name, "CO2");
    let temp_entry = status.sensors.iter().find(|p| p.0 == "sen55_temperature").unwrap();
    assert_eq!(temp_entry.1.unit, "°C");
    assert_eq!(temp_entry.1.name, "Temperature");
}

#[test]
fn test_build_status_dead_device() {
    // Zero responding channels: the probe fails as device-unreachable.
    let mut results: Vec<Option<SensorData>> = Vec::new();
    for _ in 0..12 {
        results.push(None);
    }
    assert!(build_status("Test Device", &results).is_none());
}
