//! Tests for the aggregation tick: per-device folding, failure isolation
//! and snapshot publication.

use apollo_exporter::apollo::{ApolloStatus, SensorValue};
use apollo_exporter::metrics::Metrics;
use apollo_exporter::tick::{run_tick, ProbeOutcome};

fn co2_status(device_name: &str, value_centi: i64) -> ApolloStatus {
    ApolloStatus {
        sensors: vec![(
            "co2".to_string(),
            SensorValue {
                value_centi,
                unit: "ppm".to_string(),
                name: "CO2".to_string(),
            },
        )],
        device_name: device_name.to_string(),
    }
}

#[test]
fn test_tick_isolation() {
    // Two registered devices; one probe always fails. The passing device's
    // metrics update every tick regardless of the other's failures.
    let mut store = Metrics::new();

    let outcomes = vec![
        ProbeOutcome {
            host: "http://192.168.1.100".to_string(),
            device_name: "Broken".to_string(),
            status: None,
        },
        ProbeOutcome {
            host: "http://192.168.1.101".to_string(),
            device_name: "Healthy".to_string(),
            status: Some(co2_status("Healthy", 41000)),
        },
    ];
    let snapshot = run_tick(&mut store, &outcomes);
    assert!(snapshot.contains(
        "apollo_air1_device_up{device=\"Broken\",host=\"http://192.168.1.100\"} 0\n"
    ));
    assert!(snapshot.contains(
        "apollo_air1_device_up{device=\"Healthy\",host=\"http://192.168.1.101\"} 1\n"
    ));
    assert!(snapshot.contains(
        "apollo_air1_co2_ppm{device=\"Healthy\",host=\"http://192.168.1.101\"} 410\n"
    ));

    // Next tick: the healthy device reports a new value, the other still fails.
    let outcomes = vec![
        ProbeOutcome {
            host: "http://192.168.1.100".to_string(),
            device_name: "Broken".to_string(),
            status: None,
        },
        ProbeOutcome {
            host: "http://192.168.1.101".to_string(),
            device_name: "Healthy".to_string(),
            status: Some(co2_status("Healthy", 42500)),
        },
    ];
    let snapshot = run_tick(&mut store, &outcomes);
    assert!(snapshot.contains(
        "apollo_air1_co2_ppm{device=\"Healthy\",host=\"http://192.168.1.101\"} 425\n"
    ));
    assert!(!snapshot.contains("410"));
}

#[test]
fn test_failed_probe_keeps_stale_values() {
    // A device that reported once and then fails keeps its last-known
    // series; only its device_up gauge drops to zero.
    let mut store = Metrics::new();

    let outcomes = vec![ProbeOutcome {
        host: "h1".to_string(),
        device_name: "D1".to_string(),
        status: Some(co2_status("D1", 41000)),
    }];
    let snapshot = run_tick(&mut store, &outcomes);
    assert!(snapshot.contains("apollo_air1_device_up{device=\"D1\",host=\"h1\"} 1\n"));
    assert!(snapshot.contains("apollo_air1_co2_ppm{device=\"D1\",host=\"h1\"} 410\n"));

    let outcomes = vec![ProbeOutcome {
        host: "h1".to_string(),
        device_name: "D1".to_string(),
        status: None,
    }];
    let snapshot = run_tick(&mut store, &outcomes);
    assert!(snapshot.contains("apollo_air1_device_up{device=\"D1\",host=\"h1\"} 0\n"));
    assert!(snapshot.contains("apollo_air1_co2_ppm{device=\"D1\",host=\"h1\"} 410\n"));
}

#[test]
fn test_end_to_end_snapshot() {
    // Device reports PM2.5 = 20.0 and PM10 = 30.0 ug/m3: primary pollutant
    // PM2.5, category Moderate, and both sub-index series populated.
    let mut store = Metrics::new();
    let status = ApolloStatus {
        sensors: vec![
            (
                "pm__2_5_m_weight_concentration".to_string(),
                SensorValue {
                    value_centi: 2000,
                    unit: "µg/m³".to_string(),
                    name: "PM2.5".to_string(),
                },
            ),
            (
                "pm__10_m_weight_concentration".to_string(),
                SensorValue {
                    value_centi: 3000,
                    unit: "µg/m³".to_string(),
                    name: "PM10".to_string(),
                },
            ),
        ],
        device_name: "Air".to_string(),
    };
    let outcomes = vec![ProbeOutcome {
        host: "h".to_string(),
        device_name: "Air".to_string(),
        status: Some(status),
    }];
    let snapshot = run_tick(&mut store, &outcomes);
    assert!(snapshot.contains("apollo_air1_pm2_5_ugm3{device=\"Air\",host=\"h\"} 20\n"));
    assert!(snapshot.contains("apollo_air1_pm10_0_ugm3{device=\"Air\",host=\"h\"} 30\n"));
    assert!(snapshot.contains("apollo_air1_aqi{device=\"Air\",host=\"h\"} 71\n"));
    assert!(snapshot.contains("apollo_air1_aqi_pm25{device=\"Air\",host=\"h\"} 71\n"));
    assert!(snapshot.contains("apollo_air1_aqi_pm10{device=\"Air\",host=\"h\"} 28\n"));
    assert!(snapshot.contains(
        "apollo_air1_aqi_info{device=\"Air\",host=\"h\",category=\"Moderate\",primary_pollutant=\"PM2.5\"} 1\n"
    ));
}
