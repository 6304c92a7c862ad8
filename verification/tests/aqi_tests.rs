//! Tests for the AQI derivation: truncation, per-pollutant interpolation,
//! boundary and saturation behaviour, and the overall result.

use apollo_exporter::aqi::{
    calculate_aqi, calculate_pollutant_aqi, pm10_breakpoints, pm25_breakpoints, truncate_pm10,
    truncate_pm25, AqiCategory, Pollutant,
};

#[test]
fn test_pm25_aqi_calculation() {
    // Good range (0.0-9.0 ug/m3 -> AQI 0-50), concentrations in tenths
    let table = pm25_breakpoints();
    assert_eq!(calculate_pollutant_aqi(50, &table), Some(28));
    assert_eq!(calculate_pollutant_aqi(90, &table), Some(50));

    // Moderate range (9.1-35.4 ug/m3 -> AQI 51-100)
    assert_eq!(calculate_pollutant_aqi(120, &table), Some(56));
    assert_eq!(calculate_pollutant_aqi(200, &table), Some(71));
    assert_eq!(calculate_pollutant_aqi(354, &table), Some(100));
}

#[test]
fn test_truncation() {
    // PM2.5 truncation to one decimal: hundredths in, tenths out
    assert_eq!(truncate_pm25(1234), 123);
    assert_eq!(truncate_pm25(1239), 123);
    assert_eq!(truncate_pm25(1200), 120);

    // PM10 truncation to a whole number: hundredths in, whole out
    assert_eq!(truncate_pm10(5490), 54);
    assert_eq!(truncate_pm10(5500), 55);
    assert_eq!(truncate_pm10(10070), 100);
}

#[test]
fn test_pm10_aqi_calculation() {
    // Good range, concentrations in whole micrograms
    let table = pm10_breakpoints();
    assert_eq!(calculate_pollutant_aqi(25, &table), Some(23));
    assert_eq!(calculate_pollutant_aqi(54, &table), Some(50));

    // Moderate range
    assert_eq!(calculate_pollutant_aqi(100, &table), Some(73));
}

#[test]
fn test_overall_aqi_calculation() {
    // PM2.5 higher than PM10 (20.0 and 30.0 ug/m3, in hundredths)
    let result = calculate_aqi(Some(2000), Some(3000)).unwrap();
    assert_eq!(result.aqi, 71);
    assert_eq!(result.category, AqiCategory::Moderate);
    assert_eq!(result.primary_pollutant, Pollutant::Pm25);
    assert_eq!(result.pm25_aqi, Some(71));
    assert_eq!(result.pm10_aqi, Some(28));

    // PM10 higher than PM2.5 (5.0 and 100.0 ug/m3)
    let result = calculate_aqi(Some(500), Some(10000)).unwrap();
    assert_eq!(result.aqi, 73);
    assert_eq!(result.category, AqiCategory::Moderate);
    assert_eq!(result.primary_pollutant, Pollutant::Pm10);
    assert_eq!(result.pm25_aqi, Some(28));
    assert_eq!(result.pm10_aqi, Some(73));

    // Only PM2.5 available (15.0 ug/m3)
    let result = calculate_aqi(Some(1500), None).unwrap();
    assert_eq!(result.aqi, 62);
    assert_eq!(result.primary_pollutant, Pollutant::Pm25);
    assert_eq!(result.pm25_aqi, Some(62));
    assert_eq!(result.pm10_aqi, None);

    // No data available
    assert!(calculate_aqi(None, None).is_none());
}

#[test]
fn test_aqi_categories() {
    assert_eq!(AqiCategory::from_aqi(25), AqiCategory::Good);
    assert_eq!(AqiCategory::from_aqi(75), AqiCategory::Moderate);
    assert_eq!(AqiCategory::from_aqi(125), AqiCategory::UnhealthyForSensitiveGroups);
    assert_eq!(AqiCategory::from_aqi(175), AqiCategory::Unhealthy);
    assert_eq!(AqiCategory::from_aqi(250), AqiCategory::VeryUnhealthy);
    assert_eq!(AqiCategory::from_aqi(450), AqiCategory::Hazardous);
}

#[test]
fn test_category_strings() {
    assert_eq!(AqiCategory::Good.as_str(), "Good");
    assert_eq!(AqiCategory::Moderate.as_str(), "Moderate");
    assert_eq!(
        AqiCategory::UnhealthyForSensitiveGroups.as_str(),
        "Unhealthy for Sensitive Groups"
    );
}

#[test]
fn test_breakpoint_boundaries_exact() {
    // Every row's concentration endpoints map exactly to its index endpoints.
    let pm25 = pm25_breakpoints();
    for bp in pm25.iter() {
        assert_eq!(calculate_pollutant_aqi(bp.conc_lo, &pm25), Some(bp.index_lo));
        assert_eq!(calculate_pollutant_aqi(bp.conc_hi, &pm25), Some(bp.index_hi));
    }
    let pm10 = pm10_breakpoints();
    for bp in pm10.iter() {
        assert_eq!(calculate_pollutant_aqi(bp.conc_lo, &pm10), Some(bp.index_lo));
        assert_eq!(calculate_pollutant_aqi(bp.conc_hi, &pm10), Some(bp.index_hi));
    }
}

#[test]
fn test_saturation_above_scale() {
    // Above the final upper bound the index saturates to 500.
    let pm25 = pm25_breakpoints();
    assert_eq!(calculate_pollutant_aqi(10000, &pm25), Some(500));
    let pm10 = pm10_breakpoints();
    assert_eq!(calculate_pollutant_aqi(1000, &pm10), Some(500));
}

#[test]
fn test_below_scale_yields_none() {
    let pm25 = pm25_breakpoints();
    assert_eq!(calculate_pollutant_aqi(-10, &pm25), None);
    let pm10 = pm10_breakpoints();
    assert_eq!(calculate_pollutant_aqi(-1, &pm10), None);
}

#[test]
fn test_tie_keeps_pm25_primary() {
    // 9.0 ug/m3 PM2.5 and 54 ug/m3 PM10 both map to exactly 50.
    let result = calculate_aqi(Some(900), Some(5400)).unwrap();
    assert_eq!(result.pm25_aqi, Some(50));
    assert_eq!(result.pm10_aqi, Some(50));
    assert_eq!(result.aqi, 50);
    assert_eq!(result.primary_pollutant, Pollutant::Pm25);
}

#[test]
fn test_zero_concentration_still_reports() {
    // A zero concentration is a valid reading with sub-index 0, not "no data".
    let result = calculate_aqi(Some(0), None).unwrap();
    assert_eq!(result.aqi, 0);
    assert_eq!(result.category, AqiCategory::Good);
    assert_eq!(result.primary_pollutant, Pollutant::Pm25);
}
