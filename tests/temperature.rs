use system_monitor::temperature::{
    first_zone_temperature, get_cpu_temperature, parse_scaled_decimal, parse_sensor_line,
    sensor_report_temperature,
};

#[test]
fn decimal_text_is_scaled_and_cut() {
    assert_eq!(parse_scaled_decimal("45000\n", 3), Some(45_000_000));
    assert_eq!(parse_scaled_decimal("  42.5 ", 6), Some(42_500_000));
    assert_eq!(parse_scaled_decimal("-3.25", 6), Some(-3_250_000));
    assert_eq!(parse_scaled_decimal("+7", 0), Some(7));
    assert_eq!(parse_scaled_decimal(".5", 6), Some(500_000));
    assert_eq!(parse_scaled_decimal("5.", 6), Some(5_000_000));
    assert_eq!(parse_scaled_decimal("1.23456789", 6), Some(1_234_567));
    assert_eq!(parse_scaled_decimal("", 6), None);
    assert_eq!(parse_scaled_decimal(".", 6), None);
    assert_eq!(parse_scaled_decimal("12a", 3), None);
    assert_eq!(parse_scaled_decimal("1.2.3", 3), None);
    assert_eq!(parse_scaled_decimal("-", 3), None);
    assert_eq!(parse_scaled_decimal("9223372036854775807", 0), Some(i64::MAX));
    assert_eq!(parse_scaled_decimal("9223372036854775808", 0), None);
    assert_eq!(parse_scaled_decimal("9223372036854775807", 1), None);
}

#[test]
fn thermal_files_read_as_millidegrees() {
    let zones = vec![None, Some("garbage".to_string()), Some("51234\n".to_string())];
    assert_eq!(first_zone_temperature(&zones), Some(51_234_000));
    assert_eq!(first_zone_temperature(&vec![None, None]), None);
}

#[test]
fn sensors_report_is_scanned_line_by_line() {
    assert_eq!(parse_sensor_line("  temp1_input: 48.000"), Some(48_000_000));
    assert_eq!(parse_sensor_line("  temp2_input: 48.000"), None);
    assert_eq!(parse_sensor_line("temp1_input: n/a"), None);
    let lines: Vec<String> = ["coretemp-isa-0000", "Package id 0:", "  temp1_input: x", "  temp1_input: 39.500", "  temp1_input: 70.0"]
        .iter()
        .map(|s| s.to_string())
        .collect();
    assert_eq!(sensor_report_temperature(&lines), Some(39_500_000));
}

#[test]
fn temperature_sources_are_tried_in_order() {
    let report = vec!["  temp1_input: 60.0".to_string()];
    let zones = vec![Some("45000".to_string())];
    assert_eq!(get_cpu_temperature(&zones, Some(&report)), Some(45_000_000));
    assert_eq!(get_cpu_temperature(&vec![None], Some(&report)), Some(60_000_000));
    assert_eq!(get_cpu_temperature(&vec![None], None), None);
}
