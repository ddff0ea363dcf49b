use raidctl::parse_size;
use raidctl::format_size;
use raidctl::Device;

#[test]
fn parse_size_whole_numbers_with_units() {
    assert_eq!(parse_size("1K"), 1024);
    assert_eq!(parse_size("1KB"), 1024);
    assert_eq!(parse_size("10M"), 10 * 1024 * 1024);
    assert_eq!(parse_size("10MB"), 10 * 1024 * 1024);
    assert_eq!(parse_size("800G"), 800 * 1024 * 1024 * 1024);
    assert_eq!(parse_size("800GB"), 800 * 1024 * 1024 * 1024);
    assert_eq!(parse_size("2T"), 2 * 1024u64.pow(4));
    assert_eq!(parse_size("2TB"), 2 * 1024u64.pow(4));
}

#[test]
fn parse_size_is_case_insensitive_in_the_unit() {
    assert_eq!(parse_size("1k"), 1024);
    assert_eq!(parse_size("1kb"), 1024);
    assert_eq!(parse_size("1Kb"), 1024);
    assert_eq!(parse_size("1kB"), 1024);
    assert_eq!(parse_size("2tb"), 2 * 1024u64.pow(4));
    assert_eq!(parse_size("3m"), 3 * 1024 * 1024);
    assert_eq!(parse_size("4g"), 4 * 1024 * 1024 * 1024);
}

#[test]
fn parse_size_edge_inputs() {
    assert_eq!(parse_size("0"), 0);
    assert_eq!(parse_size(""), 0);
    assert_eq!(parse_size("abc"), 0);
    assert_eq!(parse_size("   "), 0);
    assert_eq!(parse_size("7"), 7);
    assert_eq!(parse_size("  42  "), 42);
}

#[test]
fn parse_size_fractions_floor_exactly() {
    assert_eq!(parse_size("1.5K"), 1536);
    assert_eq!(parse_size(".5K"), 512);
    assert_eq!(parse_size("0.1K"), 102);
    assert_eq!(parse_size("1."), 1);
    assert_eq!(parse_size("931.5G"), 931 * 1024u64.pow(3) + 512 * 1024 * 1024);
}

#[test]
fn parse_size_malformed_numbers_count_as_zero() {
    assert_eq!(parse_size("1.2.3K"), 0);
    assert_eq!(parse_size("."), 0);
    assert_eq!(parse_size("..."), 0);
    assert_eq!(parse_size("+5K"), 0);
}

#[test]
fn parse_size_unknown_unit_means_bytes() {
    assert_eq!(parse_size("123X"), 123);
    assert_eq!(parse_size("123KiB"), 123);
    assert_eq!(parse_size("9 apples"), 9);
}

#[test]
fn parse_size_saturates_at_the_largest_count() {
    assert_eq!(parse_size("99999999999999999999"), u64::MAX);
    assert_eq!(parse_size("999999999T"), u64::MAX);
}

#[test]
fn format_size_unit_ladder() {
    assert_eq!(format_size(0), "0 B");
    assert_eq!(format_size(1023), "1023 B");
    assert_eq!(format_size(1024), "1.0 KB");
    assert_eq!(format_size(1536), "1.5 KB");
    assert_eq!(format_size(10 * 1024 * 1024), "10.0 MB");
    assert_eq!(format_size(3 * 1024u64.pow(3)), "3.0 GB");
    assert_eq!(format_size(2 * 1024u64.pow(4)), "2.0 TB");
    assert_eq!(format_size(1024u64.pow(5)), "1.0 PB");
    assert_eq!(format_size(2048 * 1024u64.pow(5)), "2048.0 PB");
}

#[test]
fn format_size_rounds_ties_to_even() {
    // 1280 bytes is exactly 1.25 KB: the tenths digit rounds to even.
    assert_eq!(format_size(1280), "1.2 KB");
    // 1.35 KB rounds up to 1.4.
    assert_eq!(format_size(1382), "1.3 KB");
    assert_eq!(format_size(1383), "1.4 KB");
}

#[test]
fn device_format_size_two_decimals() {
    let d = |size: u64| Device {
        id: "sda".to_string(),
        path: "/dev/sda".to_string(),
        size,
        model: None,
        serial: None,
    };
    assert_eq!(d(512).format_size(), "512 B");
    assert_eq!(d(2048).format_size(), "2.00 KB");
    assert_eq!(d(1100).format_size(), "1.07 KB");
    assert_eq!(d(800 * 1024u64.pow(3)).format_size(), "800.00 GB");
    assert_eq!(d(3 * 1024u64.pow(4)).format_size(), "3.00 TB");
}

#[test]
fn device_display_name_with_and_without_model() {
    let with_model = Device {
        id: "sda".to_string(),
        path: "/dev/sda".to_string(),
        size: 2048,
        model: Some("Samsung SSD".to_string()),
        serial: None,
    };
    assert_eq!(with_model.display_name(), "/dev/sda (Samsung SSD) - 2.00 KB");
    let without_model = Device {
        id: "sdb".to_string(),
        path: "/dev/sdb".to_string(),
        size: 512,
        model: None,
        serial: Some("Z123".to_string()),
    };
    assert_eq!(without_model.display_name(), "/dev/sdb - 512 B");
}
