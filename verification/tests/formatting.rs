use baras::formatting::{
    europeanize, format_compact, format_duration, format_duration_millis, format_duration_u64,
    format_thousands, format_thousands_eu, maybe_eu,
};

#[test]
fn test_format_compact() {
    assert_eq!(format_compact(0, false), "0");
    assert_eq!(format_compact(500, false), "500");
    assert_eq!(format_compact(999, false), "999");
    assert_eq!(format_compact(1_000, false), "1.00K");
    assert_eq!(format_compact(1_500, false), "1.50K");
    assert_eq!(format_compact(9_999, false), "9.99K");
    assert_eq!(format_compact(10_000, false), "10.00K");
    assert_eq!(format_compact(15_000, false), "15.00K");
    assert_eq!(format_compact(999_999, false), "999.99K");
    assert_eq!(format_compact(1_000_000, false), "1.00M");
    assert_eq!(format_compact(1_500_000, false), "1.50M");
}

#[test]
fn test_format_compact_european() {
    assert_eq!(format_compact(500, true), "500");
    assert_eq!(format_compact(1_500, true), "1,50K");
    assert_eq!(format_compact(15_000, true), "15,00K");
    assert_eq!(format_compact(1_500_000, true), "1,50M");
}

#[test]
fn test_format_thousands() {
    assert_eq!(format_thousands(0), "");
    assert_eq!(format_thousands(500), "500");
    assert_eq!(format_thousands(1_500), "1,500");
    assert_eq!(format_thousands(1_500_000), "1,500,000");
    assert_eq!(format_thousands(-1_500), "-1,500");
}

#[test]
fn test_format_thousands_eu() {
    assert_eq!(format_thousands_eu("1,500,000", false), "1,500,000");
    assert_eq!(format_thousands_eu("1,500,000", true), "1.500.000");
    assert_eq!(format_thousands_eu("500", true), "500");
}

#[test]
fn test_format_duration() {
    assert_eq!(format_duration(0), "0:00");
    assert_eq!(format_duration(59), "0:59");
    assert_eq!(format_duration(60), "1:00");
    assert_eq!(format_duration(125), "2:05");
}

#[test]
fn test_europeanize() {
    assert_eq!(europeanize("1.50K"), "1,50K");
    assert_eq!(europeanize("42.7%"), "42,7%");
    assert_eq!(europeanize("1,500,000"), "1.500.000");
    assert_eq!(europeanize("500"), "500");
}

#[test]
fn compact_edges_around_thresholds() {
    assert_eq!(format_compact(-1, false), "-1");
    assert_eq!(format_compact(-5_000, false), "-5000");
    assert_eq!(format_compact(1_234_567, false), "1.23M");
    assert_eq!(format_compact(1_009, false), "1.00K");
    assert_eq!(format_compact(i64::MAX, false), "9223372036854.77M");
    assert_eq!(format_compact(i64::MIN, true), "-9223372036854775808");
}

#[test]
fn thousands_edges() {
    assert_eq!(format_thousands(1), "1");
    assert_eq!(format_thousands(999), "999");
    assert_eq!(format_thousands(1_000), "1,000");
    assert_eq!(format_thousands(1_001), "1,001");
    assert_eq!(format_thousands(i32::MAX), "2,147,483,647");
    assert_eq!(format_thousands(-999_999), "-999,999");
}

#[test]
fn thousands_eu_leaves_dots_alone() {
    assert_eq!(format_thousands_eu("1.5,0", true), "1.5.0");
    assert_eq!(format_thousands_eu("", true), "");
}

#[test]
fn europeanize_twice_gives_back_the_text() {
    for s in ["1,234.5", "", "12.5%", "a.b,c", "9,999,999"] {
        assert_eq!(europeanize(&europeanize(s)), s);
    }
}

#[test]
fn thousands_eu_is_europeanize_for_grouped_numbers() {
    for n in [0, 7, 1_000, 65_536, 1_500_000, 2_000_000_000] {
        let grouped = format_thousands(n);
        assert_eq!(format_thousands_eu(&grouped, true), europeanize(&grouped));
    }
}

#[test]
fn maybe_eu_switches() {
    assert_eq!(maybe_eu("1.5".to_string(), false), "1.5");
    assert_eq!(maybe_eu("1.5".to_string(), true), "1,5");
}

#[test]
fn duration_edges() {
    assert_eq!(format_duration(3_600), "60:00");
    assert_eq!(format_duration(-125), "-2:-5");
    assert_eq!(format_duration(-5), "0:-5");
    assert_eq!(format_duration_u64(0), "0:00");
    assert_eq!(format_duration_u64(125), "2:05");
    assert_eq!(format_duration_u64(u64::MAX), "307445734561825860:15");
}

#[test]
fn duration_formats_agree_on_non_negative_seconds() {
    for s in [0i64, 1, 59, 60, 61, 3_599, 3_600, 86_399] {
        assert_eq!(format_duration(s), format_duration_u64(s as u64));
    }
}

#[test]
fn duration_millis() {
    assert_eq!(format_duration_millis(0), "0:00.000");
    assert_eq!(format_duration_millis(486), "0:00.486");
    assert_eq!(format_duration_millis(65_250), "1:05.250");
    assert_eq!(format_duration_millis(342_861), "5:42.861");
    assert_eq!(format_duration_millis(59_999), "0:59.999");
    assert_eq!(format_duration_millis(60_000), "1:00.000");
}
