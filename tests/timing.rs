use breadlang::timing::format_time;

#[test]
fn durations_read_as_hours_minutes_seconds() {
    assert_eq!(format_time(0), "0s");
    assert_eq!(format_time(999), "0s");
    assert_eq!(format_time(1_000), "1s");
    assert_eq!(format_time(61_000), "1m 1s");
    assert_eq!(format_time(3_600_000), "1h");
    assert_eq!(format_time(3_660_000), "1h 1m");
    assert_eq!(format_time(3_600_000 * 25 + 12_345), "25h 12s");
}
