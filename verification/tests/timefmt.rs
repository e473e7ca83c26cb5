use agent_witness::rfc3339::epoch_ms_from_rfc3339;
use agent_witness::timefmt::{format_duration_ms, format_offset_ms, format_utc};

#[test]
fn format_utc_matches_known_epoch() {
    // 1_700_000_000 s == 2023-11-14T22:13:20Z (a widely-cited round epoch).
    assert_eq!(format_utc(1_700_000_000_000), "2023-11-14 22:13:20Z");
}

#[test]
fn format_utc_at_unix_epoch() {
    assert_eq!(format_utc(0), "1970-01-01 00:00:00Z");
}

#[test]
fn format_utc_handles_a_leap_day() {
    // 2024-02-29T12:00:00Z — verifies leap-year handling.
    let ms = 1_709_208_000_000;
    assert_eq!(format_utc(ms), "2024-02-29 12:00:00Z");
}

#[test]
fn format_duration_renders_each_magnitude() {
    assert_eq!(format_duration_ms(850), "850ms");
    assert_eq!(format_duration_ms(1_200), "1.2s");
    assert_eq!(format_duration_ms(123_000), "2m03s");
}

#[test]
fn format_duration_clamps_negative_to_zero() {
    assert_eq!(format_duration_ms(-5), "0ms");
}

#[test]
fn format_offset_pads_millis() {
    assert_eq!(format_offset_ms(0), "+0.000s");
    assert_eq!(format_offset_ms(12_345), "+12.345s");
    assert_eq!(format_offset_ms(-1), "+0.000s");
}

#[test]
fn shown_times_are_read_back_to_the_second() {
    for (ms, text) in [
        (1_700_000_000_789, "2023-11-14 22:13:20Z"),
        (1_709_208_000_000, "2024-02-29 12:00:00Z"),
        (-1, "1969-12-31 23:59:59Z"),
        (-62_167_219_200_000, "0000-01-01 00:00:00Z"),
        (253_402_300_799_999, "9999-12-31 23:59:59Z"),
    ] {
        assert_eq!(format_utc(ms), text);
        assert_eq!(
            epoch_ms_from_rfc3339(text),
            Some(ms - ms.rem_euclid(1000)),
            "{text}"
        );
    }
    // A year of five digits is shown, and not read.
    assert_eq!(format_utc(253_402_300_800_000), "10000-01-01 00:00:00Z");
    assert_eq!(epoch_ms_from_rfc3339("10000-01-01 00:00:00Z"), None);
}
