use log_series::calendar::{civil_from_epoch, civil_to_epoch, CivilTime};
use log_series::timestamp::{format_timestamp, normalize_timestamp, TsFormat};

fn civil(year: u64, month: u64, day: u64, hour: u64, minute: u64, second: u64) -> CivilTime {
    CivilTime { year, month, day, hour, minute, second }
}

#[test]
fn test_add_points() {
    // 2021-12-01T20:03:49.145Z, fraction truncated.
    let input = "2021-12-01T20:03:49.145Z";
    let ts = normalize_timestamp(TsFormat::IsoMillis, input.as_bytes());
    assert_eq!(ts, Some(1638389029));
}

#[test]
fn test_iso_without_zone_marker() {
    let ts = normalize_timestamp(TsFormat::IsoMillis, "2021-12-01T20:03:49.145".as_bytes());
    assert_eq!(ts, Some(1638389029));
}

#[test]
fn test_iso_longer_fraction() {
    let ts = normalize_timestamp(TsFormat::IsoMillis, "2021-12-01T20:03:49.145678Z".as_bytes());
    assert_eq!(ts, Some(1638389029));
}

#[test]
fn test_space_format() {
    let ts = normalize_timestamp(TsFormat::Space, "2021-11-26 11:19:28".as_bytes());
    assert_eq!(ts, Some(1637925568));
}

#[test]
fn test_epoch_zero() {
    let ts = normalize_timestamp(TsFormat::Space, "1970-01-01 00:00:00".as_bytes());
    assert_eq!(ts, Some(0));
    assert_eq!(format_timestamp(0), b"1970-01-01 00:00:00".to_vec());
}

#[test]
fn test_leap_day() {
    let ts = normalize_timestamp(TsFormat::Space, "2020-02-29 00:00:00".as_bytes());
    assert_eq!(ts, Some(1582934400));
}

#[test]
fn test_rejects_invalid_dates() {
    // Not a leap year.
    assert_eq!(normalize_timestamp(TsFormat::Space, "2021-02-29 00:00:00".as_bytes()), None);
    // Month out of range.
    assert_eq!(normalize_timestamp(TsFormat::Space, "2021-13-01 00:00:00".as_bytes()), None);
    // Before the epoch.
    assert_eq!(normalize_timestamp(TsFormat::Space, "1969-12-31 23:59:59".as_bytes()), None);
    // Wrong field widths.
    assert_eq!(normalize_timestamp(TsFormat::Space, "2021-1-1 0:0:0".as_bytes()), None);
    // Hour out of range.
    assert_eq!(normalize_timestamp(TsFormat::Space, "2021-11-26 24:00:00".as_bytes()), None);
    // ISO shape handed to the space format.
    assert_eq!(normalize_timestamp(TsFormat::Space, "2021-12-01T20:03:49.145".as_bytes()), None);
    // No fractional digits in the ISO format.
    assert_eq!(normalize_timestamp(TsFormat::IsoMillis, "2021-12-01T20:03:49.".as_bytes()), None);
}

#[test]
fn test_round_trip_epoch_values() {
    // Formatting an epoch value and re-normalizing it yields the value back.
    for &e in &[0u64, 1, 86399, 86400, 1582934400, 1637925568, 1638389029] {
        let text = format_timestamp(e);
        assert_eq!(normalize_timestamp(TsFormat::Space, &text), Some(e));
    }
    assert_eq!(format_timestamp(1637925568), b"2021-11-26 11:19:28".to_vec());
}

#[test]
fn test_civil_to_epoch_values() {
    assert_eq!(civil_to_epoch(&civil(2021, 11, 26, 11, 19, 28)), Some(1637925568));
    assert_eq!(civil_to_epoch(&civil(1970, 1, 1, 0, 0, 1)), Some(1));
    assert_eq!(civil_to_epoch(&civil(2021, 2, 29, 0, 0, 0)), None);
}

#[test]
fn test_civil_from_epoch_values() {
    assert_eq!(civil_from_epoch(1637925568), civil(2021, 11, 26, 11, 19, 28));
    assert_eq!(civil_from_epoch(0), civil(1970, 1, 1, 0, 0, 0));
    assert_eq!(civil_from_epoch(1582934400), civil(2020, 2, 29, 0, 0, 0));
}

#[test]
fn test_normalization_monotonic_sample() {
    // Lines in file order with non-decreasing timestamps normalize in order.
    let a = normalize_timestamp(TsFormat::Space, "2021-11-26 11:19:28".as_bytes()).unwrap();
    let b = normalize_timestamp(TsFormat::Space, "2021-11-26 11:19:29".as_bytes()).unwrap();
    let c = normalize_timestamp(TsFormat::Space, "2021-12-01 00:00:00".as_bytes()).unwrap();
    assert!(a <= b && b <= c);
}
