use nginx_logs::health::{build_file_health, system_time_to_unix_secs, UnixTime};

fn after(secs: u64, nanos: u32) -> UnixTime {
    UnixTime::after_epoch(secs, nanos).unwrap()
}

fn before(secs: u64, nanos: u32) -> UnixTime {
    UnixTime::before_epoch(secs, nanos).unwrap()
}

#[test]
fn times_have_a_range() {
    assert!(UnixTime::after_epoch(0, 999_999_999).is_some());
    assert!(UnixTime::after_epoch(0, 1_000_000_000).is_none());
    assert!(UnixTime::after_epoch(i64::MAX as u64, 0).is_some());
    assert!(UnixTime::after_epoch(i64::MAX as u64 + 1, 0).is_none());
    assert!(UnixTime::before_epoch(i64::MAX as u64, 999_999_999).is_some());
    assert!(UnixTime::before_epoch(i64::MAX as u64 + 1, 0).is_some());
    assert!(UnixTime::before_epoch(i64::MAX as u64 + 1, 1).is_none());
    assert!(UnixTime::before_epoch(i64::MAX as u64 + 2, 0).is_none());
    assert!(UnixTime::before_epoch(0, 1_000_000_000).is_none());
}

#[test]
fn unix_seconds_are_whole_and_not_negative() {
    assert_eq!(system_time_to_unix_secs(after(0, 0)), 0);
    assert_eq!(system_time_to_unix_secs(after(1_765_000_000, 999_999_999)), 1_765_000_000);
    assert_eq!(system_time_to_unix_secs(after(i64::MAX as u64, 0)), i64::MAX as u64);
    assert_eq!(system_time_to_unix_secs(before(5, 1)), 0);
    assert_eq!(system_time_to_unix_secs(before(0, 1)), 0);
}

#[test]
fn a_log_without_lines_has_no_times() {
    let health = build_file_health(None, 0, after(100, 0));
    assert_eq!(health.last_update_unix, None);
    assert_eq!(health.seconds_since_last_update, None);
    assert_eq!(health.lines_seen, 0);
}

#[test]
fn the_age_is_in_whole_seconds() {
    let health = build_file_health(Some(after(100, 900_000_000)), 7, after(103, 100_000_000));
    assert_eq!(health.last_update_unix, Some(100));
    assert_eq!(health.seconds_since_last_update, Some(2));
    assert_eq!(health.lines_seen, 7);
    let health = build_file_health(Some(after(100, 100_000_000)), 7, after(103, 100_000_000));
    assert_eq!(health.seconds_since_last_update, Some(3));
}

#[test]
fn a_clock_that_went_back_makes_the_age_zero() {
    let health = build_file_health(Some(after(100, 5)), 1, after(100, 4));
    assert_eq!(health.last_update_unix, Some(100));
    assert_eq!(health.seconds_since_last_update, Some(0));
    let health = build_file_health(Some(after(100, 0)), 1, after(40, 0));
    assert_eq!(health.seconds_since_last_update, Some(0));
}

#[test]
fn times_before_the_epoch_still_have_an_age() {
    let health = build_file_health(Some(before(1, 500_000_000)), 1, after(1, 500_000_000));
    assert_eq!(health.last_update_unix, Some(0));
    assert_eq!(health.seconds_since_last_update, Some(3));
    let health = build_file_health(Some(before(2, 1)), 1, before(1, 0));
    assert_eq!(health.seconds_since_last_update, Some(1));
    let health = build_file_health(
        Some(before(i64::MAX as u64, 0)),
        1,
        after(i64::MAX as u64, 0),
    );
    assert_eq!(health.seconds_since_last_update, Some(2 * (i64::MAX as u64)));
}

#[test]
fn the_time_and_the_age_add_up() {
    for (last, now) in [((10, 0), (25, 0)), ((10, 7), (25, 3)), ((10, 3), (25, 7))] {
        let health = build_file_health(Some(after(last.0, last.1)), 1, after(now.0, now.1));
        let sum = health.last_update_unix.unwrap() + health.seconds_since_last_update.unwrap();
        assert!(sum == 24 || sum == 25);
    }
}
