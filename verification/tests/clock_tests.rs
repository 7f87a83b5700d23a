use std::time::{Duration, SystemTime, UNIX_EPOCH};

use ruid::clock::{clock_kept_pace, timestamp, timestamp_from_elapsed};
use ruid::config::{standard_layout, EPOCH_MS, MAX_TIMESTAMP};
use ruid::error::RuidError;
use ruid::layout::BitLayout;

#[test]
fn elapsed_milliseconds_become_the_timestamp() {
    let layout = standard_layout();
    assert_eq!(timestamp_from_elapsed(&layout, Some(0)), Ok(0));
    assert_eq!(timestamp_from_elapsed(&layout, Some(1000)), Ok(1000));
    assert_eq!(timestamp_from_elapsed(&layout, Some(MAX_TIMESTAMP as u128)), Ok(MAX_TIMESTAMP));
}

#[test]
fn a_clock_before_the_epoch_is_refused() {
    let layout = standard_layout();
    assert_eq!(timestamp_from_elapsed(&layout, None), Err(RuidError::ClockBeforeEpoch));
}

#[test]
fn elapsed_time_beyond_the_field_is_refused() {
    let layout = standard_layout();
    assert_eq!(
        timestamp_from_elapsed(&layout, Some(MAX_TIMESTAMP as u128 + 1)),
        Err(RuidError::TimestampOverflow)
    );
    assert_eq!(
        timestamp_from_elapsed(&layout, Some(u64::MAX as u128 + 5)),
        Err(RuidError::TimestampOverflow)
    );
    assert_eq!(timestamp_from_elapsed(&layout, Some(u128::MAX)), Err(RuidError::TimestampOverflow));
}

#[test]
fn timestamp_reads_the_clock_since_the_epoch() {
    let layout = standard_layout();
    let epoch = UNIX_EPOCH + Duration::from_millis(EPOCH_MS);
    let before = SystemTime::now().duration_since(epoch).unwrap().as_millis() as u64;
    let t = timestamp(epoch, &layout).unwrap();
    let after = SystemTime::now().duration_since(epoch).unwrap().as_millis() as u64;
    assert!(before <= t && t <= after);
    assert!(t <= MAX_TIMESTAMP);
}

#[test]
fn timestamp_with_an_epoch_in_the_future_is_before_the_epoch() {
    let layout = standard_layout();
    let epoch = SystemTime::now() + Duration::from_secs(3600);
    assert_eq!(timestamp(epoch, &layout), Err(RuidError::ClockBeforeEpoch));
}

#[test]
fn timestamp_overflows_a_narrow_field() {
    let layout = BitLayout::new(8, 20, 8, 28).unwrap();
    assert_eq!(timestamp(UNIX_EPOCH, &layout), Err(RuidError::TimestampOverflow));
}

#[test]
fn clock_kept_pace_needs_the_full_wait() {
    assert!(clock_kept_pace(100, 1100, 1000));
    assert!(clock_kept_pace(100, 5000, 1000));
    assert!(!clock_kept_pace(100, 1099, 1000));
    assert!(!clock_kept_pace(100, 100, 1000));
    assert!(!clock_kept_pace(100, 50, 1000));
    assert!(clock_kept_pace(7, 7, 0));
    assert!(!clock_kept_pace(u64::MAX, u64::MAX, 1));
    assert!(!clock_kept_pace(1, 0, u64::MAX));
}
