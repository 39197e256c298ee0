use loom::utils::now_ts;
use loom::utils::timestamp_of;

#[test]
fn now_ts_is_in_milliseconds_since_the_epoch() {
    let a = now_ts();
    let b = now_ts();
    assert!(a > 1_600_000_000_000);
    assert!(a < 100_000_000_000_000);
    assert!(b + 60_000 > a);
}

#[test]
fn timestamp_is_the_elapsed_time_or_zero() {
    assert_eq!(timestamp_of(Some(1_700_000_000_123)), 1_700_000_000_123);
    assert_eq!(timestamp_of(Some(0)), 0);
    assert_eq!(timestamp_of(Some(u128::MAX)), u128::MAX);
    assert_eq!(timestamp_of(None), 0);
}
