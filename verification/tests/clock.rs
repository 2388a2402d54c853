use shell_protocol::clock::{get_timestamp, timestamp_from};

#[test]
fn a_clock_before_the_epoch_reads_as_the_epoch() {
    assert_eq!(timestamp_from(None), 0);
}

#[test]
fn a_clock_after_the_epoch_reads_in_seconds() {
    assert_eq!(timestamp_from(Some(0)), 0);
    assert_eq!(timestamp_from(Some(1_700_000_000)), 1_700_000_000);
    assert_eq!(timestamp_from(Some(u64::MAX)), u64::MAX);
}

#[test]
fn the_system_clock_is_read() {
    let now = get_timestamp();
    assert!(now > 1_600_000_000);
    assert!(now < 100_000_000_000);
}
