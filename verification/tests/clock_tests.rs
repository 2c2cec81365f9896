use memcachr::clock::get_sys_time_in_secs;
use memcachr::clock::micros_of;
use memcachr::clock::read_clock;
use memcachr::clock::secs_of;
use memcachr::clock::unix_time_secs;
use memcachr::clock::SinceEpoch;

#[test]
fn micros_counts_whole_microseconds() {
    assert_eq!(SinceEpoch { secs: 0, subsec_nanos: 0 }.micros(), 0);
    assert_eq!(SinceEpoch { secs: 0, subsec_nanos: 999 }.micros(), 0);
    assert_eq!(SinceEpoch { secs: 0, subsec_nanos: 1000 }.micros(), 1);
    assert_eq!(SinceEpoch { secs: 2, subsec_nanos: 345_678_999 }.micros(), 2_345_678);
    assert_eq!(
        SinceEpoch { secs: u64::MAX, subsec_nanos: 999_999_999 }.micros(),
        18_446_744_073_709_551_615_999_999
    );
}

#[test]
fn the_clock_stands_after_the_year_2020() {
    let reading = read_clock().expect("a clock after the epoch");
    assert!(reading.secs > 1_577_836_800);
    assert!(reading.subsec_nanos < 1_000_000_000);
}

#[test]
fn the_clock_is_read_in_microseconds() {
    let before = unix_time_secs().expect("a clock after the epoch");
    let micros = get_sys_time_in_secs().expect("a clock after the epoch");
    let after = unix_time_secs().expect("a clock after the epoch");
    assert!(micros / 1_000_000 >= before as u128);
    assert!(micros / 1_000_000 <= after as u128);
}

#[test]
fn a_reading_gives_its_microseconds() {
    assert_eq!(micros_of(None), None);
    assert_eq!(micros_of(Some(SinceEpoch { secs: 0, subsec_nanos: 0 })), Some(0));
    assert_eq!(micros_of(Some(SinceEpoch { secs: 7, subsec_nanos: 1_999 })), Some(7_000_001));
    assert_eq!(
        micros_of(Some(SinceEpoch { secs: 1_700_000_000, subsec_nanos: 123_456_789 })),
        Some(1_700_000_000_123_456)
    );
}

#[test]
fn a_reading_gives_its_seconds() {
    assert_eq!(secs_of(None), None);
    assert_eq!(secs_of(Some(SinceEpoch { secs: 0, subsec_nanos: 999_999_999 })), Some(0));
    assert_eq!(secs_of(Some(SinceEpoch { secs: 1_700_000_000, subsec_nanos: 5 })), Some(1_700_000_000));
    assert_eq!(secs_of(Some(SinceEpoch { secs: u64::MAX, subsec_nanos: 0 })), Some(u64::MAX));
}
