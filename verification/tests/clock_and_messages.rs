use backend::clock::{deadline_at, is_expired, TimeSpan, Timestamp};
use backend::error::Error;
use backend::messages::{PutHR, HR};

#[test]
fn timestamps_count_nanoseconds_since_the_epoch() {
    assert_eq!(Timestamp { secs: 2, nanos: 5 }.total_nanos(), 2_000_000_005);
    assert_eq!(Timestamp { secs: -1, nanos: 999_999_999 }.total_nanos(), -1);
    assert_eq!(
        Timestamp { secs: i64::MAX, nanos: u32::MAX }.total_nanos(),
        i64::MAX as i128 * 1_000_000_000 + u32::MAX as i128
    );
    assert_eq!(Timestamp { secs: i64::MIN, nanos: 0 }.total_nanos(), i64::MIN as i128 * 1_000_000_000);
}

#[test]
fn spans_count_nanoseconds() {
    assert_eq!(TimeSpan::seconds(10).total_nanos(), 10_000_000_000);
    assert_eq!(TimeSpan { secs: 0, nanos: 7 }.total_nanos(), 7);
    assert_eq!(
        TimeSpan { secs: u64::MAX, nanos: u32::MAX }.total_nanos(),
        u64::MAX as i128 * 1_000_000_000 + u32::MAX as i128
    );
}

#[test]
fn the_deadline_lies_one_lifetime_before_now() {
    let now = Timestamp { secs: 100, nanos: 500 };
    assert_eq!(deadline_at(&now, &TimeSpan::seconds(10)), 90_000_000_500);
    assert_eq!(deadline_at(&now, &TimeSpan { secs: 0, nanos: 0 }), 100_000_000_500);
}

#[test]
fn expiry_is_strict() {
    let lifetime = TimeSpan::seconds(10);
    let now = Timestamp { secs: 100, nanos: 0 };
    assert!(!is_expired(&Timestamp { secs: 90, nanos: 0 }, &now, &lifetime));
    assert!(is_expired(&Timestamp { secs: 89, nanos: 999_999_999 }, &now, &lifetime));
    assert!(!is_expired(&Timestamp { secs: 95, nanos: 0 }, &now, &lifetime));
    assert!(!is_expired(&now, &now, &TimeSpan { secs: 0, nanos: 0 }));
}

#[test]
fn a_sample_starts_without_a_cue_at_the_time_given() {
    let now = Timestamp { secs: 12, nanos: 34 };
    let record = HR::from_put_at(PutHR { hr: 61, volume: Some(3) }, now);
    assert_eq!(record.hr, 61);
    assert_eq!(record.time_utc, now);
    assert_eq!(record.audio_file, "");
    let copy = record.clone();
    assert_eq!(copy.hr, 61);
    assert_eq!(copy.time_utc, now);
    assert_eq!(copy.audio_file, "");
}

#[test]
fn a_sample_converted_now_carries_the_time_of_the_wall_clock() {
    let record = HR::from(PutHR { hr: 72, volume: None });
    assert_eq!(record.hr, 72);
    assert_eq!(record.audio_file, "");
    // 2020-01-01T00:00:00Z; the wall clock of a machine that runs this is later.
    assert!(record.time_utc.secs > 1_577_836_800);
    assert!(record.time_utc.nanos < 1_000_000_000);
}

#[test]
fn the_failure_carries_its_message() {
    let error = Error::counters_exhausted();
    assert_eq!(error.message(), "a counter has run out of numbers");
    let Error::GeneralError(text) = error;
    assert_eq!(text, "a counter has run out of numbers");
}
