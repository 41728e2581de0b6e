use rbuilder::clock::{Span, Timestamp, MAX_NANOS, MIN_NANOS};

fn at(nanos: i128) -> Timestamp {
    Timestamp::from_unix_timestamp_nanos(nanos).unwrap()
}

#[test]
fn supported_years_are_those_of_dates() {
    assert_eq!(at(MIN_NANOS).unix_timestamp_nanos(), MIN_NANOS);
    assert_eq!(at(MAX_NANOS).unix_timestamp_nanos(), MAX_NANOS);
    assert!(Timestamp::from_unix_timestamp_nanos(MIN_NANOS - 1).is_none());
    assert!(Timestamp::from_unix_timestamp_nanos(MAX_NANOS + 1).is_none());
    assert!(Timestamp::from_unix_timestamp_nanos(i128::MAX).is_none());
    assert!(Timestamp::from_unix_timestamp_nanos(i128::MIN).is_none());
}

#[test]
fn whole_seconds_round_down() {
    assert_eq!(at(0).unix_timestamp(), 0);
    assert_eq!(at(999_999_999).unix_timestamp(), 0);
    assert_eq!(at(1_000_000_000).unix_timestamp(), 1);
    assert_eq!(at(-1).unix_timestamp(), -1);
    assert_eq!(at(-1_000_000_000).unix_timestamp(), -1);
    assert_eq!(at(-1_000_000_001).unix_timestamp(), -2);
    assert_eq!(at(MIN_NANOS).unix_timestamp(), -377_705_116_800);
    assert_eq!(at(MAX_NANOS).unix_timestamp(), 253_402_300_799);
}

#[test]
fn now_is_between_two_readings_of_the_clock() {
    let before = time::OffsetDateTime::now_utc().unix_timestamp_nanos();
    let now = Timestamp::now_utc().unix_timestamp_nanos();
    let after = time::OffsetDateTime::now_utc().unix_timestamp_nanos();
    assert!(before <= now && now <= after);
}

#[test]
fn sums_stay_in_the_supported_years() {
    assert_eq!(at(5).checked_add(-7), Some(at(-2)));
    assert_eq!(at(MAX_NANOS - 1).checked_add(1), Some(at(MAX_NANOS)));
    assert_eq!(at(MAX_NANOS).checked_add(1), None);
    assert_eq!(at(MIN_NANOS).checked_add(-1), None);
    assert_eq!(at(1).checked_add(i128::MAX), None);
    let date = time::OffsetDateTime::from_unix_timestamp_nanos(12_345).unwrap();
    let later = date + time::Duration::new(3, 500);
    assert_eq!(at(12_345).checked_add(3_000_000_500), Some(at(later.unix_timestamp_nanos())));
}

#[test]
fn time_left_is_none_for_what_has_passed() {
    assert_eq!(at(5).time_left(&at(5)), None);
    assert_eq!(at(5).time_left(&at(6)), None);
    assert_eq!(at(6).time_left(&at(5)), Some(Span { seconds: 0, nanoseconds: 1 }));
    assert_eq!(
        at(3_000_000_002).time_left(&at(-1_000_000_000)),
        Some(Span { seconds: 4, nanoseconds: 2 })
    );
    let all = at(MAX_NANOS).time_left(&at(MIN_NANOS)).unwrap();
    assert_eq!(all, Span { seconds: 631_107_417_599, nanoseconds: 999_999_999 });
}
