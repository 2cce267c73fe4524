use chrono::{DateTime, Utc};
use platypus::clock::{Stamp, FIRST_SECOND, LAST_SECOND};

#[test]
fn the_calendar_ends_where_chrono_ends() {
    assert_eq!(FIRST_SECOND, DateTime::<Utc>::MIN_UTC.timestamp());
    assert_eq!(LAST_SECOND, DateTime::<Utc>::MAX_UTC.timestamp());
}

#[test]
fn a_moment_off_the_calendar_is_refused() {
    assert!(Stamp::new(0, 0, 0).is_some());
    assert!(Stamp::new(FIRST_SECOND - 1, 0, 0).is_none());
    assert!(Stamp::new(LAST_SECOND + 1, 0, 0).is_none());
    assert!(Stamp::new(0, 1_000_000_000, 0).is_none());
    assert!(Stamp::new(0, 0, 86_400).is_none());
    assert!(Stamp::new(0, 0, -86_400).is_none());
}

#[test]
fn a_moment_is_written_in_local_time() {
    let s = Stamp::new(1_789_307_000, 5, 7200).unwrap();
    assert_eq!(s.second_text(), "2026-09-13 15:43:20");
    assert_eq!(s.minute_text(), "2026-09-13 15:43");
    assert_eq!(s.file_text(), "2026-09-13_15-43");
    assert_eq!(s.iso_text(), "2026-09-13T15:43:20.000+02:00");
    let before = Stamp::new(0, 0, -1).unwrap();
    assert_eq!(before.second_text(), "1969-12-31 23:59:59");
}

#[test]
fn the_ends_of_the_calendar_can_be_written() {
    for secs in [FIRST_SECOND, LAST_SECOND] {
        for offset in [-86_399, 0, 86_399] {
            let s = Stamp::new(secs, 999_999_999, offset).unwrap();
            assert!(!s.second_text().is_empty());
            assert!(!s.minute_text().is_empty());
            assert!(!s.file_text().is_empty());
        }
    }
}

#[test]
fn time_passes_in_whole_units() {
    let a = Stamp::new(100, 900_000_000, 0).unwrap();
    let b = Stamp::new(161, 100_000_000, 3600).unwrap();
    assert_eq!(a.millis_until(&b), 60_200);
    assert_eq!(a.seconds_until(&b), 60);
    assert_eq!(a.minutes_until(&b), 1);
    assert_eq!(b.millis_until(&a), 0);
    assert_eq!(b.seconds_until(&a), 0);
    assert_eq!(b.minutes_until(&a), 0);
    let first = Stamp::new(FIRST_SECOND, 0, 0).unwrap();
    let last = Stamp::new(LAST_SECOND, 999_999_999, 0).unwrap();
    assert_eq!(
        first.millis_until(&last) as i128,
        (LAST_SECOND as i128 - FIRST_SECOND as i128) * 1000 + 999
    );
}

#[test]
fn a_moment_has_later_moments() {
    let s = Stamp::new(1_789_307_000, 987_654_321, -12_600).unwrap();
    assert_eq!(s.iso_text(), "2026-09-13T10:13:20.987-03:30");
    let next = s.later(61_013).unwrap();
    assert_eq!(next.iso_text(), "2026-09-13T10:14:22.000-03:30");
    assert_eq!(s.millis_until(&next), 61_013);
    assert_eq!(s.later(0).unwrap().iso_text(), s.iso_text());
    let last = Stamp::new(LAST_SECOND, 999_000_000, 0).unwrap();
    assert!(last.later(0).is_some());
    assert!(last.later(1).is_none());
    assert!(s.later(u64::MAX).is_none());
}
