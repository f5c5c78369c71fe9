use wikipedia_sz_bot::moment::{Moment, FIRST_SECOND, LAST_SECOND};

#[test]
fn formats_moments() {
    let at = Moment::new(1_767_323_045, 999_999_999).unwrap();
    assert_eq!(at.minute_text(), "2026-01-02 03:04");
    assert_eq!(at.clock_text(), "03:04");
    assert_eq!(at.api_text(), "2026-01-02T03:04:05Z");
}

#[test]
fn tells_the_time_of_day() {
    for (secs, clock) in [
        (0, "00:00"),
        (59, "00:00"),
        (60, "00:01"),
        (86_399, "23:59"),
        (-1, "23:59"),
        (-86_400, "00:00"),
        (36_000, "10:00"),
    ] {
        assert_eq!(Moment::new(secs, 0).unwrap().clock_text(), clock);
    }
    let leap = Moment::new(59, 1_500_000_000).unwrap();
    assert_eq!(leap.clock_text(), "00:00");
    assert_eq!(Moment::new(FIRST_SECOND, 0).unwrap().clock_text(), "00:00");
    assert_eq!(Moment::new(LAST_SECOND, 0).unwrap().clock_text(), "23:59");
}

#[test]
fn reads_moments() {
    let at = Moment::from_rfc3339("2026-01-02T03:04:05Z").unwrap();
    assert_eq!(
        at,
        Moment {
            secs: 1_767_323_045,
            nanos: 0
        }
    );
    let fraction = Moment::from_rfc3339("2026-01-02T03:04:05.5+00:00").unwrap();
    assert_eq!(fraction.nanos, 500_000_000);
    assert_eq!(Moment::from_rfc3339("2026-01-02"), None);
    assert_eq!(Moment::from_rfc3339(""), None);
}

#[test]
fn reading_undoes_the_notation_of_the_api() {
    let at = Moment::new(0, 0).unwrap();
    assert_eq!(Moment::from_rfc3339(&at.api_text()), Some(at));
}

#[test]
fn stays_within_the_calendar() {
    assert!(Moment::new(FIRST_SECOND - 1, 0).is_none());
    assert!(Moment::new(LAST_SECOND + 1, 0).is_none());
    for secs in [FIRST_SECOND, LAST_SECOND] {
        let at = Moment::new(secs, 0).unwrap();
        assert!(!at.minute_text().is_empty());
        assert!(!at.clock_text().is_empty());
        assert!(!at.api_text().is_empty());
    }
    assert!(Moment::new(0, 2_000_000_000).is_none());
}

#[test]
fn knows_leap_seconds() {
    assert!(Moment::new(0, 1_000_000_000).is_none());
    assert!(Moment::new(-2, 1_000_000_000).is_none());
    let leap = Moment::new(-1, 1_000_000_000).unwrap();
    assert_eq!(leap.minute_text(), "1969-12-31 23:59");
    let read = Moment::from_rfc3339("2016-12-31T23:59:60Z").unwrap();
    assert_eq!(Moment::new(read.secs, read.nanos), Some(read));
    assert_eq!(read.clock_text(), "23:59");
}

#[test]
fn orders_moments() {
    let a = Moment::new(5, 7).unwrap();
    let b = Moment::new(5, 8).unwrap();
    let c = Moment::new(6, 0).unwrap();
    assert!(b.is_after(a) && c.is_after(b) && c.is_after(a));
    assert!(!a.is_after(a) && !a.is_after(b));
    assert!(c.is_at_least_after(a, 0));
    assert!(!c.is_at_least_after(a, 1));
    assert!(Moment::new(6, 7).unwrap().is_at_least_after(a, 1));
    assert!(!a.is_at_least_after(c, 0));
}
