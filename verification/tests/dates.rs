use ftx_fetch::date::{days_to_date, date_to_days, parse_date, CivilDate};
use ftx_fetch::resolve::{resolution_valid, resolve, TimeWindow};

#[test]
fn parses_a_plain_date() {
    let d = parse_date("2023-01-01").unwrap();
    assert_eq!(d, CivilDate { year: 2023, month: 1, day: 1 });
}

#[test]
fn parses_a_leap_day() {
    let d = parse_date("2024-02-29").unwrap();
    assert_eq!(d, CivilDate { year: 2024, month: 2, day: 29 });
}

#[test]
fn rejects_a_nonexistent_leap_day() {
    assert!(parse_date("2023-02-29").is_err());
}

#[test]
fn rejects_unpadded_dates() {
    assert!(parse_date("2023-1-1").is_err());
    assert!(parse_date("2023-01-1").is_err());
}

#[test]
fn rejects_garbage_dates() {
    assert!(parse_date("").is_err());
    assert!(parse_date("not-a-date").is_err());
    assert!(parse_date("2023-13-01").is_err());
    assert!(parse_date("2023-00-10").is_err());
    assert!(parse_date("2023-04-31").is_err());
    assert!(parse_date("2023/01/01").is_err());
}

#[test]
fn epoch_day_of_known_dates() {
    assert_eq!(date_to_days(&CivilDate { year: 1970, month: 1, day: 1 }), 0);
    assert_eq!(date_to_days(&CivilDate { year: 2023, month: 1, day: 1 }), 19358);
    assert_eq!(date_to_days(&CivilDate { year: 1969, month: 12, day: 31 }), -1);
    assert_eq!(date_to_days(&CivilDate { year: 2000, month: 3, day: 1 }), 11017);
}

#[test]
fn epoch_day_round_trips() {
    for n in [0i64, 1, 59, 19358, 719162, 2932896] {
        let d = days_to_date(n);
        assert_eq!(date_to_days(&d), n);
    }
}

#[test]
fn resolves_a_two_date_window() {
    let w = resolve("2023-01-01", Some("2023-01-02"), 0, 0, 0).unwrap();
    assert_eq!(w, TimeWindow { start: 1672531200, end: 1672703999 });
}

#[test]
fn resolves_one_day_to_its_own_end() {
    let w = resolve("2023-01-01", Some("2023-01-01"), 0, 0, 0).unwrap();
    assert_eq!(w.start, 1672531200);
    assert_eq!(w.end, 1672531200 + 86399);
    assert!(w.start <= w.end);
}

#[test]
fn resolves_against_a_zone_offset() {
    // One hour east of UTC: local midnight falls an hour earlier in UTC.
    let w = resolve("2023-01-01", Some("2023-01-01"), 0, 3600, 3600).unwrap();
    assert_eq!(w.start, 1672531200 - 3600);
    assert_eq!(w.end, 1672531200 + 86399 - 3600);
}

#[test]
fn missing_end_date_means_now() {
    let now = 1_700_000_000;
    let w = resolve("2023-01-01", None, now, 0, 0).unwrap();
    assert_eq!(w.start, 1672531200);
    assert_eq!(w.end, now);
}

#[test]
fn resolve_propagates_date_errors() {
    assert!(resolve("2023-1-01", Some("2023-01-02"), 0, 0, 0).is_err());
    assert!(resolve("2023-01-01", Some("2023-01-32"), 0, 0, 0).is_err());
}

#[test]
fn legal_resolutions_are_accepted() {
    for r in [15u32, 60, 300, 900, 3600, 14400, 86400, 2 * 86400, 30 * 86400] {
        assert!(resolution_valid(r));
    }
}

#[test]
fn illegal_resolutions_are_rejected() {
    for r in [0u32, 1, 30, 100, 7200, 86401, 31 * 86400, 86400 * 2 + 1] {
        assert!(!resolution_valid(r));
    }
}
