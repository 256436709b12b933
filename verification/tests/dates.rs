use birthday::date::{month_length, parse_date, Date};

#[test]
fn parse_valid_date() {
    let d = parse_date("1990-03-15").unwrap();
    assert_eq!(d.year, 1990);
    assert_eq!(d.month, 3);
    assert_eq!(d.day, 15);
}

#[test]
fn parse_rejects_bad_shape() {
    assert!(parse_date("").is_none());
    assert!(parse_date("1990-3-15").is_none());
    assert!(parse_date("15-03-1990").is_none());
    assert!(parse_date("1990/03/15").is_none());
    assert!(parse_date("1990-03-15x").is_none());
    assert!(parse_date("199O-03-15").is_none());
}

#[test]
fn parse_rejects_impossible_dates() {
    assert!(parse_date("1990-13-01").is_none());
    assert!(parse_date("1990-00-10").is_none());
    assert!(parse_date("1990-04-31").is_none());
    assert!(parse_date("1990-02-30").is_none());
    assert!(parse_date("0000-01-01").is_none());
}

#[test]
fn parse_handles_leap_days() {
    assert!(parse_date("2024-02-29").is_some());
    assert!(parse_date("2023-02-29").is_none());
    assert!(parse_date("2000-02-29").is_some());
    assert!(parse_date("1900-02-29").is_none());
}

#[test]
fn new_checks_calendar_validity() {
    assert!(Date::new(2024, 2, 29).is_some());
    assert!(Date::new(2023, 2, 29).is_none());
    assert!(Date::new(2024, 0, 1).is_none());
    assert!(Date::new(0, 1, 1).is_none());
    assert!(Date::new(10000, 1, 1).is_none());
}

#[test]
fn month_lengths() {
    assert_eq!(month_length(2023, 2), 28);
    assert_eq!(month_length(2024, 2), 29);
    assert_eq!(month_length(1900, 2), 28);
    assert_eq!(month_length(2000, 2), 29);
    assert_eq!(month_length(2024, 4), 30);
    assert_eq!(month_length(2024, 12), 31);
}

#[test]
fn day_numbers_count_consecutive_days() {
    let a = Date::new(2024, 12, 31).unwrap().number();
    let b = Date::new(2025, 1, 1).unwrap().number();
    assert_eq!(b, a + 1);
    let c = Date::new(2024, 2, 28).unwrap().number();
    let d = Date::new(2024, 3, 1).unwrap().number();
    assert_eq!(d, c + 2);
    let e = Date::new(2023, 2, 28).unwrap().number();
    let f = Date::new(2023, 3, 1).unwrap().number();
    assert_eq!(f, e + 1);
}
