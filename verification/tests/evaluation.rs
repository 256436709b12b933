use birthday::birthday::{evaluate, BirthdayKind, BirthdayStatus};
use birthday::date::Date;
use birthday::text::{decimal_string, greeting, not_found_message};

fn date(y: u32, m: u32, d: u32) -> Date {
    Date::new(y, m, d).unwrap()
}

#[test]
fn birthday_today() {
    let st = evaluate(&date(1990, 3, 15), &date(2024, 3, 15));
    assert_eq!(st, BirthdayStatus { kind: BirthdayKind::Today, days_until: 0 });
}

#[test]
fn birthday_wraps_across_year_boundary() {
    let st = evaluate(&date(1993, 1, 5), &date(2024, 12, 30));
    assert_eq!(st.kind, BirthdayKind::Upcoming);
    assert_eq!(st.days_until, 6);
}

#[test]
fn passed_birthday_counts_to_next_year() {
    let st = evaluate(&date(1993, 1, 10), &date(2024, 6, 1));
    assert_eq!(st.kind, BirthdayKind::Upcoming);
    assert_eq!(st.days_until, 223);
}

#[test]
fn birthday_tomorrow_is_one_day_away() {
    let st = evaluate(&date(2000, 3, 16), &date(2024, 3, 15));
    assert_eq!(st.kind, BirthdayKind::Upcoming);
    assert_eq!(st.days_until, 1);
}

#[test]
fn leap_day_birthday_falls_back_to_february_28() {
    let st = evaluate(&date(2000, 2, 29), &date(2023, 2, 28));
    assert_eq!(st, BirthdayStatus { kind: BirthdayKind::Today, days_until: 0 });

    let st = evaluate(&date(2000, 2, 29), &date(2023, 3, 1));
    assert_eq!(st.kind, BirthdayKind::Upcoming);
    assert_eq!(st.days_until, 365);

    let st = evaluate(&date(2000, 2, 29), &date(2024, 2, 29));
    assert_eq!(st, BirthdayStatus { kind: BirthdayKind::Today, days_until: 0 });
}

#[test]
fn greeting_messages() {
    let today = BirthdayStatus { kind: BirthdayKind::Today, days_until: 0 };
    assert_eq!(greeting("alice", &today), "Hello, alice! Happy birthday!");
    let soon = BirthdayStatus { kind: BirthdayKind::Upcoming, days_until: 6 };
    assert_eq!(greeting("alice", &soon), "Hello, alice! Your birthday is in 6 day(s)");
    let far = BirthdayStatus { kind: BirthdayKind::Upcoming, days_until: 365 };
    assert_eq!(greeting("Bob", &far), "Hello, Bob! Your birthday is in 365 day(s)");
}

#[test]
fn decimal_renderings() {
    assert_eq!(decimal_string(0), "0");
    assert_eq!(decimal_string(7), "7");
    assert_eq!(decimal_string(42), "42");
    assert_eq!(decimal_string(100), "100");
    assert_eq!(decimal_string(731), "731");
}

#[test]
fn not_found_text() {
    assert_eq!(not_found_message("ghost"), "Username: ghost not found");
}
