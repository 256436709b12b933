use vstd::prelude::*;

verus! {

use crate::date::Date;
use crate::date::is_leap_year;
use crate::date::days_in_month;
use crate::date::day_number_of;
use crate::date::valid_ymd;
use crate::date::lemma_within_year_bounds;
use crate::date::lemma_year_boundary;

#[derive(Clone, Copy, Debug, PartialEq, Eq, Structural)]
pub enum BirthdayKind {
    Today,
    Upcoming,
}

/// What a read reports about a stored date of birth: whether the birthday is
/// today, and how many whole days remain until its next occurrence.
#[derive(Clone, Copy, Debug, PartialEq, Eq, Structural)]
pub struct BirthdayStatus {
    pub kind: BirthdayKind,
    pub days_until: u64,
}

/// The stored birthday's month and day re-anchored to year `y`. A February 29
/// date of birth falls back to February 28 in years without a leap day.
pub open spec fn spec_anchored_md(y: int, dob: Date) -> (int, int) {
    if dob.month == 2 && dob.day == 29 && !is_leap_year(y) {
        (2int, 28int)
    } else {
        (dob.month as int, dob.day as int)
    }
}

/// The day ordinal of the birthday's occurrence in year `y`.
pub open spec fn candidate_day_number(y: int, dob: Date) -> int {
    day_number_of(y, spec_anchored_md(y, dob).0, spec_anchored_md(y, dob).1)
}

/// The birthday status of `dob` as seen from `today`: `Today` when this
/// year's occurrence is today, otherwise `Upcoming` with the distance to this
/// year's occurrence if it is still ahead, or to next year's if it has
/// passed.
pub open spec fn spec_evaluate(dob: Date, today: Date) -> BirthdayStatus {
    let c = candidate_day_number(today.year as int, dob);
    let t = today.day_number();
    if c == t {
        BirthdayStatus { kind: BirthdayKind::Today, days_until: 0 }
    } else if c > t {
        BirthdayStatus { kind: BirthdayKind::Upcoming, days_until: (c - t) as u64 }
    } else {
        BirthdayStatus {
            kind: BirthdayKind::Upcoming,
            days_until: (candidate_day_number(today.year as int + 1, dob) - t) as u64,
        }
    }
}

/// Whether year `year` is a leap year.
pub fn leap_year(year: u32) -> (b: bool)
    ensures
        b == is_leap_year(year as int),
{
    (year % 4 == 0 && year % 100 != 0) || year % 400 == 0
}

/// The day ordinal of the birthday's occurrence in year `year`, with the
/// February 29 fallback applied.
fn candidate(year: u32, dob: &Date) -> (n: u64)
    requires
        dob.wf(),
        1 <= year <= 9999,
    ensures
        n as int == candidate_day_number(year as int, *dob),
        valid_ymd(year as int, spec_anchored_md(year as int, *dob).0, spec_anchored_md(
            year as int,
            *dob,
        ).1),
{
    let (m, d): (u32, u32) = if dob.month == 2 && dob.day == 29 && !leap_year(year) {
        (2, 28)
    } else {
        (dob.month, dob.day)
    };
    let cand = Date { year, month: m, day: d };
    assert(cand.wf());
    cand.number()
}

/// Computes the birthday status of `dob` as seen from `today`, exactly as
/// `spec_evaluate` states. The day count is at most 731, and it is zero only
/// when the birthday is today.
pub fn evaluate(dob: &Date, today: &Date) -> (r: BirthdayStatus)
    requires
        dob.wf(),
        today.wf(),
        today.year < 9999,
    ensures
        r == spec_evaluate(*dob, *today),
        r.days_until <= 731,
        r.kind is Upcoming ==> r.days_until >= 1,
{
    let t = today.number();
    let c = candidate(today.year, dob);
    proof {
        lemma_within_year_bounds(
            today.year as int,
            spec_anchored_md(today.year as int, *dob).0,
            spec_anchored_md(today.year as int, *dob).1,
        );
        lemma_within_year_bounds(today.year as int, today.month as int, today.day as int);
    }
    if c == t {
        BirthdayStatus { kind: BirthdayKind::Today, days_until: 0 }
    } else if c > t {
        BirthdayStatus { kind: BirthdayKind::Upcoming, days_until: c - t }
    } else {
        let c2 = candidate(today.year + 1, dob);
        proof {
            lemma_within_year_bounds(
                today.year as int + 1,
                spec_anchored_md(today.year as int + 1, *dob).0,
                spec_anchored_md(today.year as int + 1, *dob).1,
            );
            lemma_year_boundary(today.year as int);
        }
        BirthdayStatus { kind: BirthdayKind::Upcoming, days_until: c2 - t }
    }
}

/// A stored date of birth with today's month and day is a birthday today:
/// the status is `Today` with zero days remaining.
pub proof fn lemma_same_month_day_is_today(dob: Date, today: Date)
    requires
        dob.wf(),
        today.wf(),
        dob.month == today.month,
        dob.day == today.day,
    ensures
        spec_evaluate(dob, today) == (BirthdayStatus { kind: BirthdayKind::Today, days_until: 0 }),
{
    assert(days_in_month(today.year as int, today.month as int) >= today.day as int);
}

} // verus!
