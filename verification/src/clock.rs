use vstd::prelude::*;
use chrono::Datelike;

verus! {

use crate::date::Date;
use crate::date::days_in_month;

/// Relies on chrono::Utc::now and chrono::Datelike: the current civil date
/// in UTC as (year, month, day). chrono keeps the month in 1..=12 and the
/// day within that month's length; the year is whatever the clock says.
#[verifier::external_body]
fn utc_today_parts() -> (r: (i32, u32, u32))
    ensures
        1 <= r.1 <= 12,
        1 <= r.2 && r.2 as int <= days_in_month(r.0 as int, r.1 as int),
{
    let now = chrono::Utc::now().date_naive();
    (now.year(), now.month(), now.day())
}

/// The current date in UTC, when it falls in the supported range of years;
/// the result is always well-formed and leaves room for a next-year
/// birthday.
pub fn today() -> (r: Option<Date>)
    ensures
        r matches Some(d) ==> d.wf() && d.year < 9999,
{
    let (y, m, d) = utc_today_parts();
    if 1 <= y && y <= 9998 {
        Some(Date { year: y as u32, month: m, day: d })
    } else {
        None
    }
}

} // verus!
