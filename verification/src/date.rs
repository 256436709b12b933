use vstd::prelude::*;

verus! {

use vstd::string::StrSliceExecFns;
use vstd::arithmetic::div_mod::lemma_fundamental_div_mod;
use vstd::arithmetic::div_mod::lemma_fundamental_div_mod_converse;
use vstd::arithmetic::div_mod::lemma_mod_bound;

/// A calendar date in the proleptic Gregorian calendar, years 1 through 9999.
#[derive(Clone, Copy, Debug, PartialEq, Eq, Structural)]
pub struct Date {
    pub year: u32,
    pub month: u32,
    pub day: u32,
}

pub open spec fn is_leap_year(y: int) -> bool {
    (y % 4 == 0 && y % 100 != 0) || y % 400 == 0
}

pub open spec fn days_in_month(y: int, m: int) -> int {
    if m == 2 {
        if is_leap_year(y) {
            29
        } else {
            28
        }
    } else if m == 4 || m == 6 || m == 9 || m == 11 {
        30
    } else {
        31
    }
}

/// Days of the year strictly before month `m` begins.
pub open spec fn days_before_month(y: int, m: int) -> int {
    let base = if m <= 1 {
        0int
    } else if m == 2 {
        31
    } else if m == 3 {
        59
    } else if m == 4 {
        90
    } else if m == 5 {
        120
    } else if m == 6 {
        151
    } else if m == 7 {
        181
    } else if m == 8 {
        212
    } else if m == 9 {
        243
    } else if m == 10 {
        273
    } else if m == 11 {
        304
    } else {
        334
    };
    base + if m >= 3 && is_leap_year(y) {
        1int
    } else {
        0int
    }
}

/// Leap years strictly before year `y`.
pub open spec fn leap_days_before(y: int) -> int {
    (y - 1) / 4 - (y - 1) / 100 + (y - 1) / 400
}

/// The ordinal of a day in the proleptic Gregorian calendar: 0001-01-01 is
/// day 1, and consecutive calendar days have consecutive numbers.
pub open spec fn day_number_of(y: int, m: int, d: int) -> int {
    365 * (y - 1) + leap_days_before(y) + days_before_month(y, m) + d
}

pub open spec fn valid_ymd(y: int, m: int, d: int) -> bool {
    1 <= y <= 9999 && 1 <= m <= 12 && 1 <= d <= days_in_month(y, m)
}

/// Calendar order on dates: year, then month, then day.
pub open spec fn date_lt(a: Date, b: Date) -> bool {
    a.year < b.year || (a.year == b.year && (a.month < b.month || (a.month == b.month
        && a.day < b.day)))
}

impl Date {
    pub open spec fn wf(self) -> bool {
        valid_ymd(self.year as int, self.month as int, self.day as int)
    }

    pub open spec fn day_number(self) -> int {
        day_number_of(self.year as int, self.month as int, self.day as int)
    }

    /// Builds a date after checking that it denotes a real calendar day.
    pub fn new(year: u32, month: u32, day: u32) -> (r: Option<Date>)
        ensures
            r is Some <==> valid_ymd(year as int, month as int, day as int),
            r matches Some(d) ==> d == (Date { year, month, day }),
    {
        if 1 <= year && year <= 9999 && 1 <= month && month <= 12 && 1 <= day && day
            <= month_length(year, month) {
            Some(Date { year, month, day })
        } else {
            None
        }
    }

    /// The day ordinal of this date, as `day_number` states it.
    pub fn number(&self) -> (n: u64)
        requires
            self.wf(),
        ensures
            n as int == self.day_number(),
    {
        let y: u64 = (self.year - 1) as u64;
        let before: u64 = days_before_month_exec(self.year, self.month) as u64;
        365 * y + y / 4 - y / 100 + y / 400 + before + self.day as u64
    }
}

/// The number of days in the given month of the given year.
pub fn month_length(year: u32, month: u32) -> (n: u32)
    requires
        1 <= month <= 12,
    ensures
        n as int == days_in_month(year as int, month as int),
{
    if month == 2 {
        if (year % 4 == 0 && year % 100 != 0) || year % 400 == 0 {
            29
        } else {
            28
        }
    } else if month == 4 || month == 6 || month == 9 || month == 11 {
        30
    } else {
        31
    }
}

fn days_before_month_exec(year: u32, month: u32) -> (n: u32)
    requires
        1 <= month <= 12,
    ensures
        n as int == days_before_month(year as int, month as int),
{
    let base: u32 = if month <= 1 {
        0
    } else if month == 2 {
        31
    } else if month == 3 {
        59
    } else if month == 4 {
        90
    } else if month == 5 {
        120
    } else if month == 6 {
        151
    } else if month == 7 {
        181
    } else if month == 8 {
        212
    } else if month == 9 {
        243
    } else if month == 10 {
        273
    } else if month == 11 {
        304
    } else {
        334
    };
    let leap: u32 = if month >= 3 && ((year % 4 == 0 && year % 100 != 0) || year % 400 == 0) {
        1
    } else {
        0
    };
    base + leap
}

pub open spec fn is_digit(c: char) -> bool {
    ('0' as u32) <= (c as u32) && (c as u32) <= ('9' as u32)
}

pub open spec fn digit_val(c: char) -> int {
    c as u32 - '0' as u32
}

/// A ten-character `YYYY-MM-DD` shape: four digits, dash, two digits, dash,
/// two digits.
pub open spec fn spec_is_date_string(s: Seq<char>) -> bool {
    &&& s.len() == 10
    &&& is_digit(s[0])
    &&& is_digit(s[1])
    &&& is_digit(s[2])
    &&& is_digit(s[3])
    &&& s[4] == '-'
    &&& is_digit(s[5])
    &&& is_digit(s[6])
    &&& s[7] == '-'
    &&& is_digit(s[8])
    &&& is_digit(s[9])
}

pub open spec fn spec_year(s: Seq<char>) -> int {
    1000 * digit_val(s[0]) + 100 * digit_val(s[1]) + 10 * digit_val(s[2]) + digit_val(s[3])
}

pub open spec fn spec_month(s: Seq<char>) -> int {
    10 * digit_val(s[5]) + digit_val(s[6])
}

pub open spec fn spec_day(s: Seq<char>) -> int {
    10 * digit_val(s[8]) + digit_val(s[9])
}

/// The date a string denotes: `Some` exactly when the string has the
/// `YYYY-MM-DD` shape and names a real calendar day.
pub open spec fn spec_parse_date(s: Seq<char>) -> Option<Date> {
    if spec_is_date_string(s) && valid_ymd(spec_year(s), spec_month(s), spec_day(s)) {
        Some(
            Date {
                year: spec_year(s) as u32,
                month: spec_month(s) as u32,
                day: spec_day(s) as u32,
            },
        )
    } else {
        None
    }
}

/// A string that parses at all parses to a well-formed date.
pub proof fn lemma_parsed_wf(s: Seq<char>)
    requires
        spec_parse_date(s) is Some,
    ensures
        spec_parse_date(s)->Some_0.wf(),
{
}

fn digit_of(c: char) -> (r: Option<u32>)
    ensures
        r is Some <==> is_digit(c),
        r matches Some(v) ==> v as int == digit_val(c),
{
    let u = c as u32;
    if ('0' as u32) <= u && u <= ('9' as u32) {
        Some(u - ('0' as u32))
    } else {
        None
    }
}

/// Parses a `YYYY-MM-DD` string into a date, exactly as `spec_parse_date`
/// states.
pub fn parse_date(s: &str) -> (r: Option<Date>)
    ensures
        r == spec_parse_date(s@),
{
    if s.unicode_len() != 10 {
        return None;
    }
    if !(s.get_char(4) == '-') || !(s.get_char(7) == '-') {
        return None;
    }
    let d0 = match digit_of(s.get_char(0)) {
        Some(v) => v,
        None => {
            return None;
        },
    };
    let d1 = match digit_of(s.get_char(1)) {
        Some(v) => v,
        None => {
            return None;
        },
    };
    let d2 = match digit_of(s.get_char(2)) {
        Some(v) => v,
        None => {
            return None;
        },
    };
    let d3 = match digit_of(s.get_char(3)) {
        Some(v) => v,
        None => {
            return None;
        },
    };
    let d5 = match digit_of(s.get_char(5)) {
        Some(v) => v,
        None => {
            return None;
        },
    };
    let d6 = match digit_of(s.get_char(6)) {
        Some(v) => v,
        None => {
            return None;
        },
    };
    let d8 = match digit_of(s.get_char(8)) {
        Some(v) => v,
        None => {
            return None;
        },
    };
    let d9 = match digit_of(s.get_char(9)) {
        Some(v) => v,
        None => {
            return None;
        },
    };
    let year = 1000 * d0 + 100 * d1 + 10 * d2 + d3;
    let month = 10 * d5 + d6;
    let day = 10 * d8 + d9;
    Date::new(year, month, day)
}

proof fn lemma_div_step(n: int, k: int)
    requires
        n >= 1,
        k >= 1,
    ensures
        n / k == (n - 1) / k + if n % k == 0 {
            1int
        } else {
            0int
        },
{
    let q = (n - 1) / k;
    let r = (n - 1) % k;
    lemma_fundamental_div_mod(n - 1, k);
    lemma_mod_bound(n - 1, k);
    if r + 1 == k {
        assert((q + 1) * k == q * k + k) by (nonlinear_arith);
        lemma_fundamental_div_mod_converse(n, k, q + 1, 0);
    } else {
        assert(n == q * k + (r + 1));
        lemma_fundamental_div_mod_converse(n, k, q, r + 1);
    }
}

proof fn lemma_divisor_chain(y: int)
    requires
        y >= 1,
    ensures
        y % 400 == 0 ==> y % 100 == 0,
        y % 100 == 0 ==> y % 4 == 0,
{
    if y % 400 == 0 {
        lemma_fundamental_div_mod(y, 400);
        let a = y / 400;
        assert(y == (4 * a) * 100 + 0) by (nonlinear_arith)
            requires
                y == 400 * a + 0,
        ;
        lemma_fundamental_div_mod_converse(y, 100, 4 * a, 0);
    }
    if y % 100 == 0 {
        lemma_fundamental_div_mod(y, 100);
        let b = y / 100;
        assert(y == (25 * b) * 4 + 0) by (nonlinear_arith)
            requires
                y == 100 * b + 0,
        ;
        lemma_fundamental_div_mod_converse(y, 4, 25 * b, 0);
    }
}

/// Crossing from year `y` to year `y + 1` adds one leap day exactly when `y`
/// itself is a leap year.
proof fn lemma_leap_days_step(y: int)
    requires
        y >= 1,
    ensures
        leap_days_before(y + 1) == leap_days_before(y) + if is_leap_year(y) {
            1int
        } else {
            0int
        },
{
    lemma_div_step(y, 4);
    lemma_div_step(y, 100);
    lemma_div_step(y, 400);
    lemma_divisor_chain(y);
}

proof fn lemma_dbm_mono(y: int, m1: int, m2: int)
    requires
        1 <= m1 < m2 <= 12,
    ensures
        days_before_month(y, m1) + days_in_month(y, m1) <= days_before_month(y, m2),
    decreases m2 - m1,
{
    if m2 > m1 + 1 {
        lemma_dbm_mono(y, m1, m2 - 1);
    }
}

/// December 31 of year `y` is immediately followed by January 1 of `y + 1`.
pub proof fn lemma_year_boundary(y: int)
    requires
        y >= 1,
    ensures
        day_number_of(y, 12, 31) + 1 == day_number_of(y + 1, 1, 1),
{
    lemma_leap_days_step(y);
}

proof fn lemma_first_day_mono(y1: int, y2: int)
    requires
        1 <= y1 <= y2,
    ensures
        day_number_of(y1, 1, 1) <= day_number_of(y2, 1, 1),
    decreases y2 - y1,
{
    if y1 < y2 {
        lemma_first_day_mono(y1, y2 - 1);
        lemma_year_boundary(y2 - 1);
    }
}

/// Every day of a year lies between January 1 and December 31 of that year.
pub proof fn lemma_within_year_bounds(y: int, m: int, d: int)
    requires
        1 <= m <= 12,
        1 <= d <= days_in_month(y, m),
    ensures
        day_number_of(y, 1, 1) <= day_number_of(y, m, d) <= day_number_of(y, 12, 31),
{
    if m < 12 {
        lemma_dbm_mono(y, m, 12);
    }
}

/// Later calendar dates have strictly larger day numbers.
pub proof fn lemma_day_number_mono(a: Date, b: Date)
    requires
        a.wf(),
        b.wf(),
        date_lt(a, b),
    ensures
        a.day_number() < b.day_number(),
{
    if a.year == b.year {
        if a.month < b.month {
            lemma_dbm_mono(a.year as int, a.month as int, b.month as int);
        }
    } else {
        lemma_within_year_bounds(a.year as int, a.month as int, a.day as int);
        lemma_within_year_bounds(b.year as int, b.month as int, b.day as int);
        lemma_year_boundary(a.year as int);
        lemma_first_day_mono(a.year as int + 1, b.year as int);
    }
}

/// Calendar order and day-number order agree on well-formed dates.
pub proof fn lemma_date_order_iff(a: Date, b: Date)
    requires
        a.wf(),
        b.wf(),
    ensures
        date_lt(a, b) <==> a.day_number() < b.day_number(),
        a == b <==> a.day_number() == b.day_number(),
{
    if date_lt(a, b) {
        lemma_day_number_mono(a, b);
    } else if date_lt(b, a) {
        lemma_day_number_mono(b, a);
    }
}

} // verus!
