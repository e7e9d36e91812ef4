//! Calendar dates, and the calls into `chrono` that read and move them.
//!
//! A date is held as its year, month and day; `chrono::NaiveDate` is only
//! built inside the trusted wrappers below.
use chrono::Datelike;
use vstd::prelude::*;

use crate::text::{decimal, owned, u64_text};

verus! {

/// A date of the proleptic Gregorian calendar.
#[derive(Clone, Copy, Debug, PartialEq, Eq)]
pub struct CalendarDate {
    pub year: i32,
    pub month: u32,
    pub day: u32,
}

impl CalendarDate {
    /// The date as a triple of integers.
    pub open spec fn ymd(self) -> (int, int, int) {
        (self.year as int, self.month as int, self.day as int)
    }
}

/// The smallest year `chrono::NaiveDate` holds.
pub open spec fn min_year() -> int {
    -262143
}

/// The largest year `chrono::NaiveDate` holds.
pub open spec fn max_year() -> int {
    262142
}

pub open spec fn is_leap_year(y: int) -> bool {
    y % 4 == 0 && (y % 100 != 0 || y % 400 == 0)
}

/// The number of days of month `m` of year `y`.
pub open spec fn month_length(y: int, m: int) -> int {
    if m == 2 {
        if is_leap_year(y) {
            29
        } else {
            28
        }
    } else if m == 4 || m == 6 || m == 9 || m == 11 {
        30
    } else {
        31
    }
}

/// `(y, m, d)` names a date that `chrono::NaiveDate` can hold.
pub open spec fn valid_ymd(y: int, m: int, d: int) -> bool {
    &&& min_year() <= y <= max_year()
    &&& 1 <= m <= 12
    &&& 1 <= d <= month_length(y, m)
}

pub open spec fn valid_date(d: CalendarDate) -> bool {
    valid_ymd(d.year as int, d.month as int, d.day as int)
}

/// `a` comes before `b`.
pub open spec fn date_before(a: (int, int, int), b: (int, int, int)) -> bool {
    ||| a.0 < b.0
    ||| a.0 == b.0 && a.1 < b.1
    ||| a.0 == b.0 && a.1 == b.1 && a.2 < b.2
}

/// What `NaiveDate::parse_from_str(s, "%Y-%m-%d")` reads from `s`, if it
/// accepts it.
pub uninterp spec fn ymd_parse(s: Seq<char>) -> Option<(int, int, int)>;

/// The number of days from `earlier` to `later`, as `later - earlier`
/// gives it for two `NaiveDate`s.
pub uninterp spec fn day_span(later: (int, int, int), earlier: (int, int, int)) -> int;

/// The date `n` days after `d` (before, for negative `n`), when
/// `d + Duration::days(n)` does not panic.
pub uninterp spec fn day_shift(d: (int, int, int), n: int) -> Option<(int, int, int)>;

/// The date `n` weeks after `d` (before, for negative `n`), when
/// `d + Duration::weeks(n)` does not panic.
pub uninterp spec fn week_shift(d: (int, int, int), n: int) -> Option<(int, int, int)>;

/// Calls `chrono::NaiveDate::parse_from_str(s, "%Y-%m-%d")`.
///
/// Trusted: the result is what the name `ymd_parse` stands for, and a date
/// that chrono hands out is a valid date of its range. What chrono accepts
/// (signs, digit counts) is left to the name.
#[verifier::external_body]
pub(crate) fn parse_ymd(s: &str) -> (r: Option<CalendarDate>)
    ensures
        match r {
            Some(d) => ymd_parse(s@) == Some(d.ymd()) && valid_date(d),
            None => ymd_parse(s@) is None,
        },
{
    let d = chrono::NaiveDate::parse_from_str(s, "%Y-%m-%d").ok()?;
    Some(CalendarDate { year: d.year(), month: d.month(), day: d.day() })
}

/// Calls `later.signed_duration_since(earlier).num_days()` (that is,
/// `(later - earlier).num_days()`) on the two dates.
///
/// Trusted: the result is `day_span` of the two dates; it is negative exactly
/// when `later` comes before `earlier`, zero exactly when they are the same
/// day, and smaller in size than 2^28 (the whole range of `NaiveDate` spans
/// fewer days).
#[verifier::external_body]
pub(crate) fn days_between(later: CalendarDate, earlier: CalendarDate) -> (r: i64)
    requires
        valid_date(later),
        valid_date(earlier),
    ensures
        r == day_span(later.ymd(), earlier.ymd()),
        (r < 0) == date_before(later.ymd(), earlier.ymd()),
        (r == 0) == (later == earlier),
        -0x1000_0000 < r < 0x1000_0000,
{
    let a = chrono::NaiveDate::from_ymd_opt(later.year, later.month, later.day).unwrap();
    let b = chrono::NaiveDate::from_ymd_opt(earlier.year, earlier.month, earlier.day).unwrap();
    a.signed_duration_since(b).num_days()
}

/// Calls `d.checked_add_signed(TimeDelta::try_days(n)?)`, which is `None`
/// exactly where `d + Duration::days(n)` panics.
///
/// Trusted: the result is `day_shift` of the date and `n`, a valid date when
/// present, and later than `d` when `n` is positive (the whole days of the
/// delta are added to the date).
#[verifier::external_body]
pub(crate) fn shift_days(d: CalendarDate, n: i64) -> (r: Option<CalendarDate>)
    requires
        valid_date(d),
    ensures
        match r {
            Some(x) => day_shift(d.ymd(), n as int) == Some(x.ymd()) && valid_date(x),
            None => day_shift(d.ymd(), n as int) is None,
        },
        n > 0 && r is Some ==> date_before(d.ymd(), r->0.ymd()),
{
    let date = chrono::NaiveDate::from_ymd_opt(d.year, d.month, d.day)?;
    let next = date.checked_add_signed(chrono::TimeDelta::try_days(n)?)?;
    Some(CalendarDate { year: next.year(), month: next.month(), day: next.day() })
}

/// Calls `d.checked_add_signed(TimeDelta::try_weeks(n)?)`, which is `None`
/// exactly where `d + Duration::weeks(n)` panics.
///
/// Trusted: the result is `week_shift` of the date and `n`, a valid date
/// when present, and later than `d` when `n` is positive.
#[verifier::external_body]
pub(crate) fn shift_weeks(d: CalendarDate, n: i64) -> (r: Option<CalendarDate>)
    requires
        valid_date(d),
    ensures
        match r {
            Some(x) => week_shift(d.ymd(), n as int) == Some(x.ymd()) && valid_date(x),
            None => week_shift(d.ymd(), n as int) is None,
        },
        n > 0 && r is Some ==> date_before(d.ymd(), r->0.ymd()),
{
    let date = chrono::NaiveDate::from_ymd_opt(d.year, d.month, d.day)?;
    let next = date.checked_add_signed(chrono::TimeDelta::try_weeks(n)?)?;
    Some(CalendarDate { year: next.year(), month: next.month(), day: next.day() })
}

/// Calls `NaiveDate::from_ymd_opt(year, month, day)`.
///
/// Trusted: it gives the date exactly when month and day name a day of the
/// proleptic Gregorian calendar and the year lies in chrono's range.
#[verifier::external_body]
pub(crate) fn make_date(year: i32, month: u32, day: u32) -> (r: Option<CalendarDate>)
    ensures
        r == (if valid_ymd(year as int, month as int, day as int) {
            Some(CalendarDate { year, month, day })
        } else {
            None
        }),
{
    let d = chrono::NaiveDate::from_ymd_opt(year, month, day)?;
    Some(CalendarDate { year: d.year(), month: d.month(), day: d.day() })
}

/// The day of month of the day before the first of `(year, month)`, when
/// chrono holds both days.
pub open spec fn last_day_before(year: int, month: int) -> Option<int> {
    if 1 <= month <= 12 && min_year() <= year <= max_year() && !(year == min_year() && month
        == 1) {
        if month == 1 {
            Some(month_length(year - 1, 12))
        } else {
            Some(month_length(year, month - 1))
        }
    } else {
        None
    }
}

/// Calls `NaiveDate::from_ymd_opt(year, month, 1)?.pred_opt()?.day()`.
///
/// Trusted: the first of the month exists exactly for a month of chrono's
/// range, and the day before it is the last day of the previous month, which
/// exists unless the first is chrono's smallest date.
#[verifier::external_body]
pub(crate) fn day_before_first_of(year: i32, month: u32) -> (r: Option<u32>)
    ensures
        match r {
            Some(v) => last_day_before(year as int, month as int) == Some(v as int),
            None => last_day_before(year as int, month as int) is None,
        },
{
    let first = chrono::NaiveDate::from_ymd_opt(year, month, 1)?;
    Some(first.pred_opt()?.day())
}

// ---------------------------------------------------------------------------
// Formatting as %Y-%m-%d
// ---------------------------------------------------------------------------

/// `n` in decimal, padded with zeros on the left to at least `w` digits.
pub open spec fn padded(n: nat, w: nat) -> Seq<char>
    decreases w,
{
    if decimal(n).len() >= w {
        decimal(n)
    } else {
        seq!['0'] + padded(n, (w - 1) as nat)
    }
}

/// The year as chrono's `%Y` prints it: four digits for years 0 to 9999,
/// otherwise a sign followed by at least four digits.
pub open spec fn year_text(y: int) -> Seq<char> {
    if 0 <= y <= 9999 {
        padded(y as nat, 4)
    } else if y < 0 {
        seq!['-'] + padded((-y) as nat, 4)
    } else {
        seq!['+'] + padded(y as nat, 4)
    }
}

/// The date as chrono's `%Y-%m-%d` prints it.
pub open spec fn ymd_text(y: int, m: int, d: int) -> Seq<char> {
    year_text(y) + seq!['-'] + padded(m as nat, 2) + seq!['-'] + padded(d as nat, 2)
}

/// `n` in decimal with at least `w` digits.
fn padded_text(n: u64, w: u64) -> (r: String)
    requires
        w <= 8,
    ensures
        r@ == padded(n as nat, w as nat),
    decreases w,
{
    let digits = u64_text(n);
    if digits.unicode_len() as u64 >= w {
        digits
    } else {
        let mut s = owned("0");
        proof {
            reveal_strlit("0");
        }
        let rest = padded_text(n, w - 1);
        s.append(rest.as_str());
        s
    }
}

/// The date formatted as `%Y-%m-%d`, as chrono prints it.
pub fn format_ymd(d: CalendarDate) -> (r: String)
    ensures
        r@ == ymd_text(d.year as int, d.month as int, d.day as int),
{
    let mut s = if 0 <= d.year && d.year <= 9999 {
        padded_text(d.year as u64, 4)
    } else if d.year < 0 {
        let mut t = owned("-");
        proof {
            reveal_strlit("-");
        }
        let mag: u64 = (-(d.year as i64)) as u64;
        t.append(padded_text(mag, 4).as_str());
        t
    } else {
        let mut t = owned("+");
        proof {
            reveal_strlit("+");
        }
        t.append(padded_text(d.year as u64, 4).as_str());
        t
    };
    proof {
        reveal_strlit("-");
    }
    s.append("-");
    s.append(padded_text(d.month as u64, 2).as_str());
    s.append("-");
    s.append(padded_text(d.day as u64, 2).as_str());
    s
}

} // verus!
