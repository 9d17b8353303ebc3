//! Proleptic Gregorian calendar arithmetic with millisecond precision.
//!
//! Dates are plain integer fields; every derived quantity (day number since
//! the epoch, weekday, ordering) is defined by the spec functions below and
//! proved of the executable helpers.

use vstd::prelude::*;

verus! {

/// Smallest year the engine supports.
pub const MIN_YEAR: i32 = 1;

/// Largest year the engine supports; advancing past it is an invalid date.
pub const MAX_YEAR: i32 = 9999;

pub open spec fn is_leap_year(y: int) -> bool {
    y % 4 == 0 && (y % 100 != 0 || y % 400 == 0)
}

pub open spec fn year_length(y: int) -> int {
    if is_leap_year(y) {
        366
    } else {
        365
    }
}

pub open spec fn month_length(y: int, m: int) -> int {
    if m == 2 {
        if is_leap_year(y) {
            29
        } else {
            28
        }
    } else if m == 4 || m == 6 || m == 9 || m == 11 {
        30
    } else {
        31
    }
}

/// Days of year `y` that precede the first day of month `m` (1-based).
pub open spec fn days_before_month(y: int, m: int) -> int
    decreases m,
{
    if m <= 1 {
        0
    } else {
        days_before_month(y, m - 1) + month_length(y, m - 1)
    }
}

/// Days between 1 Jan 1970 and 1 Jan of year `y` (negative before 1970).
pub open spec fn days_before_year(y: int) -> int
    decreases (if y >= 1970 { y - 1970 } else { 1970 - y }),
{
    if y > 1970 {
        days_before_year(y - 1) + year_length(y - 1)
    } else if y < 1970 {
        days_before_year(y + 1) - year_length(y)
    } else {
        0
    }
}

/// Day number of `y-m-d`, counted from the epoch 1 Jan 1970 (day 0).
pub open spec fn epoch_days(y: int, m: int, d: int) -> int {
    days_before_year(y) + days_before_month(y, m) + (d - 1)
}

/// The twelve months of a year cover exactly its length.
pub proof fn lemma_months_fill_year(y: int)
    ensures
        days_before_month(y, 13) == year_length(y),
{
    reveal_with_fuel(days_before_month, 14);
}

/// `days_before_month` grows with the month, between 28 and 31 days per step.
pub proof fn lemma_dbm_mono(y: int, m1: int, m2: int)
    requires
        1 <= m1 <= m2,
    ensures
        days_before_month(y, m1) + 28 * (m2 - m1) <= days_before_month(y, m2)
            <= days_before_month(y, m1) + 31 * (m2 - m1),
    decreases m2 - m1,
{
    if m1 < m2 {
        lemma_dbm_mono(y, m1, m2 - 1);
        assert(days_before_month(y, m2) == days_before_month(y, m2 - 1) + month_length(y, m2 - 1));
        assert(28 <= month_length(y, m2 - 1) <= 31);
    }
}

/// `days_before_year` grows with the year, between 365 and 366 days per step.
pub proof fn lemma_dby_mono(y1: int, y2: int)
    requires
        y1 <= y2,
    ensures
        days_before_year(y1) + 365 * (y2 - y1) <= days_before_year(y2)
            <= days_before_year(y1) + 366 * (y2 - y1),
    decreases y2 - y1,
{
    if y1 < y2 {
        lemma_dby_mono(y1, y2 - 1);
        if y2 > 1970 {
        } else {
            assert(days_before_year(y2 - 1) == days_before_year(y2) - year_length(y2 - 1));
        }
    }
}

/// A valid month/day pair lands inside the year's day range.
pub proof fn lemma_day_ordinal_in_range(y: int, m: int, d: int)
    requires
        1 <= m <= 12,
        1 <= d <= month_length(y, m),
    ensures
        0 <= days_before_month(y, m) + (d - 1) < year_length(y),
{
    lemma_dbm_mono(y, 1, m);
    lemma_dbm_mono(y, m + 1, 13);
    lemma_months_fill_year(y);
    assert(days_before_month(y, m + 1) == days_before_month(y, m) + month_length(y, m));
}

/// Lexicographic order on (year, month, day) agrees with epoch day numbers.
pub proof fn lemma_epoch_days_lex(y1: int, m1: int, d1: int, y2: int, m2: int, d2: int)
    requires
        1 <= m1 <= 12,
        1 <= d1 <= month_length(y1, m1),
        1 <= m2 <= 12,
        1 <= d2 <= month_length(y2, m2),
        y1 < y2 || (y1 == y2 && (m1 < m2 || (m1 == m2 && d1 < d2))),
    ensures
        epoch_days(y1, m1, d1) < epoch_days(y2, m2, d2),
{
    if y1 < y2 {
        lemma_day_ordinal_in_range(y1, m1, d1);
        lemma_day_ordinal_in_range(y2, m2, d2);
        lemma_dby_mono(y1 + 1, y2);
        assert(days_before_year(y1 + 1) == days_before_year(y1) + year_length(y1));
    } else if m1 < m2 {
        lemma_dbm_mono(y1, m1 + 1, m2);
        assert(days_before_month(y1, m1 + 1) == days_before_month(y1, m1) + month_length(y1, m1));
    }
}

/// A date-time of the engine: proleptic Gregorian, no timezone, milliseconds.
#[derive(Clone, Copy, PartialEq, Eq, Structural, Debug)]
pub struct DateTime {
    pub year: i32,
    pub month: u32,
    pub day: u32,
    pub hour: u32,
    pub minute: u32,
    pub second: u32,
    pub millisecond: u32,
}

impl DateTime {
    /// All fields lie in their calendar ranges and the year is supported.
    pub open spec fn wf(self) -> bool {
        &&& MIN_YEAR <= self.year <= MAX_YEAR
        &&& 1 <= self.month <= 12
        &&& 1 <= self.day <= month_length(self.year as int, self.month as int)
        &&& self.hour < 24
        &&& self.minute < 60
        &&& self.second < 60
        &&& self.millisecond < 1000
    }

    /// Day number since the epoch 1 Jan 1970.
    pub open spec fn epoch_day(self) -> int {
        epoch_days(self.year as int, self.month as int, self.day as int)
    }

    /// Milliseconds since the epoch; the canonical ordering value.
    pub open spec fn ts_millis(self) -> int {
        ((self.epoch_day() * 86400 + self.hour * 3600 + self.minute * 60 + self.second) * 1000)
            + self.millisecond
    }
}

/// Day number of the last supported date, 31 Dec of `MAX_YEAR`.
pub open spec fn max_epoch_day() -> int {
    epoch_days(MAX_YEAR as int, 12, 31)
}

/// Weekday of an epoch day number, 0 = Monday; day 0 was a Thursday.
pub open spec fn weekday_from_epoch(ed: int) -> int {
    (ed + 3) % 7
}

/// Every well-formed date lies at or before the last supported day, with
/// equality exactly on 31 Dec of `MAX_YEAR`.
pub proof fn lemma_epoch_day_max(dt: DateTime)
    requires
        dt.wf(),
    ensures
        dt.epoch_day() <= max_epoch_day(),
        dt.epoch_day() == max_epoch_day() <==> (dt.year == MAX_YEAR && dt.month == 12 && dt.day
            == 31),
{
    if dt.year == MAX_YEAR && dt.month == 12 && dt.day == 31 {
    } else {
        lemma_epoch_days_lex(
            dt.year as int,
            dt.month as int,
            dt.day as int,
            MAX_YEAR as int,
            12,
            31,
        );
    }
}

/// Every well-formed date lies at or after 1 Jan of `MIN_YEAR`.
pub proof fn lemma_epoch_day_min(dt: DateTime)
    requires
        dt.wf(),
    ensures
        dt.epoch_day() >= epoch_days(MIN_YEAR as int, 1, 1),
        epoch_days(MIN_YEAR as int, 1, 1) >= -720654,
        max_epoch_day() <= 2938985,
{
    if dt.year == MIN_YEAR && dt.month == 1 && dt.day == 1 {
    } else {
        lemma_epoch_days_lex(
            MIN_YEAR as int,
            1,
            1,
            dt.year as int,
            dt.month as int,
            dt.day as int,
        );
    }
    lemma_dby_mono(MIN_YEAR as int, 1970);
    lemma_dby_mono(1970, MAX_YEAR as int);
    lemma_dbm_mono(MAX_YEAR as int, 1, 12);
}

/// A time of day, to be crossed with a candidate day of the dayset.
#[derive(Clone, Copy, PartialEq, Eq, Structural, Debug)]
pub struct Time {
    pub hour: usize,
    pub minute: usize,
    pub second: usize,
    pub millisecond: usize,
}

impl Time {
    /// Pack the four components.
    pub fn new(hour: usize, minute: usize, second: usize, millisecond: usize) -> (r: Time)
        ensures
            r == (Time { hour, minute, second, millisecond }),
    {
        Time { hour, minute, second, millisecond }
    }
}

/// Whether `y` is a Gregorian leap year.
pub fn leap_year(y: i32) -> (r: bool)
    requires
        MIN_YEAR <= y,
    ensures
        r == is_leap_year(y as int),
{
    y % 4 == 0 && (y % 100 != 0 || y % 400 == 0)
}

/// Number of days in month `m` of year `y`.
pub fn days_in_month(y: i32, m: u32) -> (r: u32)
    requires
        MIN_YEAR <= y,
        1 <= m <= 12,
    ensures
        r == month_length(y as int, m as int),
{
    if m == 2 {
        if leap_year(y) {
            29
        } else {
            28
        }
    } else if m == 4 || m == 6 || m == 9 || m == 11 {
        30
    } else {
        31
    }
}

/// Day number of `year-month-day` since the epoch 1 Jan 1970.
pub fn epoch_day_of(year: i32, month: u32, day: u32) -> (r: i64)
    requires
        MIN_YEAR <= year <= MAX_YEAR,
        1 <= month <= 12,
        1 <= day <= month_length(year as int, month as int),
    ensures
        r == epoch_days(year as int, month as int, day as int),
{
    let mut acc: i64 = 0;
    let mut y: i32 = 1970;
    if year < 1970 {
        while y > year
            invariant
                MIN_YEAR <= year < 1970,
                year <= y <= 1970,
                acc == days_before_year(y as int),
            decreases y - year,
        {
            proof {
                lemma_dby_mono(y as int - 1, 1970);
            }
            y = y - 1;
            acc = acc - if leap_year(y) {
                366
            } else {
                365
            };
        }
    } else {
        while y < year
            invariant
                1970 <= year <= MAX_YEAR,
                1970 <= y <= year,
                acc == days_before_year(y as int),
            decreases year - y,
        {
            proof {
                lemma_dby_mono(1970, y as int + 1);
            }
            acc = acc + if leap_year(y) {
                366
            } else {
                365
            };
            y = y + 1;
        }
    }
    let mut m: u32 = 1;
    let mut macc: i64 = 0;
    while m < month
        invariant
            MIN_YEAR <= year <= MAX_YEAR,
            1 <= m <= month <= 12,
            macc == days_before_month(year as int, m as int),
        decreases month - m,
    {
        proof {
            lemma_dbm_mono(year as int, 1, m as int + 1);
        }
        macc = macc + days_in_month(year, m) as i64;
        m = m + 1;
    }
    proof {
        if year >= 1970 {
            lemma_dby_mono(1970, year as int);
        } else {
            lemma_dby_mono(year as int, 1970);
        }
        lemma_dbm_mono(year as int, 1, month as int);
    }
    acc + macc + (day as i64 - 1)
}

/// Step one calendar day forward, keeping the time of day.
/// Fails only on the last supported date.
pub fn next_day(dt: &DateTime) -> (r: Option<DateTime>)
    requires
        dt.wf(),
    ensures
        match r {
            Some(d2) => d2.wf() && d2.epoch_day() == dt.epoch_day() + 1 && d2.hour == dt.hour
                && d2.minute == dt.minute && d2.second == dt.second && d2.millisecond
                == dt.millisecond,
            None => dt.year == MAX_YEAR && dt.month == 12 && dt.day == 31,
        },
{
    let dim = days_in_month(dt.year, dt.month);
    if dt.day < dim {
        Some(
            DateTime {
                year: dt.year,
                month: dt.month,
                day: dt.day + 1,
                hour: dt.hour,
                minute: dt.minute,
                second: dt.second,
                millisecond: dt.millisecond,
            },
        )
    } else if dt.month < 12 {
        proof {
            assert(days_before_month(dt.year as int, dt.month as int + 1) == days_before_month(
                dt.year as int,
                dt.month as int,
            ) + month_length(dt.year as int, dt.month as int));
        }
        Some(
            DateTime {
                year: dt.year,
                month: dt.month + 1,
                day: 1,
                hour: dt.hour,
                minute: dt.minute,
                second: dt.second,
                millisecond: dt.millisecond,
            },
        )
    } else if dt.year < MAX_YEAR {
        proof {
            lemma_months_fill_year(dt.year as int);
            assert(days_before_month(dt.year as int, 13) == days_before_month(dt.year as int, 12)
                + month_length(dt.year as int, 12));
            if dt.year as int + 1 > 1970 {
                assert(days_before_year(dt.year as int + 1) == days_before_year(dt.year as int)
                    + year_length(dt.year as int));
            } else {
                assert(days_before_year(dt.year as int) == days_before_year(dt.year as int + 1)
                    - year_length(dt.year as int));
            }
        }
        Some(
            DateTime {
                year: dt.year + 1,
                month: 1,
                day: 1,
                hour: dt.hour,
                minute: dt.minute,
                second: dt.second,
                millisecond: dt.millisecond,
            },
        )
    } else {
        None
    }
}

/// Add `n` days, keeping the time of day. Fails exactly when the result
/// would pass the last supported date.
pub fn add_days(dt: &DateTime, n: u64) -> (r: Option<DateTime>)
    requires
        dt.wf(),
    ensures
        match r {
            Some(d2) => d2.wf() && d2.epoch_day() == dt.epoch_day() + n && d2.hour == dt.hour
                && d2.minute == dt.minute && d2.second == dt.second && d2.millisecond
                == dt.millisecond && dt.epoch_day() + n <= max_epoch_day(),
            None => dt.epoch_day() + n > max_epoch_day(),
        },
{
    let mut cur: DateTime = *dt;
    let mut i: u64 = 0;
    while i < n
        invariant
            dt.wf(),
            cur.wf(),
            i <= n,
            cur.epoch_day() == dt.epoch_day() + i,
            cur.hour == dt.hour,
            cur.minute == dt.minute,
            cur.second == dt.second,
            cur.millisecond == dt.millisecond,
        decreases n - i,
    {
        match next_day(&cur) {
            Some(d2) => {
                cur = d2;
                i = i + 1;
            },
            None => {
                proof {
                    lemma_epoch_day_max(cur);
                }
                return None;
            },
        }
    }
    proof {
        lemma_epoch_day_max(cur);
    }
    Some(cur)
}

/// Two well-formed dates with the same epoch day are the same date.
pub proof fn lemma_epoch_day_injective(a: DateTime, b: DateTime)
    requires
        a.wf(),
        b.wf(),
        a.epoch_day() == b.epoch_day(),
    ensures
        a.year == b.year,
        a.month == b.month,
        a.day == b.day,
{
    if a.year < b.year || (a.year == b.year && (a.month < b.month || (a.month == b.month && a.day
        < b.day))) {
        lemma_epoch_days_lex(
            a.year as int,
            a.month as int,
            a.day as int,
            b.year as int,
            b.month as int,
            b.day as int,
        );
    } else if b.year < a.year || (b.year == a.year && (b.month < a.month || (b.month == a.month
        && b.day < a.day))) {
        lemma_epoch_days_lex(
            b.year as int,
            b.month as int,
            b.day as int,
            a.year as int,
            a.month as int,
            a.day as int,
        );
    }
}

/// Whether `a` falls strictly before `b` in time.
pub fn ts_less(a: &DateTime, b: &DateTime) -> (r: bool)
    requires
        a.wf(),
        b.wf(),
    ensures
        r == (a.ts_millis() < b.ts_millis()),
{
    let ed_a = epoch_day_of(a.year, a.month, a.day);
    let ed_b = epoch_day_of(b.year, b.month, b.day);
    if ed_a != ed_b {
        return ed_a < ed_b;
    }
    let tod_a: u64 = (a.hour as u64 * 3600 + a.minute as u64 * 60 + a.second as u64) * 1000
        + a.millisecond as u64;
    let tod_b: u64 = (b.hour as u64 * 3600 + b.minute as u64 * 60 + b.second as u64) * 1000
        + b.millisecond as u64;
    tod_a < tod_b
}

/// Weekday of a date, 0 = Monday .. 6 = Sunday.
pub fn weekday_of(dt: &DateTime) -> (r: u32)
    requires
        dt.wf(),
    ensures
        r == weekday_from_epoch(dt.epoch_day()),
        r < 7,
{
    proof {
        lemma_epoch_day_min(*dt);
        lemma_epoch_day_max(*dt);
    }
    let ed = epoch_day_of(dt.year, dt.month, dt.day);
    let shifted = (ed + 3 + 725760) as u64;
    proof {
        vstd::arithmetic::div_mod::lemma_mod_multiples_vanish(
            103680,
            dt.epoch_day() + 3,
            7,
        );
    }
    (shifted % 7) as u32
}

} // verus!
