//! One expansion cycle of a rule: counter advancement, day filtering and the
//! time-of-day set.

use vstd::prelude::*;
use crate::datetime::{
    DateTime, MAX_YEAR, MIN_YEAR, Time, add_days, days_in_month, epoch_days, lemma_epoch_day_max,
    lemma_epoch_day_min, lemma_epoch_days_lex, max_epoch_day, month_length, ts_less,
    weekday_from_epoch, weekday_of,
};
use crate::error::RRuleIterError;
use crate::iterinfo::IterInfo;
use crate::options::{Frequenzy, ParsedOptions};
use crate::utils::{contains_isize, contains_usize, includes, includes_isize, passes};

verus! {

/// Ten years of hours: the infeasibility bound of hourly advancement.
pub const HOUR_SPAN_LIMIT: u64 = 365 * 24 * 10;

/// Ten years of minutes: the infeasibility bound of minutely advancement.
pub const MINUTE_SPAN_LIMIT: u64 = 365 * 24 * 60 * 10;

/// Ten years of seconds: the infeasibility bound of secondly advancement.
pub const SECOND_SPAN_LIMIT: u64 = 365 * 24 * 60 * 60 * 10;

/// `d`, pulled back into the month `y-m` if the month is shorter.
pub open spec fn clamped_day(y: int, m: int, d: int) -> int {
    if d <= month_length(y, m) {
        d
    } else {
        month_length(y, m)
    }
}

/// The date `c` moved to year `y` and month `m`, with the day clamped to the
/// target month's length and the time of day kept.
pub open spec fn clamped_date(c: DateTime, y: int, m: int) -> DateTime {
    DateTime {
        year: y as i32,
        month: m as u32,
        day: clamped_day(y, m, c.day as int) as u32,
        hour: c.hour,
        minute: c.minute,
        second: c.second,
        millisecond: c.millisecond,
    }
}

/// Move `date` to `new_month` (and `new_year` when given), clamping the day
/// of month down to the target month's last day when it would not exist.
pub fn decrement_date_until_valid(
    date: DateTime,
    new_month: u32,
    new_year: Option<i32>,
) -> (r: Result<DateTime, RRuleIterError>)
    requires
        date.wf(),
        1 <= new_month <= 12,
        new_year matches Some(y) ==> MIN_YEAR <= y <= MAX_YEAR,
    ensures
        ({
            let y = match new_year {
                Some(ny) => ny as int,
                None => date.year as int,
            };
            r matches Ok(d2) && d2 == clamped_date(date, y, new_month as int) && d2.wf()
        }),
{
    let y = match new_year {
        Some(ny) => ny,
        None => date.year,
    };
    let dim = days_in_month(y, new_month);
    let day = if date.day <= dim {
        date.day
    } else {
        dim
    };
    Ok(
        DateTime {
            year: y,
            month: new_month,
            day,
            hour: date.hour,
            minute: date.minute,
            second: date.second,
            millisecond: date.millisecond,
        },
    )
}

/// Total hours since the counter's midnight qualify when the wrapped hour of
/// day is admitted by BYHOUR.
pub open spec fn hour_qualifies(byhour: Seq<usize>, h: int) -> bool {
    passes(byhour, h % 24)
}

/// Total minutes since the counter's midnight qualify when the wrapped hour
/// and minute of day are admitted by BYHOUR and BYMINUTE.
pub open spec fn minute_qualifies(byhour: Seq<usize>, byminute: Seq<usize>, t: int) -> bool {
    passes(byhour, (t / 60) % 24) && passes(byminute, t % 60)
}

/// Total seconds since the counter's midnight qualify when the wrapped hour,
/// minute and second of day are admitted by the three BY-sets.
pub open spec fn second_qualifies(
    byhour: Seq<usize>,
    byminute: Seq<usize>,
    bysecond: Seq<usize>,
    t: int,
) -> bool {
    passes(byhour, (t / 3600) % 24) && passes(byminute, (t / 60) % 60) && passes(bysecond, t % 60)
}

/// First qualifying hour mark strictly after `h` in steps of `interval`,
/// or -1 when none lies within the ten-year bound.
pub open spec fn next_hour_mark(h: int, interval: int, byhour: Seq<usize>) -> int
    decreases HOUR_SPAN_LIMIT - h,
{
    if interval < 1 || h < 0 || h + interval > HOUR_SPAN_LIMIT {
        -1
    } else if hour_qualifies(byhour, h + interval) {
        h + interval
    } else {
        next_hour_mark(h + interval, interval, byhour)
    }
}

/// First qualifying minute mark strictly after `t` in steps of `interval`,
/// or -1 when none lies within the ten-year bound.
pub open spec fn next_minute_mark(
    t: int,
    interval: int,
    byhour: Seq<usize>,
    byminute: Seq<usize>,
) -> int
    decreases MINUTE_SPAN_LIMIT - t,
{
    if interval < 1 || t < 0 || t + interval > MINUTE_SPAN_LIMIT {
        -1
    } else if minute_qualifies(byhour, byminute, t + interval) {
        t + interval
    } else {
        next_minute_mark(t + interval, interval, byhour, byminute)
    }
}

/// First qualifying second mark strictly after `t` in steps of `interval`,
/// or -1 when none lies within the ten-year bound.
pub open spec fn next_second_mark(
    t: int,
    interval: int,
    byhour: Seq<usize>,
    byminute: Seq<usize>,
    bysecond: Seq<usize>,
) -> int
    decreases SECOND_SPAN_LIMIT - t,
{
    if interval < 1 || t < 0 || t + interval > SECOND_SPAN_LIMIT {
        -1
    } else if second_qualifies(byhour, byminute, bysecond, t + interval) {
        t + interval
    } else {
        next_second_mark(t + interval, interval, byhour, byminute, bysecond)
    }
}

/// A found mark lies at least one interval past the starting point and never
/// beyond the bound.
pub proof fn lemma_next_hour_mark_lb(h: int, interval: int, byhour: Seq<usize>)
    ensures
        next_hour_mark(h, interval, byhour) == -1 || (h + interval <= next_hour_mark(
            h,
            interval,
            byhour,
        ) <= HOUR_SPAN_LIMIT),
    decreases HOUR_SPAN_LIMIT - h,
{
    if interval >= 1 && h >= 0 && h + interval <= HOUR_SPAN_LIMIT && !hour_qualifies(
        byhour,
        h + interval,
    ) {
        lemma_next_hour_mark_lb(h + interval, interval, byhour);
    }
}

/// A found mark lies at least one interval past the starting point and never
/// beyond the bound.
pub proof fn lemma_next_minute_mark_lb(
    t: int,
    interval: int,
    byhour: Seq<usize>,
    byminute: Seq<usize>,
)
    ensures
        next_minute_mark(t, interval, byhour, byminute) == -1 || (t + interval <= next_minute_mark(
            t,
            interval,
            byhour,
            byminute,
        ) <= MINUTE_SPAN_LIMIT),
    decreases MINUTE_SPAN_LIMIT - t,
{
    if interval >= 1 && t >= 0 && t + interval <= MINUTE_SPAN_LIMIT && !minute_qualifies(
        byhour,
        byminute,
        t + interval,
    ) {
        lemma_next_minute_mark_lb(t + interval, interval, byhour, byminute);
    }
}

/// A found mark lies at least one interval past the starting point and never
/// beyond the bound.
pub proof fn lemma_next_second_mark_lb(
    t: int,
    interval: int,
    byhour: Seq<usize>,
    byminute: Seq<usize>,
    bysecond: Seq<usize>,
)
    ensures
        next_second_mark(t, interval, byhour, byminute, bysecond) == -1 || (t + interval
            <= next_second_mark(t, interval, byhour, byminute, bysecond) <= SECOND_SPAN_LIMIT),
    decreases SECOND_SPAN_LIMIT - t,
{
    if interval >= 1 && t >= 0 && t + interval <= SECOND_SPAN_LIMIT && !second_qualifies(
        byhour,
        byminute,
        bysecond,
        t + interval,
    ) {
        lemma_next_second_mark_lb(t + interval, interval, byhour, byminute, bysecond);
    }
}

/// What advancing the counter by one step of the rule's frequency yields:
/// the exact relation between the counter, the options, the `filtered` flag
/// of the preceding cycle, and the outcome.
pub open spec fn counter_advanced(
    counter: DateTime,
    options: ParsedOptions,
    filtered: bool,
    r: Result<DateTime, RRuleIterError>,
) -> bool {
    let interval = options.interval as int;
    match options.freq {
        Frequenzy::Yearly => {
            let y2 = counter.year + interval;
            if y2 > MAX_YEAR {
                r == Err::<DateTime, RRuleIterError>(RRuleIterError::InvalidDate)
            } else {
                r == Ok::<DateTime, RRuleIterError>(
                    clamped_date(counter, y2, counter.month as int),
                )
            }
        },
        Frequenzy::Monthly => {
            let t = counter.month - 1 + interval;
            let y2 = counter.year + t / 12;
            let m2 = t % 12 + 1;
            if y2 > MAX_YEAR {
                r == Err::<DateTime, RRuleIterError>(RRuleIterError::InvalidDate)
            } else {
                r == Ok::<DateTime, RRuleIterError>(clamped_date(counter, y2, m2))
            }
        },
        Frequenzy::Weekly => {
            let w = weekday_from_epoch(counter.epoch_day());
            let delta = interval * 7 - ((w - options.wkst) % 7);
            if counter.epoch_day() + delta > max_epoch_day() {
                r == Err::<DateTime, RRuleIterError>(RRuleIterError::InvalidDate)
            } else {
                r matches Ok(d2) && d2.wf() && d2.epoch_day() == counter.epoch_day() + delta
                    && same_time_of_day(d2, counter)
            }
        },
        Frequenzy::Daily => {
            if counter.epoch_day() + interval > max_epoch_day() {
                r == Err::<DateTime, RRuleIterError>(RRuleIterError::InvalidDate)
            } else {
                r matches Ok(d2) && d2.wf() && d2.epoch_day() == counter.epoch_day() + interval
                    && same_time_of_day(d2, counter)
            }
        },
        Frequenzy::Hourly => {
            let start = counter.hour + if filtered {
                ((23 - counter.hour) / interval) * interval
            } else {
                0
            };
            let hm = next_hour_mark(start, interval, options.byhour@);
            if hm == -1 {
                r == Err::<DateTime, RRuleIterError>(RRuleIterError::InfeasibleRule)
            } else if counter.epoch_day() + hm / 24 > max_epoch_day() {
                r == Err::<DateTime, RRuleIterError>(RRuleIterError::InvalidDate)
            } else {
                r matches Ok(d2) && d2.wf() && d2.epoch_day() == counter.epoch_day() + hm / 24
                    && d2.hour == hm % 24 && d2.minute == counter.minute && d2.second
                    == counter.second && d2.millisecond == counter.millisecond
            }
        },
        Frequenzy::Minutely => {
            let t0 = counter.hour * 60 + counter.minute;
            let start = t0 + if filtered {
                ((1439 - t0) / interval) * interval
            } else {
                0
            };
            let mm = next_minute_mark(start, interval, options.byhour@, options.byminute@);
            let md = mm % 1440;
            if mm == -1 {
                r == Err::<DateTime, RRuleIterError>(RRuleIterError::InfeasibleRule)
            } else if counter.epoch_day() + mm / 1440 > max_epoch_day() {
                r == Err::<DateTime, RRuleIterError>(RRuleIterError::InvalidDate)
            } else {
                r matches Ok(d2) && d2.wf() && d2.epoch_day() == counter.epoch_day() + mm / 1440
                    && d2.hour == md / 60 && d2.minute == md % 60 && d2.second == counter.second
                    && d2.millisecond == counter.millisecond
            }
        },
        Frequenzy::Secondly => {
            let s0 = counter.hour * 3600 + counter.minute * 60 + counter.second;
            let start = s0 + if filtered {
                ((86399 - s0) / interval) * interval
            } else {
                0
            };
            let sm = next_second_mark(
                start,
                interval,
                options.byhour@,
                options.byminute@,
                options.bysecond@,
            );
            let md = sm % 86400;
            if sm == -1 {
                r == Err::<DateTime, RRuleIterError>(RRuleIterError::InfeasibleRule)
            } else if counter.epoch_day() + sm / 86400 > max_epoch_day() {
                r == Err::<DateTime, RRuleIterError>(RRuleIterError::InvalidDate)
            } else {
                r matches Ok(d2) && d2.wf() && d2.epoch_day() == counter.epoch_day() + sm / 86400
                    && d2.hour == md / 3600 && d2.minute == (md % 3600) / 60 && d2.second == (md
                    % 3600) % 60 && d2.millisecond == counter.millisecond
            }
        },
    }
}

/// The two instants share hour, minute, second and millisecond.
pub open spec fn same_time_of_day(a: DateTime, b: DateTime) -> bool {
    a.hour == b.hour && a.minute == b.minute && a.second == b.second && a.millisecond
        == b.millisecond
}

fn advance_yearly(counter: DateTime, options: &ParsedOptions) -> (r: Result<
    DateTime,
    RRuleIterError,
>)
    requires
        counter.wf(),
        options.wf(),
        options.freq == Frequenzy::Yearly,
    ensures
        counter_advanced(counter, *options, false, r),
        r matches Ok(d2) ==> d2.wf() && d2.ts_millis() > counter.ts_millis(),
{
    if options.interval > (MAX_YEAR - counter.year) as usize {
        return Err(RRuleIterError::InvalidDate);
    }
    let new_year = counter.year + options.interval as i32;
    let r = decrement_date_until_valid(counter, counter.month, Some(new_year));
    proof {
        lemma_epoch_days_lex(
            counter.year as int,
            counter.month as int,
            counter.day as int,
            new_year as int,
            counter.month as int,
            clamped_day(new_year as int, counter.month as int, counter.day as int),
        );
    }
    r
}

fn advance_monthly(counter: DateTime, options: &ParsedOptions) -> (r: Result<
    DateTime,
    RRuleIterError,
>)
    requires
        counter.wf(),
        options.wf(),
        options.freq == Frequenzy::Monthly,
    ensures
        counter_advanced(counter, *options, false, r),
        r matches Ok(d2) ==> d2.wf() && d2.ts_millis() > counter.ts_millis(),
{
    let t: u128 = (counter.month - 1) as u128 + options.interval as u128;
    let ydiv = t / 12;
    if ydiv > (MAX_YEAR - counter.year) as u128 {
        return Err(RRuleIterError::InvalidDate);
    }
    let new_year = counter.year + ydiv as i32;
    let new_month = (t % 12) as u32 + 1;
    let r = decrement_date_until_valid(counter, new_month, Some(new_year));
    proof {
        let ti = counter.month - 1 + options.interval as int;
        if new_year as int == counter.year as int {
            assert(ti / 12 == 0);
            assert(ti % 12 == ti);
            assert(new_month > counter.month);
        }
        lemma_epoch_days_lex(
            counter.year as int,
            counter.month as int,
            counter.day as int,
            new_year as int,
            new_month as int,
            clamped_day(new_year as int, new_month as int, counter.day as int),
        );
    }
    r
}

fn advance_weekly(counter: DateTime, options: &ParsedOptions) -> (r: Result<
    DateTime,
    RRuleIterError,
>)
    requires
        counter.wf(),
        options.wf(),
        options.freq == Frequenzy::Weekly,
    ensures
        counter_advanced(counter, *options, false, r),
        r matches Ok(d2) ==> d2.wf() && d2.ts_millis() > counter.ts_millis(),
{
    let w = weekday_of(&counter);
    let wkst = options.wkst as u32;
    let sub: u64 = if wkst > w {
        (w + 7 - wkst) as u64
    } else {
        (w - wkst) as u64
    };
    proof {
        assert(sub == (weekday_from_epoch(counter.epoch_day()) - options.wkst) % 7);
        lemma_epoch_day_min(counter);
        lemma_epoch_day_max(counter);
    }
    if options.interval > 1000000 {
        return Err(RRuleIterError::InvalidDate);
    }
    let delta: u64 = options.interval as u64 * 7 - sub;
    match add_days(&counter, delta) {
        Some(d2) => Ok(d2),
        None => Err(RRuleIterError::InvalidDate),
    }
}

fn advance_daily(counter: DateTime, options: &ParsedOptions) -> (r: Result<
    DateTime,
    RRuleIterError,
>)
    requires
        counter.wf(),
        options.wf(),
        options.freq == Frequenzy::Daily,
    ensures
        counter_advanced(counter, *options, false, r),
        r matches Ok(d2) ==> d2.wf() && d2.ts_millis() > counter.ts_millis(),
{
    proof {
        lemma_epoch_day_min(counter);
        lemma_epoch_day_max(counter);
    }
    if options.interval > 4000000 {
        return Err(RRuleIterError::InvalidDate);
    }
    match add_days(&counter, options.interval as u64) {
        Some(d2) => Ok(d2),
        None => Err(RRuleIterError::InvalidDate),
    }
}

fn advance_hourly(counter: DateTime, options: &ParsedOptions, filtered: bool) -> (r: Result<
    DateTime,
    RRuleIterError,
>)
    requires
        counter.wf(),
        options.wf(),
        options.freq == Frequenzy::Hourly,
    ensures
        counter_advanced(counter, *options, filtered, r),
        r matches Ok(d2) ==> d2.wf() && d2.ts_millis() > counter.ts_millis(),
{
    let iv: u64 = options.interval as u64;
    let mut h: u64 = counter.hour as u64;
    if filtered {
        proof {
            vstd::arithmetic::div_mod::lemma_fundamental_div_mod(23 - h as int, iv as int);
            vstd::arithmetic::div_mod::lemma_mod_bound(23 - h as int, iv as int);
        }
        h = h + ((23 - h) / iv) * iv;
    }
    let ghost start = h as int;
    let ghost byhour = options.byhour@;
    let mut done = false;
    while !done
        invariant
            options.wf(),
            options.freq == Frequenzy::Hourly,
            iv == options.interval as u64,
            iv >= 1,
            h <= HOUR_SPAN_LIMIT,
            counter.hour <= start,
            start == counter.hour + if filtered {
                ((23 - counter.hour) / (options.interval as int)) * (options.interval as int)
            } else {
                0
            },
            byhour == options.byhour@,
            !done ==> h as int >= start && next_hour_mark(start, iv as int, byhour)
                == next_hour_mark(h as int, iv as int, byhour),
            done ==> next_hour_mark(start, iv as int, byhour) == h as int,
        decreases HOUR_SPAN_LIMIT - h,
    {
        if iv > HOUR_SPAN_LIMIT - h {
            proof {
                assert(next_hour_mark(h as int, iv as int, byhour) == -1);
            }
            return Err(RRuleIterError::InfeasibleRule);
        }
        h = h + iv;
        if options.byhour.len() == 0 || includes(&options.byhour, (h % 24) as usize) {
            proof {
                assert(hour_qualifies(byhour, h as int));
            }
            done = true;
        }
    }
    let days: u64 = h / 24;
    let hod: u32 = (h % 24) as u32;
    let base = DateTime {
        year: counter.year,
        month: counter.month,
        day: counter.day,
        hour: hod,
        minute: counter.minute,
        second: counter.second,
        millisecond: counter.millisecond,
    };
    match add_days(&base, days) {
        Some(d2) => {
            proof {
                lemma_next_hour_mark_lb(start, iv as int, byhour);
                vstd::arithmetic::div_mod::lemma_fundamental_div_mod(h as int, 24);
            }
            Ok(d2)
        },
        None => Err(RRuleIterError::InvalidDate),
    }
}

fn advance_minutely(counter: DateTime, options: &ParsedOptions, filtered: bool) -> (r: Result<
    DateTime,
    RRuleIterError,
>)
    requires
        counter.wf(),
        options.wf(),
        options.freq == Frequenzy::Minutely,
    ensures
        counter_advanced(counter, *options, filtered, r),
        r matches Ok(d2) ==> d2.wf() && d2.ts_millis() > counter.ts_millis(),
{
    let iv: u64 = options.interval as u64;
    let t0: u64 = counter.hour as u64 * 60 + counter.minute as u64;
    let mut t: u64 = t0;
    if filtered {
        proof {
            assert(t <= 1439);
            assert(iv >= 1);
            vstd::arithmetic::div_mod::lemma_fundamental_div_mod(1439 - t as int, iv as int);
            vstd::arithmetic::div_mod::lemma_mod_bound(1439 - t as int, iv as int);
            vstd::arithmetic::mul::lemma_mul_is_commutative(
                (1439 - t as int) / (iv as int),
                iv as int,
            );
            assert(((1439 - t as int) / (iv as int)) * (iv as int) <= 1439 - t as int);
        }
        t = t + ((1439 - t) / iv) * iv;
    }
    let ghost start = t as int;
    let ghost byhour = options.byhour@;
    let ghost byminute = options.byminute@;
    let mut done = false;
    while !done
        invariant
            options.wf(),
            options.freq == Frequenzy::Minutely,
            iv == options.interval as u64,
            iv >= 1,
            t <= MINUTE_SPAN_LIMIT,
            t0 <= start,
            t0 == counter.hour * 60 + counter.minute,
            start == t0 + if filtered {
                ((1439 - t0 as int) / (options.interval as int)) * (options.interval as int)
            } else {
                0
            },
            byhour == options.byhour@,
            byminute == options.byminute@,
            !done ==> t as int >= start && next_minute_mark(start, iv as int, byhour, byminute)
                == next_minute_mark(t as int, iv as int, byhour, byminute),
            done ==> next_minute_mark(start, iv as int, byhour, byminute) == t as int,
        decreases MINUTE_SPAN_LIMIT - t,
    {
        if iv > MINUTE_SPAN_LIMIT - t {
            proof {
                assert(next_minute_mark(t as int, iv as int, byhour, byminute) == -1);
            }
            return Err(RRuleIterError::InfeasibleRule);
        }
        t = t + iv;
        let hour_ok = options.byhour.len() == 0 || includes(
            &options.byhour,
            ((t / 60) % 24) as usize,
        );
        let minute_ok = options.byminute.len() == 0 || includes(&options.byminute, (t % 60) as usize);
        if hour_ok && minute_ok {
            proof {
                assert(minute_qualifies(byhour, byminute, t as int));
            }
            done = true;
        }
    }
    let days: u64 = t / 1440;
    let md: u64 = t % 1440;
    let base = DateTime {
        year: counter.year,
        month: counter.month,
        day: counter.day,
        hour: (md / 60) as u32,
        minute: (md % 60) as u32,
        second: counter.second,
        millisecond: counter.millisecond,
    };
    match add_days(&base, days) {
        Some(d2) => {
            proof {
                lemma_next_minute_mark_lb(start, iv as int, byhour, byminute);
                vstd::arithmetic::div_mod::lemma_fundamental_div_mod(t as int, 1440);
                vstd::arithmetic::div_mod::lemma_fundamental_div_mod(md as int, 60);
            }
            Ok(d2)
        },
        None => Err(RRuleIterError::InvalidDate),
    }
}

fn advance_secondly(counter: DateTime, options: &ParsedOptions, filtered: bool) -> (r: Result<
    DateTime,
    RRuleIterError,
>)
    requires
        counter.wf(),
        options.wf(),
        options.freq == Frequenzy::Secondly,
    ensures
        counter_advanced(counter, *options, filtered, r),
        r matches Ok(d2) ==> d2.wf() && d2.ts_millis() > counter.ts_millis(),
{
    let iv: u64 = options.interval as u64;
    let s0: u64 = counter.hour as u64 * 3600 + counter.minute as u64 * 60 + counter.second as u64;
    let mut t: u64 = s0;
    if filtered {
        proof {
            vstd::arithmetic::div_mod::lemma_fundamental_div_mod(86399 - t as int, iv as int);
            vstd::arithmetic::div_mod::lemma_mod_bound(86399 - t as int, iv as int);
            vstd::arithmetic::mul::lemma_mul_is_commutative(
                (86399 - t as int) / (iv as int),
                iv as int,
            );
            assert(((86399 - t as int) / (iv as int)) * (iv as int) <= 86399 - t as int);
        }
        t = t + ((86399 - t) / iv) * iv;
    }
    let ghost start = t as int;
    let ghost byhour = options.byhour@;
    let ghost byminute = options.byminute@;
    let ghost bysecond = options.bysecond@;
    let mut done = false;
    while !done
        invariant
            options.wf(),
            options.freq == Frequenzy::Secondly,
            iv == options.interval as u64,
            iv >= 1,
            t <= SECOND_SPAN_LIMIT,
            s0 <= start,
            s0 == counter.hour * 3600 + counter.minute * 60 + counter.second,
            start == s0 + if filtered {
                ((86399 - s0 as int) / (options.interval as int)) * (options.interval as int)
            } else {
                0
            },
            byhour == options.byhour@,
            byminute == options.byminute@,
            bysecond == options.bysecond@,
            !done ==> t as int >= start && next_second_mark(
                start,
                iv as int,
                byhour,
                byminute,
                bysecond,
            ) == next_second_mark(t as int, iv as int, byhour, byminute, bysecond),
            done ==> next_second_mark(start, iv as int, byhour, byminute, bysecond) == t as int,
        decreases SECOND_SPAN_LIMIT - t,
    {
        if iv > SECOND_SPAN_LIMIT - t {
            proof {
                assert(next_second_mark(t as int, iv as int, byhour, byminute, bysecond) == -1);
            }
            return Err(RRuleIterError::InfeasibleRule);
        }
        t = t + iv;
        let hour_ok = options.byhour.len() == 0 || includes(
            &options.byhour,
            ((t / 3600) % 24) as usize,
        );
        let minute_ok = options.byminute.len() == 0 || includes(
            &options.byminute,
            ((t / 60) % 60) as usize,
        );
        let second_ok = options.bysecond.len() == 0 || includes(&options.bysecond, (t % 60) as usize);
        if hour_ok && minute_ok && second_ok {
            proof {
                assert(second_qualifies(byhour, byminute, bysecond, t as int));
            }
            done = true;
        }
    }
    let days: u64 = t / 86400;
    let md: u64 = t % 86400;
    let base = DateTime {
        year: counter.year,
        month: counter.month,
        day: counter.day,
        hour: (md / 3600) as u32,
        minute: ((md % 3600) / 60) as u32,
        second: ((md % 3600) % 60) as u32,
        millisecond: counter.millisecond,
    };
    match add_days(&base, days) {
        Some(d2) => {
            proof {
                lemma_next_second_mark_lb(start, iv as int, byhour, byminute, bysecond);
                vstd::arithmetic::div_mod::lemma_fundamental_div_mod(t as int, 86400);
                vstd::arithmetic::div_mod::lemma_fundamental_div_mod(md as int, 3600);
                vstd::arithmetic::div_mod::lemma_fundamental_div_mod((md % 3600) as int, 60);
            }
            Ok(d2)
        },
        None => Err(RRuleIterError::InvalidDate),
    }
}

/// Advance the counter by one step of the rule's frequency: `interval` years,
/// months, weeks or days, or to the next admitted hour, minute or second.
/// `filtered` reports whether the preceding cycle filtered any day out; at
/// sub-daily frequencies it triggers the jump to the end of the day.
pub fn increment_counter_date(
    counter_date: DateTime,
    options: &ParsedOptions,
    filtered: bool,
) -> (r: Result<DateTime, RRuleIterError>)
    requires
        counter_date.wf(),
        options.wf(),
    ensures
        counter_advanced(counter_date, *options, filtered, r),
        r matches Ok(d2) ==> d2.wf() && d2.ts_millis() > counter_date.ts_millis(),
{
    match options.freq {
        Frequenzy::Yearly => advance_yearly(counter_date, options),
        Frequenzy::Monthly => advance_monthly(counter_date, options),
        Frequenzy::Weekly => advance_weekly(counter_date, options),
        Frequenzy::Daily => advance_daily(counter_date, options),
        Frequenzy::Hourly => advance_hourly(counter_date, options, filtered),
        Frequenzy::Minutely => advance_minutely(counter_date, options, filtered),
        Frequenzy::Secondly => advance_secondly(counter_date, options, filtered),
    }
}

/// Whether day offset `d` is excluded by some BY-filter of `options`, read
/// from the masks of `ii`. An empty BY-set never excludes.
pub open spec fn filtered_day(ii: IterInfo, d: int, options: ParsedOptions) -> bool {
    ||| (options.bymonth@.len() > 0 && !contains_usize(options.bymonth@, ii.mmask@[d] as int))
    ||| (options.byweekno@.len() > 0 && ii.wnomask->Some_0@[d] == 0)
    ||| (options.byweekday@.len() > 0 && !contains_usize(
        options.byweekday@,
        ii.wdaymask@[d] as int,
    ))
    ||| (ii.nwdaymask matches Some(nw) && nw@.len() > 0 && nw@[d] == 0)
    ||| (options.byeaster is Some && !contains_isize(ii.eastermask->Some_0@, d))
    ||| ((options.bymonthday@.len() > 0 || options.bynmonthday@.len() > 0) && !contains_isize(
        options.bymonthday@,
        ii.mdaymask@[d] as int,
    ) && !contains_isize(options.bynmonthday@, ii.nmdaymask@[d] as int))
    ||| (options.byyearday@.len() > 0 && (if d < ii.yearlen {
        !contains_isize(options.byyearday@, d + 1) && !contains_isize(
            options.byyearday@,
            d - ii.yearlen,
        )
    } else {
        !contains_isize(options.byyearday@, d + 1 - ii.yearlen) && !contains_isize(
            options.byyearday@,
            d - ii.yearlen - ii.nextyearlen,
        )
    }))
}

/// Whether day offset `current_day` is excluded by some BY-filter of
/// `options`; the masks for the BY-sets in use must have been built.
pub fn is_filtered(ii: &IterInfo, current_day: usize, options: &ParsedOptions) -> (r: Result<
    bool,
    RRuleIterError,
>)
    requires
        ii.wf(),
        options.wf(),
        current_day < ii.yearlen + 7,
        options.byweekno@.len() > 0 ==> ii.wnomask is Some,
        options.byeaster is Some ==> ii.eastermask is Some,
    ensures
        r == Ok::<bool, RRuleIterError>(filtered_day(*ii, current_day as int, *options)),
{
    let c_month = options.bymonth.len() > 0 && !includes(&options.bymonth, ii.mmask[current_day]);
    let c_weekno = options.byweekno.len() > 0 && (match &ii.wnomask {
        Some(w) => w[current_day] == 0,
        None => false,
    });
    let c_weekday = options.byweekday.len() > 0 && !includes(
        &options.byweekday,
        ii.wdaymask[current_day],
    );
    let c_nweekday = match &ii.nwdaymask {
        Some(nw) => nw.len() > 0 && nw[current_day] == 0,
        None => false,
    };
    let c_easter = options.byeaster.is_some() && (match &ii.eastermask {
        Some(em) => !includes_isize(em, current_day as isize),
        None => false,
    });
    let c_monthday = (options.bymonthday.len() > 0 || options.bynmonthday.len() > 0)
        && !includes_isize(&options.bymonthday, ii.mdaymask[current_day]) && !includes_isize(
        &options.bynmonthday,
        ii.nmdaymask[current_day],
    );
    let c_yearday = options.byyearday.len() > 0 && (if current_day < ii.yearlen {
        !includes_isize(&options.byyearday, (current_day + 1) as isize) && !includes_isize(
            &options.byyearday,
            current_day as isize - ii.yearlen as isize,
        )
    } else {
        !includes_isize(&options.byyearday, (current_day + 1 - ii.yearlen) as isize)
            && !includes_isize(
            &options.byyearday,
            current_day as isize - ii.yearlen as isize - ii.nextyearlen as isize,
        )
    });
    Ok(c_month || c_weekno || c_weekday || c_nweekday || c_easter || c_monthday || c_yearday)
}

/// The times of one (hour, minute) cell: one entry per BYSECOND value, in
/// BYSECOND order.
pub open spec fn times_of_minute(h: usize, mi: usize, bysecond: Seq<usize>, ms: usize) -> Seq<Time>
    decreases bysecond.len(),
{
    if bysecond.len() == 0 {
        Seq::empty()
    } else {
        times_of_minute(h, mi, bysecond.drop_last(), ms).push(
            Time { hour: h, minute: mi, second: bysecond.last(), millisecond: ms },
        )
    }
}

/// The times of one hour: the BYMINUTE x BYSECOND product, minutes outermost.
pub open spec fn times_of_hour(
    h: usize,
    byminute: Seq<usize>,
    bysecond: Seq<usize>,
    ms: usize,
) -> Seq<Time>
    decreases byminute.len(),
{
    if byminute.len() == 0 {
        Seq::empty()
    } else {
        times_of_hour(h, byminute.drop_last(), bysecond, ms) + times_of_minute(
            h,
            byminute.last(),
            bysecond,
            ms,
        )
    }
}

/// The full BYHOUR x BYMINUTE x BYSECOND product, hours outermost.
pub open spec fn timeset_of(
    byhour: Seq<usize>,
    byminute: Seq<usize>,
    bysecond: Seq<usize>,
    ms: usize,
) -> Seq<Time>
    decreases byhour.len(),
{
    if byhour.len() == 0 {
        Seq::empty()
    } else {
        timeset_of(byhour.drop_last(), byminute, bysecond, ms) + times_of_hour(
            byhour.last(),
            byminute,
            bysecond,
            ms,
        )
    }
}

fn minute_timeset(hour: usize, minute: usize, options: &ParsedOptions, ms: usize) -> (r: Vec<Time>)
    ensures
        r@ == times_of_minute(hour, minute, options.bysecond@, ms),
{
    let mut r: Vec<Time> = Vec::new();
    let mut k: usize = 0;
    while k < options.bysecond.len()
        invariant
            k <= options.bysecond@.len(),
            r@ == times_of_minute(hour, minute, options.bysecond@.take(k as int), ms),
        decreases options.bysecond@.len() - k,
    {
        r.push(Time::new(hour, minute, options.bysecond[k], ms));
        proof {
            let taken = options.bysecond@.take(k as int + 1);
            assert(taken.drop_last() =~= options.bysecond@.take(k as int));
            assert(r@ =~= times_of_minute(hour, minute, taken, ms));
        }
        k = k + 1;
    }
    proof {
        assert(options.bysecond@.take(options.bysecond@.len() as int) =~= options.bysecond@);
    }
    r
}

fn hour_timeset(hour: usize, options: &ParsedOptions, ms: usize) -> (r: Vec<Time>)
    ensures
        r@ == times_of_hour(hour, options.byminute@, options.bysecond@, ms),
{
    let mut r: Vec<Time> = Vec::new();
    let mut j: usize = 0;
    while j < options.byminute.len()
        invariant
            j <= options.byminute@.len(),
            r@ == times_of_hour(hour, options.byminute@.take(j as int), options.bysecond@, ms),
        decreases options.byminute@.len() - j,
    {
        let mut part = minute_timeset(hour, options.byminute[j], options, ms);
        r.append(&mut part);
        proof {
            let taken = options.byminute@.take(j as int + 1);
            assert(taken.drop_last() =~= options.byminute@.take(j as int));
            assert(r@ =~= times_of_hour(hour, taken, options.bysecond@, ms));
        }
        j = j + 1;
    }
    proof {
        assert(options.byminute@.take(options.byminute@.len() as int) =~= options.byminute@);
    }
    r
}

/// The time-of-day set of a rule at or below daily frequency: the cross
/// product of the three time BY-sets, with DTSTART's millisecond. Above
/// daily frequency the set is empty: it is rebuilt per cycle instead.
pub fn build_timeset(options: &ParsedOptions) -> (r: Vec<Time>)
    requires
        options.wf(),
    ensures
        r@ == if options.freq.ord_spec() > 3 {
            Seq::<Time>::empty()
        } else {
            timeset_of(
                options.byhour@,
                options.byminute@,
                options.bysecond@,
                options.dtstart.millisecond as usize,
            )
        },
{
    let millisecond_mod = options.dtstart.millisecond as usize;
    if options.freq.ord() > 3 {
        return Vec::new();
    }
    let mut timeset: Vec<Time> = Vec::new();
    let mut i: usize = 0;
    while i < options.byhour.len()
        invariant
            i <= options.byhour@.len(),
            timeset@ == timeset_of(
                options.byhour@.take(i as int),
                options.byminute@,
                options.bysecond@,
                millisecond_mod,
            ),
        decreases options.byhour@.len() - i,
    {
        let mut part = hour_timeset(options.byhour[i], options, millisecond_mod);
        timeset.append(&mut part);
        proof {
            let taken = options.byhour@.take(i as int + 1);
            assert(taken.drop_last() =~= options.byhour@.take(i as int));
            assert(timeset@ =~= timeset_of(
                taken,
                options.byminute@,
                options.bysecond@,
                millisecond_mod,
            ));
        }
        i = i + 1;
    }
    proof {
        assert(options.byhour@.take(options.byhour@.len() as int) =~= options.byhour@);
    }
    timeset
}

/// The time set one expansion cycle emits for the counter's day: the full
/// product at or below daily frequency; above it, the counter's own time
/// units crossed with the finer BY-sets, or nothing when a unit of the
/// counter is not admitted.
pub open spec fn cycle_timeset(c: DateTime, o: ParsedOptions) -> Seq<Time> {
    let ord = o.freq.ord_spec();
    if ord < 4 {
        timeset_of(o.byhour@, o.byminute@, o.bysecond@, o.dtstart.millisecond as usize)
    } else if (o.byhour@.len() > 0 && !contains_usize(o.byhour@, c.hour as int)) || (ord >= 5
        && o.byminute@.len() > 0 && !contains_usize(o.byminute@, c.minute as int)) || (ord >= 6
        && o.bysecond@.len() > 0 && !contains_usize(o.bysecond@, c.second as int)) {
        Seq::empty()
    } else if ord == 4 {
        times_of_hour(c.hour as usize, o.byminute@, o.bysecond@, c.millisecond as usize)
    } else if ord == 5 {
        times_of_minute(
            c.hour as usize,
            c.minute as usize,
            o.bysecond@,
            c.millisecond as usize,
        )
    } else {
        seq![
            Time {
                hour: c.hour as usize,
                minute: c.minute as usize,
                second: c.second as usize,
                millisecond: c.millisecond as usize,
            },
        ]
    }
}

/// Build the time set of the current cycle; see [`cycle_timeset`].
pub fn make_timeset(counter_date: &DateTime, options: &ParsedOptions) -> (r: Result<
    Vec<Time>,
    RRuleIterError,
>)
    requires
        counter_date.wf(),
        options.wf(),
    ensures
        r matches Ok(ts) && ts@ == cycle_timeset(*counter_date, *options),
{
    let ord = options.freq.ord();
    if ord < 4 {
        return Ok(build_timeset(options));
    }
    if (options.byhour.len() > 0 && !includes(&options.byhour, counter_date.hour as usize)) || (ord
        >= 5 && options.byminute.len() > 0 && !includes(
        &options.byminute,
        counter_date.minute as usize,
    )) || (ord >= 6 && options.bysecond.len() > 0 && !includes(
        &options.bysecond,
        counter_date.second as usize,
    )) {
        return Ok(Vec::new());
    }
    let ms = counter_date.millisecond as usize;
    if ord == 4 {
        Ok(hour_timeset(counter_date.hour as usize, options, ms))
    } else if ord == 5 {
        Ok(
            minute_timeset(
                counter_date.hour as usize,
                counter_date.minute as usize,
                options,
                ms,
            ),
        )
    } else {
        let mut single: Vec<Time> = Vec::new();
        single.push(
            Time::new(
                counter_date.hour as usize,
                counter_date.minute as usize,
                counter_date.second as usize,
                ms,
            ),
        );
        proof {
            assert(single@ =~= cycle_timeset(*counter_date, *options));
        }
        Ok(single)
    }
}

/// What the emit step of a cycle does with one candidate instant.
#[derive(Clone, Copy, PartialEq, Eq, Structural, Debug)]
pub enum EmissionStep {
    /// The candidate precedes DTSTART: pass it over silently.
    SkipBeforeStart,
    /// A termination clause fired: the iterator ends here.
    Finished,
    /// The candidate is emitted as the next occurrence.
    Emit,
}

/// The emit decision for a candidate, given the tally of emissions so far:
/// candidates before DTSTART are skipped, a candidate past UNTIL or a tally
/// that has reached COUNT ends the iteration, anything else is emitted.
pub open spec fn emission_of(cand: DateTime, o: ParsedOptions, emitted: u32) -> EmissionStep {
    if cand.ts_millis() < o.dtstart.ts_millis() {
        EmissionStep::SkipBeforeStart
    } else if o.until matches Some(u) && cand.ts_millis() > u.ts_millis() {
        EmissionStep::Finished
    } else if o.count matches Some(c) && emitted >= c {
        EmissionStep::Finished
    } else {
        EmissionStep::Emit
    }
}

/// Decide what to do with one candidate instant; see [`emission_of`].
pub fn emission_step(candidate: &DateTime, options: &ParsedOptions, emitted: u32) -> (r:
    EmissionStep)
    requires
        candidate.wf(),
        options.wf(),
    ensures
        r == emission_of(*candidate, *options, emitted),
{
    if ts_less(candidate, &options.dtstart) {
        return EmissionStep::SkipBeforeStart;
    }
    match &options.until {
        Some(u) => {
            if ts_less(u, candidate) {
                return EmissionStep::Finished;
            }
        },
        None => {},
    }
    match options.count {
        Some(c) => {
            if emitted >= c {
                return EmissionStep::Finished;
            }
        },
        None => {},
    }
    EmissionStep::Emit
}

/// A dayset entry that is present and excluded by the filters.
pub open spec fn entry_filtered(e: Option<isize>, ii: IterInfo, options: ParsedOptions) -> bool {
    e matches Some(dd) && filtered_day(ii, dd as int, options)
}

/// Blank out, in `dayset[start..end]`, every day the BY-filters exclude, and
/// report whether any day of the window was excluded.
pub fn remove_filtered_days(
    dayset: &mut Vec<Option<isize>>,
    start: usize,
    end: usize,
    ii: &IterInfo,
    options: &ParsedOptions,
) -> (r: Result<bool, RRuleIterError>)
    requires
        ii.wf(),
        options.wf(),
        options.byweekno@.len() > 0 ==> ii.wnomask is Some,
        options.byeaster is Some ==> ii.eastermask is Some,
        start <= end <= old(dayset)@.len(),
        forall|i: int| start <= i < end ==> (#[trigger] old(dayset)@[i] matches Some(dd) ==> 0
            <= dd < ii.yearlen + 7),
    ensures
        final(dayset)@.len() == old(dayset)@.len(),
        forall|i: int| 0 <= i < old(dayset)@.len() && !(start <= i < end)
            ==> final(dayset)@[i] == old(dayset)@[i],
        forall|i: int| start <= i < end ==> final(dayset)@[i] == (if entry_filtered(
            old(dayset)@[i],
            *ii,
            *options,
        ) {
            None
        } else {
            old(dayset)@[i]
        }),
        r == Ok::<bool, RRuleIterError>(
            exists|i: int| start <= i < end && entry_filtered(old(dayset)@[i], *ii, *options),
        ),
{
    let mut filtered = false;
    let mut i: usize = start;
    while i < end
        invariant
            ii.wf(),
            options.wf(),
            options.byweekno@.len() > 0 ==> ii.wnomask is Some,
            options.byeaster is Some ==> ii.eastermask is Some,
            start <= i <= end <= old(dayset)@.len(),
            dayset@.len() == old(dayset)@.len(),
            forall|j: int| start <= j < end ==> (#[trigger] old(dayset)@[j] matches Some(dd) ==> 0
                <= dd < ii.yearlen + 7),
            forall|j: int| 0 <= j < old(dayset)@.len() && !(start <= j < i)
                ==> dayset@[j] == old(dayset)@[j],
            forall|j: int| start <= j < i ==> dayset@[j] == (if entry_filtered(
                old(dayset)@[j],
                *ii,
                *options,
            ) {
                None
            } else {
                old(dayset)@[j]
            }),
            filtered == exists|j: int| start <= j < i && entry_filtered(
                old(dayset)@[j],
                *ii,
                *options,
            ),
        decreases end - i,
    {
        match dayset[i] {
            Some(current_day) => {
                let f = match is_filtered(ii, current_day as usize, options) {
                    Ok(b) => b,
                    Err(e) => {
                        return Err(e);
                    },
                };
                if f {
                    dayset.set(i, None);
                }
                filtered = filtered || f;
            },
            None => {},
        }
        i = i + 1;
    }
    Ok(filtered)
}

} // verus!
