use rrule_core::datetime::{DateTime, epoch_day_of, ts_less, weekday_of};
use rrule_core::error::RRuleIterError;
use rrule_core::iter::increment_counter_date;
use rrule_core::options::{Frequenzy, ParsedOptions};

fn date(year: i32, month: u32, day: u32, hour: u32, minute: u32, second: u32) -> DateTime {
    DateTime { year, month, day, hour, minute, second, millisecond: 0 }
}

fn opts(freq: Frequenzy, interval: usize, dtstart: DateTime) -> ParsedOptions {
    ParsedOptions {
        freq,
        interval,
        count: None,
        until: None,
        tzid: None,
        dtstart,
        wkst: 0,
        bysetpos: vec![],
        bymonth: vec![],
        bymonthday: vec![],
        bynmonthday: vec![],
        byyearday: vec![],
        byweekno: vec![],
        byweekday: vec![],
        byhour: vec![],
        byminute: vec![],
        bysecond: vec![],
        bynweekday: vec![],
        byeaster: None,
    }
}

#[test]
fn epoch_day_matches_known_dates() {
    assert_eq!(epoch_day_of(1970, 1, 1), 0);
    assert_eq!(epoch_day_of(1969, 12, 31), -1);
    assert_eq!(epoch_day_of(2020, 2, 29), 18321);
    assert_eq!(epoch_day_of(2020, 3, 1), 18322);
}

#[test]
fn weekday_matches_known_dates() {
    assert_eq!(weekday_of(&date(1970, 1, 1, 0, 0, 0)), 3);
    assert_eq!(weekday_of(&date(2022, 1, 3, 0, 0, 0)), 0);
    assert_eq!(weekday_of(&date(2020, 9, 2, 0, 0, 0)), 2);
}

#[test]
fn yearly_advance_clamps_leap_day_down() {
    let start = date(2020, 2, 29, 13, 0, 0);
    let o = opts(Frequenzy::Yearly, 1, start);
    let d2 = increment_counter_date(start, &o, false).unwrap();
    assert_eq!(d2, date(2021, 2, 28, 13, 0, 0));
}

#[test]
fn yearly_advance_keeps_leap_day_in_leap_years() {
    let start = date(2020, 2, 29, 13, 0, 0);
    let o = opts(Frequenzy::Yearly, 4, start);
    let d2 = increment_counter_date(start, &o, false).unwrap();
    assert_eq!(d2, date(2024, 2, 29, 13, 0, 0));
}

#[test]
fn yearly_advance_past_supported_range_fails() {
    let start = date(9999, 1, 1, 0, 0, 0);
    let o = opts(Frequenzy::Yearly, 1, start);
    assert_eq!(
        increment_counter_date(start, &o, false),
        Err(RRuleIterError::InvalidDate)
    );
}

#[test]
fn monthly_advance_clamps_to_short_month() {
    let start = date(2021, 1, 31, 9, 30, 0);
    let o = opts(Frequenzy::Monthly, 1, start);
    let d2 = increment_counter_date(start, &o, false).unwrap();
    assert_eq!(d2, date(2021, 2, 28, 9, 30, 0));
}

#[test]
fn monthly_advance_carries_into_next_year() {
    let start = date(2021, 11, 15, 0, 0, 0);
    let o = opts(Frequenzy::Monthly, 3, start);
    let d2 = increment_counter_date(start, &o, false).unwrap();
    assert_eq!(d2, date(2022, 2, 15, 0, 0, 0));

    let start = date(2021, 12, 31, 0, 0, 0);
    let o = opts(Frequenzy::Monthly, 12, start);
    let d2 = increment_counter_date(start, &o, false).unwrap();
    assert_eq!(d2, date(2022, 12, 31, 0, 0, 0));
}

#[test]
fn weekly_advance_lands_on_week_start() {
    // 2020-09-02 is a Wednesday; with wkst = Monday the counter moves to the
    // Monday of the following week.
    let start = date(2020, 9, 2, 13, 0, 0);
    let o = opts(Frequenzy::Weekly, 1, start);
    let d2 = increment_counter_date(start, &o, false).unwrap();
    assert_eq!(d2, date(2020, 9, 7, 13, 0, 0));
}

#[test]
fn weekly_advance_from_week_start_jumps_a_full_week() {
    let start = date(2022, 1, 3, 8, 0, 0);
    let o = opts(Frequenzy::Weekly, 1, start);
    let d2 = increment_counter_date(start, &o, false).unwrap();
    assert_eq!(d2, date(2022, 1, 10, 8, 0, 0));
}

#[test]
fn daily_advance_crosses_year_boundary() {
    let start = date(2020, 12, 31, 23, 0, 0);
    let o = opts(Frequenzy::Daily, 1, start);
    let d2 = increment_counter_date(start, &o, false).unwrap();
    assert_eq!(d2, date(2021, 1, 1, 23, 0, 0));
}

#[test]
fn hourly_advance_wraps_into_next_days() {
    let start = date(2022, 6, 1, 22, 0, 0);
    let mut o = opts(Frequenzy::Hourly, 5, start);
    let d2 = increment_counter_date(start, &o, false).unwrap();
    assert_eq!(d2, date(2022, 6, 2, 3, 0, 0));

    o.byhour = vec![1];
    let d3 = increment_counter_date(start, &o, false).unwrap();
    assert_eq!(d3, date(2022, 6, 5, 1, 0, 0));
}

#[test]
fn hourly_advance_reports_infeasible_rules() {
    let start = date(2022, 6, 1, 0, 0, 0);
    let mut o = opts(Frequenzy::Hourly, 24, start);
    o.byhour = vec![5];
    assert_eq!(
        increment_counter_date(start, &o, false),
        Err(RRuleIterError::InfeasibleRule)
    );
}

#[test]
fn minutely_advance_plain_step() {
    let start = date(2022, 6, 1, 10, 30, 0);
    let o = opts(Frequenzy::Minutely, 30, start);
    let d2 = increment_counter_date(start, &o, false).unwrap();
    assert_eq!(d2, date(2022, 6, 1, 11, 0, 0));
}

#[test]
fn minutely_advance_filtered_jumps_to_next_day() {
    let start = date(2022, 6, 1, 10, 30, 0);
    let o = opts(Frequenzy::Minutely, 30, start);
    let d2 = increment_counter_date(start, &o, true).unwrap();
    assert_eq!(d2, date(2022, 6, 2, 0, 0, 0));
}

#[test]
fn secondly_advance_crosses_midnight() {
    let start = date(2022, 6, 1, 23, 59, 58);
    let o = opts(Frequenzy::Secondly, 3, start);
    let d2 = increment_counter_date(start, &o, false).unwrap();
    assert_eq!(d2, date(2022, 6, 2, 0, 0, 1));
}

#[test]
fn advancement_is_strictly_monotone() {
    let start = date(2020, 2, 29, 13, 0, 0);
    for (freq, interval) in [
        (Frequenzy::Yearly, 1),
        (Frequenzy::Monthly, 7),
        (Frequenzy::Weekly, 2),
        (Frequenzy::Daily, 10),
        (Frequenzy::Hourly, 6),
        (Frequenzy::Minutely, 90),
        (Frequenzy::Secondly, 45),
    ] {
        let o = opts(freq, interval, start);
        let d2 = increment_counter_date(start, &o, false).unwrap();
        assert!(ts_less(&start, &d2));
    }
}

#[test]
fn advancement_is_deterministic_for_equal_options() {
    let start = date(2021, 5, 17, 6, 45, 30);
    let mut o1 = opts(Frequenzy::Hourly, 7, start);
    o1.byhour = vec![3, 15];
    let mut o2 = opts(Frequenzy::Hourly, 7, start);
    o2.byhour = vec![3, 15];
    let r1 = increment_counter_date(start, &o1, true);
    let r2 = increment_counter_date(start, &o2, true);
    assert_eq!(r1, r2);
}
