use rrule_core::datetime::{DateTime, Time};
use rrule_core::iter::{EmissionStep, build_timeset, emission_step, make_timeset};
use rrule_core::options::{Frequenzy, ParsedOptions};

fn dt(year: i32, month: u32, day: u32, hour: u32, minute: u32, second: u32) -> DateTime {
    DateTime { year, month, day, hour, minute, second, millisecond: 0 }
}

fn opts(freq: Frequenzy, dtstart: DateTime) -> ParsedOptions {
    ParsedOptions {
        freq,
        interval: 1,
        count: None,
        until: None,
        tzid: None,
        dtstart,
        wkst: 0,
        bysetpos: vec![],
        bymonth: vec![],
        bymonthday: vec![],
        bynmonthday: vec![],
        byyearday: vec![],
        byweekno: vec![],
        byweekday: vec![],
        byhour: vec![],
        byminute: vec![],
        bysecond: vec![],
        bynweekday: vec![],
        byeaster: None,
    }
}

fn t(hour: usize, minute: usize, second: usize) -> Time {
    Time { hour, minute, second, millisecond: 0 }
}

#[test]
fn build_timeset_is_the_cross_product_in_order() {
    let mut o = opts(Frequenzy::Daily, dt(2022, 6, 1, 0, 0, 0));
    o.byhour = vec![9, 17];
    o.byminute = vec![0, 30];
    o.bysecond = vec![0];
    assert_eq!(
        build_timeset(&o),
        vec![t(9, 0, 0), t(9, 30, 0), t(17, 0, 0), t(17, 30, 0)]
    );
}

#[test]
fn build_timeset_carries_dtstart_milliseconds() {
    let mut start = dt(2022, 6, 1, 0, 0, 0);
    start.millisecond = 250;
    let mut o = opts(Frequenzy::Daily, start);
    o.byhour = vec![9];
    o.byminute = vec![0];
    o.bysecond = vec![0];
    assert_eq!(
        build_timeset(&o),
        vec![Time { hour: 9, minute: 0, second: 0, millisecond: 250 }]
    );
}

#[test]
fn build_timeset_is_empty_above_daily_frequency() {
    let mut o = opts(Frequenzy::Hourly, dt(2022, 6, 1, 0, 0, 0));
    o.byhour = vec![9];
    o.byminute = vec![0];
    o.bysecond = vec![0];
    assert_eq!(build_timeset(&o), vec![]);
}

#[test]
fn make_timeset_below_hourly_uses_the_full_product() {
    let mut o = opts(Frequenzy::Daily, dt(2022, 6, 1, 0, 0, 0));
    o.byhour = vec![9, 17];
    o.byminute = vec![0];
    o.bysecond = vec![0];
    let counter = dt(2022, 6, 3, 4, 5, 6);
    assert_eq!(
        make_timeset(&counter, &o).unwrap(),
        vec![t(9, 0, 0), t(17, 0, 0)]
    );
}

#[test]
fn make_timeset_hourly_expands_the_counter_hour() {
    let mut o = opts(Frequenzy::Hourly, dt(2022, 6, 1, 0, 0, 0));
    o.byminute = vec![10, 20];
    o.bysecond = vec![0];
    let counter = dt(2022, 6, 1, 5, 30, 0);
    assert_eq!(
        make_timeset(&counter, &o).unwrap(),
        vec![t(5, 10, 0), t(5, 20, 0)]
    );
}

#[test]
fn make_timeset_is_empty_when_the_counter_hour_is_rejected() {
    let mut o = opts(Frequenzy::Hourly, dt(2022, 6, 1, 0, 0, 0));
    o.byhour = vec![9];
    o.byminute = vec![0];
    o.bysecond = vec![0];
    let counter = dt(2022, 6, 1, 5, 0, 0);
    assert_eq!(make_timeset(&counter, &o).unwrap(), vec![]);
}

#[test]
fn make_timeset_secondly_is_the_counter_instant() {
    let mut o = opts(Frequenzy::Secondly, dt(2022, 6, 1, 0, 0, 0));
    o.byhour = vec![5];
    o.byminute = vec![30];
    o.bysecond = vec![15];
    let counter = dt(2022, 6, 1, 5, 30, 15);
    assert_eq!(make_timeset(&counter, &o).unwrap(), vec![t(5, 30, 15)]);
}

#[test]
fn build_timeset_tolerates_a_leap_second() {
    let mut o = opts(Frequenzy::Daily, dt(2022, 6, 1, 0, 0, 0));
    o.byhour = vec![23];
    o.byminute = vec![59];
    o.bysecond = vec![59, 60];
    assert_eq!(build_timeset(&o), vec![t(23, 59, 59), t(23, 59, 60)]);
}

#[test]
fn emission_skips_candidates_before_dtstart() {
    let o = opts(Frequenzy::Daily, dt(2022, 6, 1, 12, 0, 0));
    let cand = dt(2022, 6, 1, 11, 59, 59);
    assert_eq!(emission_step(&cand, &o, 0), EmissionStep::SkipBeforeStart);
}

#[test]
fn emission_stops_past_until() {
    let mut o = opts(Frequenzy::Daily, dt(2022, 6, 1, 0, 0, 0));
    o.until = Some(dt(2022, 6, 10, 0, 0, 0));
    let inside = dt(2022, 6, 10, 0, 0, 0);
    let outside = dt(2022, 6, 10, 0, 0, 1);
    assert_eq!(emission_step(&inside, &o, 0), EmissionStep::Emit);
    assert_eq!(emission_step(&outside, &o, 0), EmissionStep::Finished);
}

#[test]
fn emission_stops_when_count_is_reached() {
    let mut o = opts(Frequenzy::Daily, dt(2022, 6, 1, 0, 0, 0));
    o.count = Some(3);
    let cand = dt(2022, 6, 5, 0, 0, 0);
    assert_eq!(emission_step(&cand, &o, 2), EmissionStep::Emit);
    assert_eq!(emission_step(&cand, &o, 3), EmissionStep::Finished);
    assert_eq!(emission_step(&cand, &o, 4), EmissionStep::Finished);
}

#[test]
fn emission_emits_ordinary_candidates() {
    let o = opts(Frequenzy::Daily, dt(2022, 6, 1, 0, 0, 0));
    let cand = dt(2022, 6, 2, 0, 0, 0);
    assert_eq!(emission_step(&cand, &o, 100), EmissionStep::Emit);
}
