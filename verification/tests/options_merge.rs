use rrule_core::datetime::DateTime;
use rrule_core::options::{Frequenzy, PartialOptions};

#[test]
fn new_partial_options_give_nothing() {
    let p = PartialOptions::new();
    assert!(p.freq.is_none());
    assert!(p.interval.is_none());
    assert!(p.count.is_none());
    assert!(p.until.is_none());
    assert!(p.tzid.is_none());
    assert!(p.dtstart.is_none());
    assert!(p.wkst.is_none());
    assert!(p.bysetpos.is_none());
    assert!(p.bymonth.is_none());
    assert!(p.bymonthday.is_none());
    assert!(p.bynmonthday.is_none());
    assert!(p.byyearday.is_none());
    assert!(p.byweekno.is_none());
    assert!(p.byweekday.is_none());
    assert!(p.byhour.is_none());
    assert!(p.byminute.is_none());
    assert!(p.bysecond.is_none());
    assert!(p.bynweekday.is_none());
    assert!(p.byeaster.is_none());
}

#[test]
fn concat_prefers_the_second_source() {
    let mut a = PartialOptions::new();
    a.freq = Some(Frequenzy::Daily);
    a.interval = Some(2);
    a.bymonth = Some(vec![1, 2]);
    a.tzid = Some(String::from("UTC"));
    let mut b = PartialOptions::new();
    b.freq = Some(Frequenzy::Weekly);
    b.bymonth = Some(vec![7]);
    let merged = PartialOptions::concat(&a, &b);
    assert_eq!(merged.freq, Some(Frequenzy::Weekly));
    assert_eq!(merged.interval, Some(2));
    assert_eq!(merged.bymonth, Some(vec![7]));
    assert_eq!(merged.tzid, Some(String::from("UTC")));
    assert!(merged.count.is_none());
}

#[test]
fn concat_keeps_the_first_source_where_the_second_is_silent() {
    let mut a = PartialOptions::new();
    a.dtstart = Some(DateTime {
        year: 2022,
        month: 6,
        day: 1,
        hour: 0,
        minute: 0,
        second: 0,
        millisecond: 0,
    });
    a.bynweekday = Some(vec![vec![0, 3], vec![4, -1]]);
    a.byeaster = Some(-2);
    let b = PartialOptions::new();
    let merged = PartialOptions::concat(&a, &b);
    assert_eq!(merged.dtstart, a.dtstart);
    assert_eq!(merged.bynweekday, Some(vec![vec![0, 3], vec![4, -1]]));
    assert_eq!(merged.byeaster, Some(-2));
}
