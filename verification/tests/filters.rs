use rrule_core::datetime::DateTime;
use rrule_core::iter::{decrement_date_until_valid, is_filtered, remove_filtered_days};
use rrule_core::iterinfo::IterInfo;
use rrule_core::options::{Frequenzy, ParsedOptions};

fn date(year: i32, month: u32, day: u32) -> DateTime {
    DateTime { year, month, day, hour: 0, minute: 0, second: 0, millisecond: 0 }
}

fn opts(dtstart: DateTime) -> ParsedOptions {
    ParsedOptions {
        freq: Frequenzy::Yearly,
        interval: 1,
        count: None,
        until: None,
        tzid: None,
        dtstart,
        wkst: 0,
        bysetpos: vec![],
        bymonth: vec![],
        bymonthday: vec![],
        bynmonthday: vec![],
        byyearday: vec![],
        byweekno: vec![],
        byweekday: vec![],
        byhour: vec![],
        byminute: vec![],
        bysecond: vec![],
        bynweekday: vec![],
        byeaster: None,
    }
}

#[test]
fn rebuild_fills_the_year_masks() {
    let ii = IterInfo::rebuild(2020);
    assert_eq!(ii.yearlen, 366);
    assert_eq!(ii.nextyearlen, 365);
    assert_eq!(ii.yearordinal, 18262);
    assert_eq!(ii.mmask.len(), 373);
    assert_eq!(ii.mmask[0], 1);
    assert_eq!(ii.mmask[30], 1);
    assert_eq!(ii.mmask[31], 2);
    assert_eq!(ii.mdaymask[59], 29);
    assert_eq!(ii.nmdaymask[59], -1);
    assert_eq!(
        ii.mrange,
        vec![0, 31, 60, 91, 121, 152, 182, 213, 244, 274, 305, 335, 366]
    );
    // 2020-01-01 was a Wednesday; the mask cycles from there.
    assert_eq!(ii.wdaymask[0], 2);
    assert_eq!(ii.wdaymask[5], 0);
    // The spill days continue into January of the next year.
    assert_eq!(ii.mmask[366], 1);
    assert_eq!(ii.mdaymask[366], 1);
    assert_eq!(ii.nmdaymask[366], -31);
}

#[test]
fn bymonth_filter_keeps_only_listed_months() {
    let ii = IterInfo::rebuild(2022);
    let mut o = opts(date(2022, 1, 1));
    o.bymonth = vec![2];
    assert!(is_filtered(&ii, 0, &o).unwrap());
    assert!(!is_filtered(&ii, 31, &o).unwrap());
    assert!(is_filtered(&ii, 59, &o).unwrap());
}

#[test]
fn byweekday_filter_keeps_only_listed_weekdays() {
    let ii = IterInfo::rebuild(2022);
    let mut o = opts(date(2022, 1, 1));
    o.byweekday = vec![0];
    // 2022-01-03, offset 2, is a Monday.
    assert!(is_filtered(&ii, 0, &o).unwrap());
    assert!(!is_filtered(&ii, 2, &o).unwrap());
    assert!(is_filtered(&ii, 3, &o).unwrap());
}

#[test]
fn full_bymonth_filters_like_empty_bymonth() {
    let ii = IterInfo::rebuild(2022);
    let mut with_all = opts(date(2022, 1, 1));
    with_all.bymonth = (1..=12).collect();
    with_all.byweekday = vec![5, 6];
    let mut without = opts(date(2022, 1, 1));
    without.byweekday = vec![5, 6];
    for d in 0..ii.yearlen {
        assert_eq!(
            is_filtered(&ii, d, &with_all).unwrap(),
            is_filtered(&ii, d, &without).unwrap()
        );
    }
}

#[test]
fn negative_yearday_marks_new_years_eve_only() {
    let ii = IterInfo::rebuild(2022);
    let mut o = opts(date(2022, 1, 1));
    o.byyearday = vec![-1];
    for d in 0..ii.yearlen {
        assert_eq!(is_filtered(&ii, d, &o).unwrap(), d != ii.yearlen - 1);
    }
}

#[test]
fn negative_monthday_marks_last_days_of_months() {
    let ii = IterInfo::rebuild(2021);
    let mut o = opts(date(2021, 1, 1));
    o.bynmonthday = vec![-1];
    // January 2021: only offset 30 (31 January) survives.
    let mut dayset: Vec<Option<isize>> = (0..31).map(Some).collect();
    let any = remove_filtered_days(&mut dayset, 0, 31, &ii, &o).unwrap();
    assert!(any);
    for d in 0..30 {
        assert_eq!(dayset[d], None);
    }
    assert_eq!(dayset[30], Some(30));
}

#[test]
fn remove_filtered_days_touches_only_the_window() {
    let ii = IterInfo::rebuild(2021);
    let mut o = opts(date(2021, 1, 1));
    o.bymonth = vec![12];
    let mut dayset: Vec<Option<isize>> = vec![Some(0), Some(1), Some(2), None, Some(4)];
    let any = remove_filtered_days(&mut dayset, 1, 4, &ii, &o).unwrap();
    assert!(any);
    assert_eq!(dayset, vec![Some(0), None, None, None, Some(4)]);
}

#[test]
fn remove_filtered_days_reports_nothing_for_passing_window() {
    let ii = IterInfo::rebuild(2021);
    let mut o = opts(date(2021, 1, 1));
    o.bymonth = vec![1];
    let mut dayset: Vec<Option<isize>> = vec![Some(0), Some(1)];
    let any = remove_filtered_days(&mut dayset, 0, 2, &ii, &o).unwrap();
    assert!(!any);
    assert_eq!(dayset, vec![Some(0), Some(1)]);
}

#[test]
fn decrement_date_clamps_once_to_target_month() {
    let d = decrement_date_until_valid(date(2021, 3, 31), 2, None).unwrap();
    assert_eq!(d, date(2021, 2, 28));
    let d = decrement_date_until_valid(date(2021, 3, 31), 2, Some(2024)).unwrap();
    assert_eq!(d, date(2024, 2, 29));
    let d = decrement_date_until_valid(date(2021, 3, 15), 9, None).unwrap();
    assert_eq!(d, date(2021, 9, 15));
}
