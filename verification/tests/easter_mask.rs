use rrule_core::datetime::DateTime;
use rrule_core::easter::build_easter_mask;
use rrule_core::iter::is_filtered;
use rrule_core::iterinfo::IterInfo;
use rrule_core::options::{Frequenzy, ParsedOptions};

#[test]
fn easter_mask_marks_easter_sunday() {
    // Western Easter: 12 Apr 2020, 17 Apr 2022, 31 Mar 2024.
    assert_eq!(build_easter_mask(2020, 0), vec![102]);
    assert_eq!(build_easter_mask(2022, 0), vec![106]);
    assert_eq!(build_easter_mask(2024, 0), vec![90]);
}

#[test]
fn easter_mask_applies_the_offset() {
    assert_eq!(build_easter_mask(2022, -2), vec![104]);
    assert_eq!(build_easter_mask(2022, 7), vec![113]);
}

#[test]
fn easter_mask_is_empty_when_the_offset_leaves_the_year() {
    assert_eq!(build_easter_mask(2022, -107), Vec::<isize>::new());
    assert_eq!(build_easter_mask(2022, 300), Vec::<isize>::new());
}

#[test]
fn byeaster_filter_keeps_only_the_marked_day() {
    let mut ii = IterInfo::rebuild(2022);
    ii.eastermask = Some(build_easter_mask(2022, 0));
    let o = ParsedOptions {
        freq: Frequenzy::Yearly,
        interval: 1,
        count: None,
        until: None,
        tzid: None,
        dtstart: DateTime {
            year: 2022,
            month: 1,
            day: 1,
            hour: 0,
            minute: 0,
            second: 0,
            millisecond: 0,
        },
        wkst: 0,
        bysetpos: vec![],
        bymonth: vec![],
        bymonthday: vec![],
        bynmonthday: vec![],
        byyearday: vec![],
        byweekno: vec![],
        byweekday: vec![],
        byhour: vec![],
        byminute: vec![],
        bysecond: vec![],
        bynweekday: vec![],
        byeaster: Some(0),
    };
    for d in 0..365 {
        assert_eq!(is_filtered(&ii, d, &o).unwrap(), d != 106);
    }
}
