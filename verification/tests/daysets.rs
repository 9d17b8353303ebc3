use rrule_core::dayset::{ddayset, mdayset, wdayset, ydayset};
use rrule_core::iterinfo::IterInfo;

#[test]
fn yearly_window_covers_the_whole_year() {
    let ii = IterInfo::rebuild(2022);
    let (set, start, end) = ydayset(&ii);
    assert_eq!((start, end), (0, 365));
    assert_eq!(set.len(), 365);
    assert_eq!(set[0], Some(0));
    assert_eq!(set[364], Some(364));
}

#[test]
fn monthly_window_covers_one_month() {
    let ii = IterInfo::rebuild(2021);
    let (set, start, end) = mdayset(&ii, 2);
    assert_eq!((start, end), (31, 59));
    assert_eq!(set.len(), 365);
    assert_eq!(set[30], None);
    assert_eq!(set[31], Some(31));
    assert_eq!(set[58], Some(58));
    assert_eq!(set[59], None);
}

#[test]
fn weekly_window_stops_before_the_week_start() {
    // 2022-01-01 is a Saturday; with wkst = Monday the window holds Saturday
    // and Sunday only.
    let ii = IterInfo::rebuild(2022);
    let (set, start, end) = wdayset(&ii, 0, 0);
    assert_eq!((start, end), (0, 2));
    assert_eq!(set.len(), 372);
    assert_eq!(set[0], Some(0));
    assert_eq!(set[1], Some(1));
    assert_eq!(set[2], None);
}

#[test]
fn weekly_window_wraps_past_the_year_end() {
    // 2022-12-31, offset 364, is a Saturday; the window spills into the next
    // year's 1 January.
    let ii = IterInfo::rebuild(2022);
    let (set, start, end) = wdayset(&ii, 364, 0);
    assert_eq!((start, end), (364, 366));
    assert_eq!(set[364], Some(364));
    assert_eq!(set[365], Some(365));
    assert_eq!(set[366], None);
}

#[test]
fn daily_window_is_a_single_day() {
    let ii = IterInfo::rebuild(2022);
    let (set, start, end) = ddayset(&ii, 100);
    assert_eq!((start, end), (100, 101));
    assert_eq!(set[99], None);
    assert_eq!(set[100], Some(100));
    assert_eq!(set[101], None);
}
