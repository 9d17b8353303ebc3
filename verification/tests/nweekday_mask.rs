use rrule_core::nweekday::build_nweekday_mask;

#[test]
fn third_monday_of_the_year_is_marked() {
    // 2021-01-01 is a Friday (weekday 4); the third Monday of 2021 is
    // 18 January, day offset 17.
    let mask = build_nweekday_mask(372, 4, 0, 365, &vec![vec![0, 3]]);
    assert_eq!(mask.len(), 372);
    for (d, v) in mask.iter().enumerate() {
        assert_eq!(*v, if d == 17 { 1 } else { 0 });
    }
}

#[test]
fn last_weekdays_of_a_month_are_marked() {
    // January 2022 starts on a Saturday (weekday 5). The last Monday through
    // Friday of the month are offsets 30, 24, 25, 26 and 27.
    let pairs = vec![vec![0, -1], vec![1, -1], vec![2, -1], vec![3, -1], vec![4, -1]];
    let mask = build_nweekday_mask(372, 5, 0, 31, &pairs);
    for (d, v) in mask.iter().enumerate() {
        let expected = matches!(d, 24 | 25 | 26 | 27 | 30);
        assert_eq!(*v == 1, expected, "offset {d}");
    }
}

#[test]
fn ordinals_off_the_scope_mark_nothing() {
    // February 2021 has four Mondays: a fifth one does not exist.
    // 2021-01-01 is a Friday; February spans offsets 31..59.
    let mask = build_nweekday_mask(372, 4, 31, 59, &vec![vec![0, 5]]);
    assert!(mask.iter().all(|v| *v == 0));
}
