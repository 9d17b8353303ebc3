use rrule_core::datetime::DateTime;
use rrule_core::poslist::build_poslist;

fn day(d: u32) -> DateTime {
    DateTime { year: 2022, month: 1, day: d, hour: 0, minute: 0, second: 0, millisecond: 0 }
}

#[test]
fn negative_one_selects_the_last_candidate() {
    let cands = vec![day(3), day(4), day(5), day(6), day(7)];
    assert_eq!(build_poslist(&vec![-1], &cands), vec![day(7)]);
}

#[test]
fn positive_and_negative_ordinals_combine_in_candidate_order() {
    let cands = vec![day(3), day(4), day(5), day(6)];
    assert_eq!(build_poslist(&vec![-1, 1], &cands), vec![day(3), day(6)]);
}

#[test]
fn duplicate_ordinals_do_not_duplicate_output() {
    let cands = vec![day(3), day(4)];
    assert_eq!(build_poslist(&vec![2, -1, 2], &cands), vec![day(4)]);
}

#[test]
fn ordinals_off_the_candidate_list_select_nothing() {
    let cands = vec![day(3), day(4), day(5)];
    assert_eq!(build_poslist(&vec![10, -10], &cands), Vec::<DateTime>::new());
}

#[test]
fn listing_every_ordinal_keeps_every_candidate() {
    let cands = vec![day(3), day(4), day(5)];
    assert_eq!(build_poslist(&vec![1, 2, 3], &cands), cands);
}
