//! The guarantees of the iteration core, stated and proved as laws over the
//! spec functions that the executable functions are verified against.

use vstd::prelude::*;
use crate::datetime::{DateTime, Time, is_leap_year, lemma_epoch_day_injective};
use crate::error::RRuleIterError;
use crate::iter::{
    EmissionStep, counter_advanced, emission_of, filtered_day, times_of_hour, times_of_minute,
    timeset_of,
};
use crate::iterinfo::IterInfo;
use crate::options::{Frequenzy, ParsedOptions};
use crate::poslist::{pos_selected, poslist_upto};
use crate::utils::{contains_isize, contains_usize};

verus! {

/// Position of a time of day on the millisecond scale.
pub open spec fn time_millis(t: Time) -> int {
    ((t.hour * 3600 + t.minute * 60 + t.second) * 1000) + t.millisecond
}

/// The sequence climbs strictly on the millisecond scale.
pub open spec fn strictly_ascending(s: Seq<Time>) -> bool {
    forall|i: int, j: int| 0 <= i < j < s.len() ==> time_millis(s[i]) < time_millis(s[j])
}

/// The entries climb strictly.
pub open spec fn strictly_increasing(s: Seq<usize>) -> bool {
    forall|i: int, j: int| 0 <= i < j < s.len() ==> s[i] < s[j]
}

/// Every entry lies below `bound`.
pub open spec fn all_below(s: Seq<usize>, bound: int) -> bool {
    forall|i: int| 0 <= i < s.len() ==> s[i] < bound
}

/// The times of one (hour, minute) cell, element by element.
pub proof fn lemma_times_of_minute_index(h: usize, mi: usize, bysecond: Seq<usize>, ms: usize)
    ensures
        times_of_minute(h, mi, bysecond, ms).len() == bysecond.len(),
        forall|i: int| 0 <= i < bysecond.len() ==> #[trigger] times_of_minute(
            h,
            mi,
            bysecond,
            ms,
        )[i] == (Time { hour: h, minute: mi, second: bysecond[i], millisecond: ms }),
    decreases bysecond.len(),
{
    if bysecond.len() > 0 {
        lemma_times_of_minute_index(h, mi, bysecond.drop_last(), ms);
    }
}

/// The times of one hour climb strictly when the BY-sets do, and each
/// carries the hour, a listed minute, a second below sixty and the given
/// millisecond.
pub proof fn lemma_times_of_hour_sorted(
    h: usize,
    byminute: Seq<usize>,
    bysecond: Seq<usize>,
    ms: usize,
)
    requires
        ms < 1000,
        strictly_increasing(byminute),
        all_below(byminute, 60),
        strictly_increasing(bysecond),
        all_below(bysecond, 60),
    ensures
        strictly_ascending(times_of_hour(h, byminute, bysecond, ms)),
        forall|i: int| 0 <= i < times_of_hour(h, byminute, bysecond, ms).len() ==> {
            let e = #[trigger] times_of_hour(h, byminute, bysecond, ms)[i];
            &&& e.hour == h
            &&& contains_usize(byminute, e.minute as int)
            &&& e.second < 60
            &&& e.millisecond == ms
        },
    decreases byminute.len(),
{
    if byminute.len() > 0 {
        lemma_times_of_hour_sorted(h, byminute.drop_last(), bysecond, ms);
        lemma_times_of_minute_index(h, byminute.last(), bysecond, ms);
        let prev = times_of_hour(h, byminute.drop_last(), bysecond, ms);
        let block = times_of_minute(h, byminute.last(), bysecond, ms);
        assert forall|i: int| 0 <= i < prev.len() implies contains_usize(
            byminute,
            prev[i].minute as int,
        ) && prev[i].minute < byminute.last() by {
            let k = choose|k: int| 0 <= k < byminute.drop_last().len() && byminute.drop_last()[k]
                as int == prev[i].minute as int;
            assert(byminute[k] == byminute.drop_last()[k]);
        }
        assert forall|i: int, j: int| 0 <= i < prev.len() && 0 <= j < block.len() implies
            time_millis(prev[i]) < time_millis(block[j]) by {
            assert(block[j].minute == byminute.last());
            assert(block[j].second == bysecond[j]);
        }
        assert(strictly_ascending(prev + block));
    }
}

/// Monotonicity within one cycle: the full BYHOUR x BYMINUTE x BYSECOND
/// product is emitted in strictly ascending time order whenever the three
/// sets are sorted ascending and hold no leap second.
pub proof fn lemma_timeset_sorted(
    byhour: Seq<usize>,
    byminute: Seq<usize>,
    bysecond: Seq<usize>,
    ms: usize,
)
    requires
        ms < 1000,
        strictly_increasing(byhour),
        all_below(byhour, 24),
        strictly_increasing(byminute),
        all_below(byminute, 60),
        strictly_increasing(bysecond),
        all_below(bysecond, 60),
    ensures
        strictly_ascending(timeset_of(byhour, byminute, bysecond, ms)),
        forall|i: int| 0 <= i < timeset_of(byhour, byminute, bysecond, ms).len() ==> {
            let e = #[trigger] timeset_of(byhour, byminute, bysecond, ms)[i];
            &&& contains_usize(byhour, e.hour as int)
            &&& contains_usize(byminute, e.minute as int)
            &&& e.second < 60
            &&& e.millisecond == ms
        },
    decreases byhour.len(),
{
    if byhour.len() > 0 {
        lemma_timeset_sorted(byhour.drop_last(), byminute, bysecond, ms);
        lemma_times_of_hour_sorted(byhour.last(), byminute, bysecond, ms);
        let prev = timeset_of(byhour.drop_last(), byminute, bysecond, ms);
        let block = times_of_hour(byhour.last(), byminute, bysecond, ms);
        assert forall|i: int| 0 <= i < prev.len() implies contains_usize(
            byhour,
            prev[i].hour as int,
        ) && prev[i].hour < byhour.last() by {
            let k = choose|k: int| 0 <= k < byhour.drop_last().len() && byhour.drop_last()[k]
                as int == prev[i].hour as int;
            assert(byhour[k] == byhour.drop_last()[k]);
        }
        assert forall|i: int, j: int| 0 <= i < prev.len() && 0 <= j < block.len() implies
            time_millis(prev[i]) < time_millis(block[j]) by {
            let km = choose|km: int| 0 <= km < byminute.len() && byminute[km] as int
                == prev[i].minute as int;
            assert(prev[i].minute < 60);
            assert(block[j].hour == byhour.last());
        }
        assert(strictly_ascending(prev + block));
    }
}

/// DTSTART floor: a candidate that precedes DTSTART is never emitted.
pub proof fn lemma_dtstart_floor(cand: DateTime, o: ParsedOptions, emitted: u32)
    ensures
        emission_of(cand, o, emitted) == EmissionStep::Emit ==> cand.ts_millis()
            >= o.dtstart.ts_millis(),
{
}

/// UNTIL honoured: a candidate past UNTIL is never emitted; it ends the
/// iteration.
pub proof fn lemma_until_honoured(cand: DateTime, o: ParsedOptions, emitted: u32)
    ensures
        (o.until matches Some(u) && emission_of(cand, o, emitted) == EmissionStep::Emit)
            ==> cand.ts_millis() <= o.until->Some_0.ts_millis(),
{
}

/// COUNT honoured: once the tally of emissions has reached COUNT, nothing
/// further is emitted, so the tally never exceeds COUNT.
pub proof fn lemma_count_honoured(cand: DateTime, o: ParsedOptions, emitted: u32)
    ensures
        (o.count matches Some(c) && emitted >= c) ==> emission_of(cand, o, emitted)
            != EmissionStep::Emit,
{
}

/// Determinism: the advancement relation admits one outcome per input, so
/// two iterators over equal options step through identical counter sequences.
pub proof fn lemma_advance_deterministic(
    counter: DateTime,
    options: ParsedOptions,
    filtered: bool,
    r1: Result<DateTime, RRuleIterError>,
    r2: Result<DateTime, RRuleIterError>,
)
    requires
        counter_advanced(counter, options, filtered, r1),
        counter_advanced(counter, options, filtered, r2),
    ensures
        r1 == r2,
{
    match options.freq {
        Frequenzy::Yearly => {},
        Frequenzy::Monthly => {},
        _ => {
            match r1 {
                Ok(d1) => {
                    match r2 {
                        Ok(d2) => {
                            lemma_epoch_day_injective(d1, d2);
                        },
                        Err(_) => {},
                    }
                },
                Err(_) => {},
            }
        },
    }
}

/// An empty BY-set imposes no filter: BYMONTH listing every month excludes
/// exactly what an absent BYMONTH excludes.
pub proof fn lemma_full_bymonth_like_empty(
    ii: IterInfo,
    d: int,
    o1: ParsedOptions,
    o2: ParsedOptions,
)
    requires
        1 <= ii.mmask@[d] <= 12,
        o1.bymonth@.len() > 0,
        forall|v: int| 1 <= v <= 12 ==> contains_usize(o1.bymonth@, v),
        o2.bymonth@.len() == 0,
        o2.byweekno@ == o1.byweekno@,
        o2.byweekday@ == o1.byweekday@,
        o2.byeaster == o1.byeaster,
        o2.bymonthday@ == o1.bymonthday@,
        o2.bynmonthday@ == o1.bynmonthday@,
        o2.byyearday@ == o1.byyearday@,
    ensures
        filtered_day(ii, d, o1) == filtered_day(ii, d, o2),
{
    assert(contains_usize(o1.bymonth@, ii.mmask@[d] as int));
}

/// An empty BY-set imposes no filter: BYDAY listing every weekday excludes
/// exactly what an absent BYDAY excludes.
pub proof fn lemma_full_byweekday_like_empty(
    ii: IterInfo,
    d: int,
    o1: ParsedOptions,
    o2: ParsedOptions,
)
    requires
        0 <= ii.wdaymask@[d] < 7,
        o1.byweekday@.len() > 0,
        forall|v: int| 0 <= v < 7 ==> contains_usize(o1.byweekday@, v),
        o2.byweekday@.len() == 0,
        o2.bymonth@ == o1.bymonth@,
        o2.byweekno@ == o1.byweekno@,
        o2.byeaster == o1.byeaster,
        o2.bymonthday@ == o1.bymonthday@,
        o2.bynmonthday@ == o1.bynmonthday@,
        o2.byyearday@ == o1.byyearday@,
    ensures
        filtered_day(ii, d, o1) == filtered_day(ii, d, o2),
{
    assert(contains_usize(o1.byweekday@, ii.wdaymask@[d] as int));
}

/// Negative indexing: under `BYYEARDAY=-1` alone, the one day of the year
/// that passes the filter is the last one, 31 December.
pub proof fn lemma_negative_yearday(ii: IterInfo, d: int, o: ParsedOptions)
    requires
        0 <= d < ii.yearlen,
        o.bymonth@.len() == 0,
        o.byweekno@.len() == 0,
        o.byweekday@.len() == 0,
        o.byeaster is None,
        o.bymonthday@.len() == 0,
        o.bynmonthday@.len() == 0,
        ii.nwdaymask matches Some(nw) ==> nw@.len() == 0,
        o.byyearday@ == seq![(-1) as isize],
    ensures
        (!filtered_day(ii, d, o)) <==> d == ii.yearlen - 1,
{
    assert(o.byyearday@[0] == (-1) as isize);
    if d == ii.yearlen - 1 {
        assert(o.byyearday@[0] as int == d - ii.yearlen);
        assert(contains_isize(o.byyearday@, d - ii.yearlen));
    }
}

/// Negative indexing: under `BYMONTHDAY=-1` alone (normalised into the
/// negative bucket), a day passes the filter exactly when the negative
/// month-day mask marks it as the last day of its month.
pub proof fn lemma_negative_monthday(ii: IterInfo, d: int, o: ParsedOptions)
    requires
        o.bymonth@.len() == 0,
        o.byweekno@.len() == 0,
        o.byweekday@.len() == 0,
        o.byeaster is None,
        o.byyearday@.len() == 0,
        o.bymonthday@.len() == 0,
        ii.nwdaymask matches Some(nw) ==> nw@.len() == 0,
        o.bynmonthday@ == seq![(-1) as isize],
    ensures
        (!filtered_day(ii, d, o)) <==> ii.nmdaymask@[d] == -1,
{
    assert(o.bynmonthday@[0] == (-1) as isize);
    if ii.nmdaymask@[d] == -1 {
        assert(o.bynmonthday@[0] as int == ii.nmdaymask@[d] as int);
        assert(contains_isize(o.bynmonthday@, ii.nmdaymask@[d] as int));
    }
}

/// The instant stands among the first `i` candidates.
pub open spec fn appears_before(e: DateTime, cands: Seq<DateTime>, i: int) -> bool {
    exists|j: int| 0 <= j < i && #[trigger] cands[j] == e
}

/// BYSETPOS selects a subsequence: every kept instant is one of the
/// candidates it was selected from.
pub proof fn lemma_poslist_membership(cands: Seq<DateTime>, pos: Seq<isize>, i: int)
    requires
        i <= cands.len(),
    ensures
        forall|a: int| 0 <= a < poslist_upto(cands, pos, i).len() ==> appears_before(
            #[trigger] poslist_upto(cands, pos, i)[a],
            cands,
            i,
        ),
    decreases i,
{
    if i > 0 {
        lemma_poslist_membership(cands, pos, i - 1);
        let prev = poslist_upto(cands, pos, i - 1);
        let cur = poslist_upto(cands, pos, i);
        assert forall|a: int| 0 <= a < cur.len() implies appears_before(
            #[trigger] cur[a],
            cands,
            i,
        ) by {
            if a < prev.len() {
                assert(appears_before(prev[a], cands, i - 1));
                let j = choose|j: int| 0 <= j < i - 1 && #[trigger] cands[j] == prev[a];
                assert(0 <= j < i && cands[j] == cur[a]);
            } else {
                assert(pos_selected(pos, cands.len() as int, i - 1));
                assert(0 <= i - 1 < i && cands[i - 1] == cur[a]);
            }
        }
    }
}

/// BYSETPOS keeps order: of candidates in strictly ascending time order, the
/// selection is in strictly ascending time order.
pub proof fn lemma_poslist_keeps_order(cands: Seq<DateTime>, pos: Seq<isize>, i: int)
    requires
        forall|a: int, b: int| 0 <= a < b < cands.len() ==> cands[a].ts_millis()
            < cands[b].ts_millis(),
        i <= cands.len(),
    ensures
        forall|a: int, b: int| 0 <= a < b < poslist_upto(cands, pos, i).len() ==> poslist_upto(
            cands,
            pos,
            i,
        )[a].ts_millis() < poslist_upto(cands, pos, i)[b].ts_millis(),
    decreases i,
{
    if i > 0 {
        lemma_poslist_keeps_order(cands, pos, i - 1);
        lemma_poslist_membership(cands, pos, i - 1);
        let prev = poslist_upto(cands, pos, i - 1);
        let cur = poslist_upto(cands, pos, i);
        if pos_selected(pos, cands.len() as int, i - 1) {
            assert(cur == prev + seq![cands[i - 1]]);
            assert forall|a: int| 0 <= a < prev.len() implies prev[a].ts_millis() < cands[i
                - 1].ts_millis() by {
                assert(appears_before(prev[a], cands, i - 1));
                let j = choose|j: int| 0 <= j < i - 1 && #[trigger] cands[j] == prev[a];
            }
        } else {
            assert(cur =~= prev);
        }
    }
}

/// BYSETPOS listing every ordinal selects every candidate: a full set of
/// positions filters nothing, as an absent BYSETPOS does.
pub proof fn lemma_poslist_full_is_identity(cands: Seq<DateTime>, pos: Seq<isize>, i: int)
    requires
        0 <= i <= cands.len(),
        forall|k: int| 0 <= k < cands.len() ==> pos_selected(pos, cands.len() as int, k),
    ensures
        poslist_upto(cands, pos, i) == cands.take(i),
    decreases i,
{
    if i > 0 {
        lemma_poslist_full_is_identity(cands, pos, i - 1);
        assert(poslist_upto(cands, pos, i) =~= cands.take(i));
    } else {
        assert(poslist_upto(cands, pos, 0) =~= cands.take(0));
    }
}

/// Leap-year clamp: a yearly rule whose counter sits on 29 February lands on
/// 29 February in leap target years and is clamped down to 28 February in
/// the others.
pub proof fn lemma_leap_year_clamp(
    counter: DateTime,
    options: ParsedOptions,
    r: Result<DateTime, RRuleIterError>,
)
    requires
        counter_advanced(counter, options, false, r),
        options.freq == Frequenzy::Yearly,
        counter.month == 2,
        counter.day == 29,
        r matches Ok(d2),
    ensures
        r->Ok_0.month == 2,
        r->Ok_0.day == if is_leap_year(counter.year + options.interval) {
            29int
        } else {
            28int
        },
{
}

} // verus!
