//! Selection of the candidate day window for one iteration of the driving
//! frequency: the whole year, one month, one week from the counter's day, or
//! a single day. A window is a vector of optional day offsets together with
//! its `[start, end)` bounds; the filters blank entries out in place.

use vstd::prelude::*;
use crate::datetime::{days_before_month, lemma_dbm_mono, lemma_months_fill_year};
use crate::iterinfo::IterInfo;

verus! {

/// The candidate window of a yearly cycle: every day of the year.
pub fn ydayset(ii: &IterInfo) -> (r: (Vec<Option<isize>>, usize, usize))
    requires
        ii.wf(),
    ensures
        r.0@.len() == ii.yearlen,
        forall|i: int| 0 <= i < ii.yearlen ==> r.0@[i] == Some(i as isize),
        r.1 == 0,
        r.2 == ii.yearlen,
{
    let mut v: Vec<Option<isize>> = Vec::new();
    let mut i: usize = 0;
    while i < ii.yearlen
        invariant
            ii.yearlen <= 366,
            i <= ii.yearlen,
            v@.len() == i,
            forall|j: int| 0 <= j < i ==> v@[j] == Some(j as isize),
        decreases ii.yearlen - i,
    {
        v.push(Some(i as isize));
        i = i + 1;
    }
    (v, 0, ii.yearlen)
}

/// The candidate window of a monthly cycle: the days of `month`.
pub fn mdayset(ii: &IterInfo, month: u32) -> (r: (Vec<Option<isize>>, usize, usize))
    requires
        ii.wf(),
        ii.masks_built(),
        1 <= month <= 12,
    ensures
        r.0@.len() == ii.yearlen,
        r.1 == days_before_month(ii.year as int, month as int),
        r.2 == days_before_month(ii.year as int, month as int + 1),
        r.1 <= r.2 <= ii.yearlen,
        forall|i: int| 0 <= i < ii.yearlen ==> r.0@[i] == (if r.1 <= i < r.2 {
            Some(i as isize)
        } else {
            None::<isize>
        }),
{
    let start = ii.mrange[(month - 1) as usize];
    let end = ii.mrange[month as usize];
    proof {
        lemma_dbm_mono(ii.year as int, month as int, month as int + 1);
        lemma_dbm_mono(ii.year as int, month as int + 1, 13);
        lemma_dbm_mono(ii.year as int, 1, month as int);
        lemma_months_fill_year(ii.year as int);
    }
    let mut v: Vec<Option<isize>> = Vec::new();
    let mut i: usize = 0;
    while i < ii.yearlen
        invariant
            ii.yearlen <= 366,
            i <= ii.yearlen,
            start <= end <= ii.yearlen,
            v@.len() == i,
            forall|j: int| 0 <= j < i ==> v@[j] == (if start <= j < end {
                Some(j as isize)
            } else {
                None::<isize>
            }),
        decreases ii.yearlen - i,
    {
        if start <= i && i < end {
            v.push(Some(i as isize));
        } else {
            v.push(None);
        }
        i = i + 1;
    }
    (v, start, end)
}

/// How many days a weekly window spans from day `start`: it runs up to the
/// day before the next week start, and never longer than seven days.
pub open spec fn week_span_from(wdaymask: Seq<usize>, start: int, wkst: int, k: int) -> int
    decreases 8 - k,
{
    if k < 1 || k >= 7 {
        7
    } else if wdaymask[start + k] == wkst {
        k
    } else {
        week_span_from(wdaymask, start, wkst, k + 1)
    }
}

/// The candidate window of a weekly cycle: the counter's day up to the day
/// before the next week start, at most seven days, possibly spilling past
/// the year's end.
pub fn wdayset(ii: &IterInfo, yday: usize, wkst: usize) -> (r: (Vec<Option<isize>>, usize, usize))
    requires
        ii.wf(),
        yday < ii.yearlen,
        wkst < 7,
    ensures
        r.0@.len() == ii.yearlen + 7,
        r.1 == yday,
        r.2 == yday + week_span_from(ii.wdaymask@, yday as int, wkst as int, 1),
        yday < r.2 <= yday + 7,
        forall|i: int| 0 <= i < ii.yearlen + 7 ==> r.0@[i] == (if r.1 <= i < r.2 {
            Some(i as isize)
        } else {
            None::<isize>
        }),
{
    let mut span: usize = 1;
    while span < 7 && ii.wdaymask[yday + span] != wkst
        invariant
            ii.wf(),
            yday < ii.yearlen,
            1 <= span <= 7,
            week_span_from(ii.wdaymask@, yday as int, wkst as int, 1) == week_span_from(
                ii.wdaymask@,
                yday as int,
                wkst as int,
                span as int,
            ),
        decreases 7 - span,
    {
        span = span + 1;
    }
    proof {
        assert(week_span_from(ii.wdaymask@, yday as int, wkst as int, span as int) == span);
    }
    let end = yday + span;
    let mut v: Vec<Option<isize>> = Vec::new();
    let mut i: usize = 0;
    while i < ii.yearlen + 7
        invariant
            ii.yearlen <= 366,
            i <= ii.yearlen + 7,
            yday < end <= ii.yearlen + 7,
            v@.len() == i,
            forall|j: int| 0 <= j < i ==> v@[j] == (if yday <= j < end {
                Some(j as isize)
            } else {
                None::<isize>
            }),
        decreases ii.yearlen + 7 - i,
    {
        if yday <= i && i < end {
            v.push(Some(i as isize));
        } else {
            v.push(None);
        }
        i = i + 1;
    }
    (v, yday, end)
}

/// The candidate window of a daily or finer cycle: the counter's day alone.
pub fn ddayset(ii: &IterInfo, yday: usize) -> (r: (Vec<Option<isize>>, usize, usize))
    requires
        ii.wf(),
        yday < ii.yearlen,
    ensures
        r.0@.len() == ii.yearlen,
        r.1 == yday,
        r.2 == yday + 1,
        forall|i: int| 0 <= i < ii.yearlen ==> r.0@[i] == (if i == yday {
            Some(i as isize)
        } else {
            None::<isize>
        }),
{
    let mut v: Vec<Option<isize>> = Vec::new();
    let mut i: usize = 0;
    while i < ii.yearlen
        invariant
            ii.yearlen <= 366,
            yday < ii.yearlen,
            i <= ii.yearlen,
            v@.len() == i,
            forall|j: int| 0 <= j < i ==> v@[j] == (if j == yday {
                Some(j as isize)
            } else {
                None::<isize>
            }),
        decreases ii.yearlen - i,
    {
        if i == yday {
            v.push(Some(i as isize));
        } else {
            v.push(None);
        }
        i = i + 1;
    }
    (v, yday, yday + 1)
}

} // verus!
