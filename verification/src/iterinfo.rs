//! The per-year cache of day masks the filters consult.
//!
//! Each mask is indexed by day-of-year offset and extends seven days past the
//! year's end, so that weekly windows that wrap the year boundary can still be
//! addressed.

use vstd::prelude::*;
use crate::datetime::{
    DateTime, MAX_YEAR, MIN_YEAR, days_before_month, days_before_year, days_in_month, epoch_day_of,
    leap_year, lemma_dbm_mono, lemma_months_fill_year, month_length, weekday_from_epoch,
    weekday_of, year_length,
};

verus! {

/// Per-year masks over day-of-year offsets `0 .. yearlen + 7`.
///
/// The optional masks exist exactly for the BY-sets that need them: `wnomask`
/// for BYWEEKNO, `nwdaymask` for BYDAY entries with an ordinal prefix (an
/// empty vector stands for "built, nothing marked"), `eastermask` for
/// BYEASTER.
pub struct IterInfo {
    /// The cached year.
    pub year: i32,
    /// Days in the cached year: 365 or 366.
    pub yearlen: usize,
    /// Days in the following year.
    pub nextyearlen: usize,
    /// Epoch day number of 1 Jan of the cached year.
    pub yearordinal: i64,
    /// Month (1..12) of each day offset.
    pub mmask: Vec<usize>,
    /// Day of month (1..31) of each day offset.
    pub mdaymask: Vec<isize>,
    /// Day of month counted from the month's end (-1 is the last day).
    pub nmdaymask: Vec<isize>,
    /// Weekday (0 = Monday) of each day offset.
    pub wdaymask: Vec<usize>,
    /// First day offset of each month; entry 12 is the year's length.
    pub mrange: Vec<usize>,
    /// ISO week membership under BYWEEKNO; 0 marks an unlisted week.
    pub wnomask: Option<Vec<usize>>,
    /// 1 marks days satisfying some BYDAY entry with an ordinal prefix.
    pub nwdaymask: Option<Vec<isize>>,
    /// Day offsets at a BYEASTER offset from Easter Sunday.
    pub eastermask: Option<Vec<isize>>,
}

impl IterInfo {
    /// Shape invariant: lengths agree with the cached year.
    pub open spec fn wf(self) -> bool {
        &&& MIN_YEAR <= self.year <= MAX_YEAR
        &&& self.yearlen == year_length(self.year as int)
        &&& self.nextyearlen == year_length(self.year as int + 1)
        &&& self.yearordinal == days_before_year(self.year as int)
        &&& self.mmask@.len() == self.yearlen + 7
        &&& self.mdaymask@.len() == self.yearlen + 7
        &&& self.nmdaymask@.len() == self.yearlen + 7
        &&& self.wdaymask@.len() == self.yearlen + 7
        &&& self.mrange@.len() == 13
        &&& (self.wnomask matches Some(w) ==> w@.len() == self.yearlen + 7)
        &&& (self.nwdaymask matches Some(w) ==> w@.len() == 0 || w@.len() == self.yearlen + 7)
    }

    /// Content invariant of the always-present masks: within the month of a
    /// day offset the masks carry the month number, the day of month and the
    /// day counted from the month's end; the seven spill days continue into
    /// January of the next year; the weekday mask cycles from 1 January.
    pub open spec fn masks_built(self) -> bool {
        let y = self.year as int;
        &&& (forall|m: int, d: int|
            #![trigger days_before_month(y, m), self.mmask@[d]]
            1 <= m <= 12 && days_before_month(y, m) <= d < days_before_month(y, m + 1) ==> {
                &&& self.mmask@[d] == m
                &&& self.mdaymask@[d] == d - days_before_month(y, m) + 1
                &&& self.nmdaymask@[d] == d - days_before_month(y, m) - month_length(y, m)
            })
        &&& (forall|d: int|
            self.yearlen <= d < self.yearlen + 7 ==> {
                &&& #[trigger] self.mmask@[d] == 1
                &&& self.mdaymask@[d] == d - self.yearlen + 1
                &&& self.nmdaymask@[d] == d - self.yearlen - 31
            })
        &&& (forall|d: int| 0 <= d < self.yearlen + 7 ==> #[trigger] self.wdaymask@[d]
            == weekday_from_epoch(days_before_year(y) + d))
        &&& (forall|i: int| 0 <= i <= 12 ==> #[trigger] self.mrange@[i] == days_before_month(
            y,
            i + 1,
        ))
    }

    /// Build the always-present masks for `year`. The optional masks start
    /// absent: the BY-sets that need them fill them separately.
    pub fn rebuild(year: i32) -> (r: IterInfo)
        requires
            MIN_YEAR <= year <= MAX_YEAR,
        ensures
            r.wf(),
            r.masks_built(),
            r.year == year,
            r.wnomask is None,
            r.nwdaymask is None,
            r.eastermask is None,
    {
        let yearlen: usize = if leap_year(year) {
            366
        } else {
            365
        };
        let nextyearlen: usize = if year == MAX_YEAR {
            proof {
                assert((MAX_YEAR as int + 1) % 4 == 0 && (MAX_YEAR as int + 1) % 400 == 0);
            }
            366
        } else if leap_year(year + 1) {
            366
        } else {
            365
        };
        let yearordinal = epoch_day_of(year, 1, 1);
        let ghost y = year as int;
        let mut mmask: Vec<usize> = Vec::new();
        let mut mdaymask: Vec<isize> = Vec::new();
        let mut nmdaymask: Vec<isize> = Vec::new();
        let mut mrange: Vec<usize> = Vec::new();
        mrange.push(0);
        let mut m: u32 = 1;
        while m <= 12
            invariant
                MIN_YEAR <= year <= MAX_YEAR,
                y == year as int,
                1 <= m <= 13,
                mmask@.len() == days_before_month(y, m as int),
                mdaymask@.len() == mmask@.len(),
                nmdaymask@.len() == mmask@.len(),
                mrange@.len() == m,
                forall|i: int| 0 <= i < m ==> #[trigger] mrange@[i] == days_before_month(
                    y,
                    i + 1,
                ),
                forall|mm: int, d: int|
                    #![trigger days_before_month(y, mm), mmask@[d]]
                    1 <= mm < m && days_before_month(y, mm) <= d < days_before_month(y, mm + 1)
                        ==> {
                        &&& mmask@[d] == mm
                        &&& mdaymask@[d] == d - days_before_month(y, mm) + 1
                        &&& nmdaymask@[d] == d - days_before_month(y, mm) - month_length(y, mm)
                    },
            decreases 13 - m,
        {
            let dim = days_in_month(year, m);
            let mut dd: u32 = 1;
            proof {
                lemma_dbm_mono(y, 1, m as int);
                lemma_dbm_mono(y, m as int, 13);
                assert forall|m1: int, m2: int| 1 <= m1 <= m2 <= 13 implies days_before_month(
                    y,
                    m1,
                ) <= days_before_month(y, m2) by {
                    lemma_dbm_mono(y, m1, m2);
                }
            }
            while dd <= dim
                invariant
                    MIN_YEAR <= year <= MAX_YEAR,
                    y == year as int,
                    1 <= m <= 12,
                    dim == month_length(y, m as int),
                    1 <= dd <= dim + 1,
                    0 <= days_before_month(y, m as int) <= 366,
                    mmask@.len() == days_before_month(y, m as int) + dd - 1,
                    mdaymask@.len() == mmask@.len(),
                    nmdaymask@.len() == mmask@.len(),
                    forall|mm: int, d: int|
                        #![trigger days_before_month(y, mm), mmask@[d]]
                        1 <= mm < m && days_before_month(y, mm) <= d < days_before_month(y, mm + 1)
                            ==> {
                            &&& mmask@[d] == mm
                            &&& mdaymask@[d] == d - days_before_month(y, mm) + 1
                            &&& nmdaymask@[d] == d - days_before_month(y, mm) - month_length(
                                y,
                                mm,
                            )
                        },
                    forall|d: int|
                        days_before_month(y, m as int) <= d < days_before_month(y, m as int) + dd
                            - 1 ==> {
                            &&& #[trigger] mmask@[d] == m
                            &&& mdaymask@[d] == d - days_before_month(y, m as int) + 1
                            &&& nmdaymask@[d] == d - days_before_month(y, m as int)
                                - month_length(y, m as int)
                        },
                decreases dim + 1 - dd,
            {
                proof {
                    assert(days_before_month(y, 1) == 0);
                    lemma_dbm_mono(y, 1, m as int);
                    assert forall|m1: int, m2: int| 1 <= m1 <= m2 <= 13 implies days_before_month(
                        y,
                        m1,
                    ) <= days_before_month(y, m2) by {
                        lemma_dbm_mono(y, m1, m2);
                    }
                }
                let ghost pre_m = mmask@;
                let ghost pre_d = mdaymask@;
                let ghost pre_n = nmdaymask@;
                mmask.push(m as usize);
                mdaymask.push(dd as isize);
                nmdaymask.push(dd as isize - dim as isize - 1);
                proof {
                    assert forall|mm: int, d: int|
                        #![trigger days_before_month(y, mm), mmask@[d]]
                        1 <= mm < m && days_before_month(y, mm) <= d < days_before_month(
                            y,
                            mm + 1,
                        ) implies {
                        &&& mmask@[d] == mm
                        &&& mdaymask@[d] == d - days_before_month(y, mm) + 1
                        &&& nmdaymask@[d] == d - days_before_month(y, mm) - month_length(y, mm)
                    } by {
                        lemma_dbm_mono(y, 1, mm);
                        lemma_dbm_mono(y, mm + 1, m as int);
                        assert(pre_m[d] == mm);
                        assert(mmask@[d] == pre_m[d]);
                        assert(mdaymask@[d] == pre_d[d]);
                        assert(nmdaymask@[d] == pre_n[d]);
                    }
                    assert forall|d: int|
                        days_before_month(y, m as int) <= d < days_before_month(y, m as int)
                            + dd implies {
                        &&& #[trigger] mmask@[d] == m
                        &&& mdaymask@[d] == d - days_before_month(y, m as int) + 1
                        &&& nmdaymask@[d] == d - days_before_month(y, m as int) - month_length(
                            y,
                            m as int,
                        )
                    } by {
                        if d < days_before_month(y, m as int) + dd - 1 {
                            assert(pre_m[d] == m);
                            assert(mmask@[d] == pre_m[d]);
                            assert(mdaymask@[d] == pre_d[d]);
                            assert(nmdaymask@[d] == pre_n[d]);
                        } else {
                            assert(d == pre_m.len());
                        }
                    }
                }
                dd = dd + 1;
            }
            proof {
                assert(days_before_month(y, m as int + 1) == days_before_month(y, m as int)
                    + month_length(y, m as int));
            }
            mrange.push(mmask.len());
            m = m + 1;
        }
        proof {
            lemma_months_fill_year(y);
        }
        let mut k: usize = 0;
        while k < 7
            invariant
                y == year as int,
                k <= 7,
                yearlen == year_length(y),
                mmask@.len() == yearlen + k,
                mdaymask@.len() == mmask@.len(),
                nmdaymask@.len() == mmask@.len(),
                forall|mm: int, d: int|
                    #![trigger days_before_month(y, mm), mmask@[d]]
                    1 <= mm <= 12 && days_before_month(y, mm) <= d < days_before_month(y, mm + 1)
                        ==> {
                        &&& mmask@[d] == mm
                        &&& mdaymask@[d] == d - days_before_month(y, mm) + 1
                        &&& nmdaymask@[d] == d - days_before_month(y, mm) - month_length(y, mm)
                    },
                forall|d: int|
                    yearlen <= d < yearlen + k ==> {
                        &&& #[trigger] mmask@[d] == 1
                        &&& mdaymask@[d] == d - yearlen + 1
                        &&& nmdaymask@[d] == d - yearlen - 31
                    },
            decreases 7 - k,
        {
            proof {
                lemma_months_fill_year(y);
                assert(days_before_month(y, 1) == 0);
                assert forall|m1: int, m2: int| 1 <= m1 <= m2 <= 13 implies days_before_month(
                    y,
                    m1,
                ) <= days_before_month(y, m2) by {
                    lemma_dbm_mono(y, m1, m2);
                }
            }
            mmask.push(1);
            mdaymask.push((k + 1) as isize);
            nmdaymask.push(k as isize - 31);
            k = k + 1;
        }
        let jan1 = DateTime {
            year,
            month: 1,
            day: 1,
            hour: 0,
            minute: 0,
            second: 0,
            millisecond: 0,
        };
        let mut w: u32 = weekday_of(&jan1);
        let mut wdaymask: Vec<usize> = Vec::new();
        let mut d: usize = 0;
        while d < yearlen + 7
            invariant
                y == year as int,
                yearlen == year_length(y),
                d <= yearlen + 7,
                w < 7,
                w == weekday_from_epoch(days_before_year(y) + d),
                wdaymask@.len() == d,
                forall|i: int| 0 <= i < d ==> #[trigger] wdaymask@[i] == weekday_from_epoch(
                    days_before_year(y) + i,
                ),
            decreases yearlen + 7 - d,
        {
            wdaymask.push(w as usize);
            proof {
                lemma_weekday_step(days_before_year(y) + d + 3);
            }
            w = if w == 6 {
                0
            } else {
                w + 1
            };
            d = d + 1;
        }
        IterInfo {
            year,
            yearlen,
            nextyearlen,
            yearordinal,
            mmask,
            mdaymask,
            nmdaymask,
            wdaymask,
            mrange,
            wnomask: None,
            nwdaymask: None,
            eastermask: None,
        }
    }
}

/// Stepping a day forward moves the weekday one place around the week.
proof fn lemma_weekday_step(x: int)
    ensures
        (x + 1) % 7 == if x % 7 == 6 {
            0int
        } else {
            x % 7 + 1
        },
{
    vstd::arithmetic::div_mod::lemma_fundamental_div_mod(x, 7);
    vstd::arithmetic::div_mod::lemma_mod_bound(x, 7);
    if x % 7 == 6 {
        vstd::arithmetic::div_mod::lemma_fundamental_div_mod_converse_mod(x + 1, 7, x / 7 + 1, 0);
    } else {
        vstd::arithmetic::div_mod::lemma_fundamental_div_mod_converse_mod(
            x + 1,
            7,
            x / 7,
            x % 7 + 1,
        );
    }
}

} // verus!
