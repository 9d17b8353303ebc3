//! The mask of days satisfying BYDAY entries that carry an ordinal prefix,
//! such as the third Monday of the scope. The scope is one month under a
//! monthly rule and the whole year otherwise; it is handed in as a window of
//! day offsets.

use vstd::prelude::*;

verus! {

/// Number of days in `[lo, hi)` whose weekday is `w`, where day offset 0 has
/// weekday `w0`.
pub open spec fn weekday_count(w0: int, lo: int, hi: int, w: int) -> int
    decreases hi - lo,
{
    if hi <= lo {
        0
    } else {
        weekday_count(w0, lo, hi - 1, w) + if (w0 + (hi - 1)) % 7 == w {
            1int
        } else {
            0int
        }
    }
}

/// Counting splits at any midpoint.
pub proof fn lemma_weekday_count_split(w0: int, lo: int, mid: int, hi: int, w: int)
    requires
        lo <= mid <= hi,
    ensures
        weekday_count(w0, lo, hi, w) == weekday_count(w0, lo, mid, w) + weekday_count(
            w0,
            mid,
            hi,
            w,
        ),
    decreases hi - mid,
{
    if mid < hi {
        lemma_weekday_count_split(w0, lo, mid, hi - 1, w);
    }
}

/// A count is never negative.
pub proof fn lemma_weekday_count_nonneg(w0: int, lo: int, hi: int, w: int)
    ensures
        weekday_count(w0, lo, hi, w) >= 0,
    decreases hi - lo,
{
    if lo < hi {
        lemma_weekday_count_nonneg(w0, lo, hi - 1, w);
    }
}

/// Day `d` is the `n`-th day of weekday `w` inside `[lo, hi)`: counted from
/// the front for positive `n` and from the back for negative `n`.
pub open spec fn is_nth_weekday(w0: int, lo: int, hi: int, w: int, n: int, d: int) -> bool {
    &&& lo <= d < hi
    &&& (w0 + d) % 7 == w
    &&& (if n > 0 {
        weekday_count(w0, lo, d + 1, w) == n
    } else {
        weekday_count(w0, d, hi, w) == -n
    })
}

/// Some listed (weekday, ordinal) pair marks day `d`.
pub open spec fn pair_marks(pairs: Seq<Vec<isize>>, w0: int, lo: int, hi: int, d: int) -> bool {
    exists|p: int| 0 <= p < pairs.len() && is_nth_weekday(
        w0,
        lo,
        hi,
        (#[trigger] pairs[p])@[0] as int,
        pairs[p]@[1] as int,
        d,
    )
}

/// At most one day of the window is the `n`-th day of weekday `w`.
proof fn lemma_nth_weekday_unique(w0: int, lo: int, hi: int, w: int, n: int, d1: int, d2: int)
    requires
        is_nth_weekday(w0, lo, hi, w, n, d1),
        is_nth_weekday(w0, lo, hi, w, n, d2),
    ensures
        d1 == d2,
{
    let a = if d1 <= d2 {
        d1
    } else {
        d2
    };
    let b = if d1 <= d2 {
        d2
    } else {
        d1
    };
    reveal_with_fuel(weekday_count, 3);
    if a < b {
        if n > 0 {
            lemma_weekday_count_split(w0, lo, a + 1, b + 1, w);
            lemma_weekday_count_split(w0, a + 1, b, b + 1, w);
            lemma_weekday_count_nonneg(w0, a + 1, b, w);
        } else {
            lemma_weekday_count_split(w0, a, a + 1, hi, w);
            lemma_weekday_count_split(w0, a + 1, b, hi, w);
            lemma_weekday_count_nonneg(w0, a + 1, b, w);
        }
    }
}

/// Build the ordinal-BYDAY mask: entry `d` is 1 exactly when some listed
/// (weekday, ordinal) pair names day `d` within the scope `[lo, hi)`.
pub fn build_nweekday_mask(
    masklen: usize,
    w0: usize,
    lo: usize,
    hi: usize,
    bynweekday: &Vec<Vec<isize>>,
) -> (r: Vec<isize>)
    requires
        w0 < 7,
        lo <= hi <= masklen,
        masklen <= 400,
        forall|p: int| 0 <= p < bynweekday@.len() ==> {
            &&& (#[trigger] bynweekday@[p])@.len() == 2
            &&& 0 <= bynweekday@[p]@[0] < 7
            &&& -53 <= bynweekday@[p]@[1] <= 53
            &&& bynweekday@[p]@[1] != 0
        },
    ensures
        r@.len() == masklen,
        forall|d: int| 0 <= d < masklen ==> (#[trigger] r@[d]) == (if pair_marks(
            bynweekday@,
            w0 as int,
            lo as int,
            hi as int,
            d,
        ) {
            1isize
        } else {
            0isize
        }),
{
    let mut mask: Vec<isize> = Vec::new();
    let mut i: usize = 0;
    while i < masklen
        invariant
            i <= masklen,
            mask@.len() == i,
            forall|d: int| 0 <= d < i ==> #[trigger] mask@[d] == 0isize,
        decreases masklen - i,
    {
        mask.push(0);
        i = i + 1;
    }
    let mut p: usize = 0;
    while p < bynweekday.len()
        invariant
            w0 < 7,
            lo <= hi <= masklen,
            masklen <= 400,
            p <= bynweekday@.len(),
            forall|q: int| 0 <= q < bynweekday@.len() ==> {
                &&& (#[trigger] bynweekday@[q])@.len() == 2
                &&& 0 <= bynweekday@[q]@[0] < 7
                &&& -53 <= bynweekday@[q]@[1] <= 53
                &&& bynweekday@[q]@[1] != 0
            },
            mask@.len() == masklen,
            forall|d: int| 0 <= d < masklen ==> (#[trigger] mask@[d]) == (if pair_marks(
                bynweekday@.take(p as int),
                w0 as int,
                lo as int,
                hi as int,
                d,
            ) {
                1isize
            } else {
                0isize
            }),
        decreases bynweekday@.len() - p,
    {
        let w = bynweekday[p][0];
        let n = bynweekday[p][1];
        let mut found: Option<usize> = None;
        if n > 0 {
            let mut cnt: usize = 0;
            let mut d = lo;
            while d < hi && found.is_none()
                invariant
                    w0 < 7,
                    lo <= d <= hi <= 400,
                    0 <= w < 7,
                    1 <= n <= 53,
                    found is None ==> cnt == weekday_count(w0 as int, lo as int, d as int, w as int)
                        && cnt < n,
                    found matches Some(t) ==> is_nth_weekday(
                        w0 as int,
                        lo as int,
                        hi as int,
                        w as int,
                        n as int,
                        t as int,
                    ) && lo <= t < hi,
                decreases hi - d,
            {
                if (w0 + d) % 7 == w as usize {
                    cnt = cnt + 1;
                    if cnt == n as usize {
                        found = Some(d);
                    }
                }
                d = d + 1;
            }
            proof {
                if found is None {
                    lemma_weekday_count_nonneg(w0 as int, lo as int, hi as int, w as int);
                }
            }
        } else {
            let need = (-n) as usize;
            let mut cnt: usize = 0;
            let mut d = hi;
            while d > lo && found.is_none()
                invariant
                    w0 < 7,
                    lo <= d <= hi <= 400,
                    0 <= w < 7,
                    1 <= need <= 53,
                    n as int == -(need as int),
                    found is None ==> cnt == weekday_count(w0 as int, d as int, hi as int, w as int)
                        && cnt < need,
                    found matches Some(t) ==> is_nth_weekday(
                        w0 as int,
                        lo as int,
                        hi as int,
                        w as int,
                        n as int,
                        t as int,
                    ) && lo <= t < hi,
                decreases d,
            {
                d = d - 1;
                proof {
                    reveal_with_fuel(weekday_count, 3);
                    lemma_weekday_count_split(w0 as int, d as int, d as int + 1, hi as int, w as int);
                }
                if (w0 + d) % 7 == w as usize {
                    cnt = cnt + 1;
                    if cnt == need {
                        found = Some(d);
                    }
                }
            }
        }
        let ghost prev_mask = mask@;
        let ghost wi = w as int;
        let ghost ni = n as int;
        match found {
            Some(t) => {
                mask.set(t, 1);
                proof {
                    assert forall|d: int| 0 <= d < masklen implies (#[trigger] mask@[d]) == (
                    if pair_marks(
                        bynweekday@.take(p as int + 1),
                        w0 as int,
                        lo as int,
                        hi as int,
                        d,
                    ) {
                        1isize
                    } else {
                        0isize
                    }) by {
                        let taken = bynweekday@.take(p as int + 1);
                        assert(taken[p as int] == bynweekday@[p as int]);
                        if d == t {
                            assert(is_nth_weekday(
                                w0 as int,
                                lo as int,
                                hi as int,
                                taken[p as int]@[0] as int,
                                taken[p as int]@[1] as int,
                                d,
                            ));
                            assert(pair_marks(taken, w0 as int, lo as int, hi as int, d));
                        } else {
                            assert(mask@[d] == prev_mask[d]);
                            if pair_marks(taken, w0 as int, lo as int, hi as int, d) {
                                let q = choose|q: int| 0 <= q < taken.len() && is_nth_weekday(
                                    w0 as int,
                                    lo as int,
                                    hi as int,
                                    (#[trigger] taken[q])@[0] as int,
                                    taken[q]@[1] as int,
                                    d,
                                );
                                if q == p as int {
                                    lemma_nth_weekday_unique(
                                        w0 as int,
                                        lo as int,
                                        hi as int,
                                        wi,
                                        ni,
                                        d,
                                        t as int,
                                    );
                                } else {
                                    assert(taken[q] == bynweekday@.take(p as int)[q]);
                                    assert(pair_marks(
                                        bynweekday@.take(p as int),
                                        w0 as int,
                                        lo as int,
                                        hi as int,
                                        d,
                                    ));
                                }
                            }
                            if pair_marks(
                                bynweekday@.take(p as int),
                                w0 as int,
                                lo as int,
                                hi as int,
                                d,
                            ) {
                                let q = choose|q: int| 0 <= q < bynweekday@.take(p as int).len()
                                    && is_nth_weekday(
                                    w0 as int,
                                    lo as int,
                                    hi as int,
                                    (#[trigger] bynweekday@.take(p as int)[q])@[0] as int,
                                    bynweekday@.take(p as int)[q]@[1] as int,
                                    d,
                                );
                                assert(taken[q] == bynweekday@.take(p as int)[q]);
                                assert(pair_marks(taken, w0 as int, lo as int, hi as int, d));
                            }
                        }
                    }
                }
            },
            None => {
                proof {
                    assert forall|d: int| 0 <= d < masklen implies (#[trigger] mask@[d]) == (
                    if pair_marks(
                        bynweekday@.take(p as int + 1),
                        w0 as int,
                        lo as int,
                        hi as int,
                        d,
                    ) {
                        1isize
                    } else {
                        0isize
                    }) by {
                        let taken = bynweekday@.take(p as int + 1);
                        assert(taken[p as int] == bynweekday@[p as int]);
                        if pair_marks(taken, w0 as int, lo as int, hi as int, d) {
                            let q = choose|q: int| 0 <= q < taken.len() && is_nth_weekday(
                                w0 as int,
                                lo as int,
                                hi as int,
                                (#[trigger] taken[q])@[0] as int,
                                taken[q]@[1] as int,
                                d,
                            );
                            if q == p as int {
                                if ni > 0 {
                                    lemma_weekday_count_split(
                                        w0 as int,
                                        lo as int,
                                        d + 1,
                                        hi as int,
                                        wi,
                                    );
                                    lemma_weekday_count_nonneg(w0 as int, d + 1, hi as int, wi);
                                } else {
                                    lemma_weekday_count_split(
                                        w0 as int,
                                        lo as int,
                                        d,
                                        hi as int,
                                        wi,
                                    );
                                    lemma_weekday_count_nonneg(w0 as int, lo as int, d, wi);
                                }
                            } else {
                                assert(taken[q] == bynweekday@.take(p as int)[q]);
                                assert(pair_marks(
                                    bynweekday@.take(p as int),
                                    w0 as int,
                                    lo as int,
                                    hi as int,
                                    d,
                                ));
                            }
                        }
                        if pair_marks(
                            bynweekday@.take(p as int),
                            w0 as int,
                            lo as int,
                            hi as int,
                            d,
                        ) {
                            let q = choose|q: int| 0 <= q < bynweekday@.take(p as int).len()
                                && is_nth_weekday(
                                w0 as int,
                                lo as int,
                                hi as int,
                                (#[trigger] bynweekday@.take(p as int)[q])@[0] as int,
                                bynweekday@.take(p as int)[q]@[1] as int,
                                d,
                            );
                            assert(taken[q] == bynweekday@.take(p as int)[q]);
                            assert(pair_marks(taken, w0 as int, lo as int, hi as int, d));
                        }
                    }
                }
            },
        }
        p = p + 1;
    }
    proof {
        assert(bynweekday@.take(bynweekday@.len() as int) =~= bynweekday@);
    }
    mask
}

} // verus!
