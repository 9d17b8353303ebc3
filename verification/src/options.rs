//! The options structure the iteration core consumes, and the partial form
//! that rule sources are merged through.

use vstd::prelude::*;
use crate::datetime::DateTime;

verus! {

/// Driving frequency of a rule, coarsest first.
#[derive(Clone, Copy, PartialEq, Eq, Structural, Debug)]
pub enum Frequenzy {
    Yearly,
    Monthly,
    Weekly,
    Daily,
    Hourly,
    Minutely,
    Secondly,
}

impl Frequenzy {
    /// Granularity rank: higher means finer.
    pub open spec fn ord_spec(self) -> int {
        match self {
            Frequenzy::Yearly => 0,
            Frequenzy::Monthly => 1,
            Frequenzy::Weekly => 2,
            Frequenzy::Daily => 3,
            Frequenzy::Hourly => 4,
            Frequenzy::Minutely => 5,
            Frequenzy::Secondly => 6,
        }
    }

    /// Granularity rank: higher means finer.
    pub fn ord(&self) -> (r: u32)
        ensures
            r as int == self.ord_spec(),
    {
        match self {
            Frequenzy::Yearly => 0,
            Frequenzy::Monthly => 1,
            Frequenzy::Weekly => 2,
            Frequenzy::Daily => 3,
            Frequenzy::Hourly => 4,
            Frequenzy::Minutely => 5,
            Frequenzy::Secondly => 6,
        }
    }
}

/// A fully validated rule: the immutable input of the iteration core.
#[derive(Clone, Debug)]
pub struct ParsedOptions {
    pub freq: Frequenzy,
    pub interval: usize,
    pub count: Option<u32>,
    pub until: Option<DateTime>,
    pub tzid: Option<String>,
    pub dtstart: DateTime,
    pub wkst: usize,
    pub bysetpos: Vec<isize>,
    pub bymonth: Vec<usize>,
    pub bymonthday: Vec<isize>,
    pub bynmonthday: Vec<isize>,
    pub byyearday: Vec<isize>,
    pub byweekno: Vec<isize>,
    pub byweekday: Vec<usize>,
    pub byhour: Vec<usize>,
    pub byminute: Vec<usize>,
    pub bysecond: Vec<usize>,
    pub bynweekday: Vec<Vec<isize>>,
    pub byeaster: Option<isize>,
}

impl ParsedOptions {
    /// The input invariants the core relies on: the ranges of every BY-set
    /// entry, a positive interval, and well-formed instants.
    pub open spec fn wf(self) -> bool {
        &&& self.interval >= 1
        &&& self.wkst < 7
        &&& self.dtstart.wf()
        &&& (self.until matches Some(u) ==> u.wf())
        &&& (self.count matches Some(c) ==> c >= 1)
        &&& (forall|i: int| 0 <= i < self.bysetpos@.len() ==> 1 <= abs_isize(
            #[trigger] self.bysetpos@[i],
        ) <= 366)
        &&& (forall|i: int| 0 <= i < self.bymonth@.len() ==> 1 <= #[trigger] self.bymonth@[i]
            <= 12)
        &&& (forall|i: int| 0 <= i < self.bymonthday@.len() ==> 1
            <= #[trigger] self.bymonthday@[i] <= 31)
        &&& (forall|i: int| 0 <= i < self.bynmonthday@.len() ==> -31
            <= #[trigger] self.bynmonthday@[i] <= -1)
        &&& (forall|i: int| 0 <= i < self.byyearday@.len() ==> 1 <= abs_isize(
            #[trigger] self.byyearday@[i],
        ) <= 366)
        &&& (forall|i: int| 0 <= i < self.byweekno@.len() ==> 1 <= abs_isize(
            #[trigger] self.byweekno@[i],
        ) <= 53)
        &&& (forall|i: int| 0 <= i < self.byweekday@.len() ==> #[trigger] self.byweekday@[i] < 7)
        &&& (forall|i: int| 0 <= i < self.byhour@.len() ==> #[trigger] self.byhour@[i] < 24)
        &&& (forall|i: int| 0 <= i < self.byminute@.len() ==> #[trigger] self.byminute@[i] < 60)
        &&& (forall|i: int| 0 <= i < self.bysecond@.len() ==> #[trigger] self.bysecond@[i] <= 60)
        &&& (forall|i: int| 0 <= i < self.bynweekday@.len() ==> {
            &&& (#[trigger] self.bynweekday@[i])@.len() == 2
            &&& 0 <= self.bynweekday@[i]@[0] < 7
            &&& 1 <= abs_isize(self.bynweekday@[i]@[1]) <= 53
        })
    }
}

/// Absolute value of an `isize`, as a spec integer.
pub open spec fn abs_isize(v: isize) -> int {
    if v >= 0 {
        v as int
    } else {
        -(v as int)
    }
}

/// An options structure under construction; `None` means "not given here".
#[derive(Clone, Debug)]
pub struct PartialOptions {
    pub freq: Option<Frequenzy>,
    pub interval: Option<usize>,
    pub count: Option<u32>,
    pub until: Option<DateTime>,
    pub tzid: Option<String>,
    pub dtstart: Option<DateTime>,
    pub wkst: Option<usize>,
    pub bysetpos: Option<Vec<isize>>,
    pub bymonth: Option<Vec<usize>>,
    pub bymonthday: Option<Vec<isize>>,
    pub bynmonthday: Option<Vec<isize>>,
    pub byyearday: Option<Vec<isize>>,
    pub byweekno: Option<Vec<isize>>,
    pub byweekday: Option<Vec<usize>>,
    pub byhour: Option<Vec<usize>>,
    pub byminute: Option<Vec<usize>>,
    pub bysecond: Option<Vec<usize>>,
    pub bynweekday: Option<Vec<Vec<isize>>>,
    pub byeaster: Option<isize>,
}

/// The later source wins: `b` where it is given, else `a`.
pub open spec fn pick<T>(a: Option<T>, b: Option<T>) -> Option<T> {
    if b is Some {
        b
    } else {
        a
    }
}

/// View of an optional `usize` list.
pub open spec fn opt_seq_usize(o: Option<Vec<usize>>) -> Option<Seq<usize>> {
    match o {
        Some(v) => Some(v@),
        None => None,
    }
}

/// View of an optional `isize` list.
pub open spec fn opt_seq_isize(o: Option<Vec<isize>>) -> Option<Seq<isize>> {
    match o {
        Some(v) => Some(v@),
        None => None,
    }
}

/// View of an optional list of (weekday, ordinal) pairs.
pub open spec fn opt_seq_pairs(o: Option<Vec<Vec<isize>>>) -> Option<Seq<Seq<isize>>> {
    match o {
        Some(v) => Some(v@.map_values(|x: Vec<isize>| x@)),
        None => None,
    }
}

/// View of an optional string.
pub open spec fn opt_str(o: Option<String>) -> Option<Seq<char>> {
    match o {
        Some(s) => Some(s@),
        None => None,
    }
}

fn copy_vec_usize(v: &Vec<usize>) -> (r: Vec<usize>)
    ensures
        r@ == v@,
{
    let mut r: Vec<usize> = Vec::new();
    let mut i: usize = 0;
    while i < v.len()
        invariant
            i <= v@.len(),
            r@ == v@.take(i as int),
        decreases v@.len() - i,
    {
        r.push(v[i]);
        proof {
            assert(r@ =~= v@.take(i as int + 1));
        }
        i = i + 1;
    }
    proof {
        assert(v@.take(v@.len() as int) =~= v@);
    }
    r
}

fn copy_vec_isize(v: &Vec<isize>) -> (r: Vec<isize>)
    ensures
        r@ == v@,
{
    let mut r: Vec<isize> = Vec::new();
    let mut i: usize = 0;
    while i < v.len()
        invariant
            i <= v@.len(),
            r@ == v@.take(i as int),
        decreases v@.len() - i,
    {
        r.push(v[i]);
        proof {
            assert(r@ =~= v@.take(i as int + 1));
        }
        i = i + 1;
    }
    proof {
        assert(v@.take(v@.len() as int) =~= v@);
    }
    r
}

fn copy_opt_vec_usize(v: &Option<Vec<usize>>) -> (r: Option<Vec<usize>>)
    ensures
        opt_seq_usize(r) == opt_seq_usize(*v),
{
    match v {
        Some(x) => Some(copy_vec_usize(x)),
        None => None,
    }
}

fn copy_opt_vec_isize(v: &Option<Vec<isize>>) -> (r: Option<Vec<isize>>)
    ensures
        opt_seq_isize(r) == opt_seq_isize(*v),
{
    match v {
        Some(x) => Some(copy_vec_isize(x)),
        None => None,
    }
}

fn copy_opt_pairs(v: &Option<Vec<Vec<isize>>>) -> (r: Option<Vec<Vec<isize>>>)
    ensures
        opt_seq_pairs(r) == opt_seq_pairs(*v),
{
    match v {
        Some(x) => {
            let mut out: Vec<Vec<isize>> = Vec::new();
            let mut i: usize = 0;
            while i < x.len()
                invariant
                    i <= x@.len(),
                    out@.len() == i,
                    forall|j: int| 0 <= j < i ==> #[trigger] out@[j]@ == x@[j]@,
                decreases x@.len() - i,
            {
                out.push(copy_vec_isize(&x[i]));
                i = i + 1;
            }
            proof {
                assert(opt_seq_pairs(Some(out))->Some_0 =~~= opt_seq_pairs(Some(*x))->Some_0);
            }
            Some(out)
        },
        None => None,
    }
}

fn copy_opt_string(v: &Option<String>) -> (r: Option<String>)
    ensures
        opt_str(r) == opt_str(*v),
{
    match v {
        Some(s) => Some(s.clone()),
        None => None,
    }
}

impl PartialOptions {
    /// A partial options value with nothing given.
    pub fn new() -> (r: Self)
        ensures
            r.freq is None,
            r.interval is None,
            r.count is None,
            r.until is None,
            r.tzid is None,
            r.dtstart is None,
            r.wkst is None,
            r.bysetpos is None,
            r.bymonth is None,
            r.bymonthday is None,
            r.bynmonthday is None,
            r.byyearday is None,
            r.byweekno is None,
            r.byweekday is None,
            r.byhour is None,
            r.byminute is None,
            r.bysecond is None,
            r.bynweekday is None,
            r.byeaster is None,
    {
        Self {
            freq: None,
            interval: None,
            count: None,
            until: None,
            tzid: None,
            dtstart: None,
            wkst: None,
            bysetpos: None,
            bymonth: None,
            bymonthday: None,
            bynmonthday: None,
            byyearday: None,
            byweekno: None,
            byweekday: None,
            byhour: None,
            byminute: None,
            bysecond: None,
            bynweekday: None,
            byeaster: None,
        }
    }

    /// Merge two partial options; a field given in `opt2` overrides `opt1`.
    pub fn concat(opt1: &Self, opt2: &Self) -> (r: Self)
        ensures
            r.freq == pick(opt1.freq, opt2.freq),
            r.interval == pick(opt1.interval, opt2.interval),
            r.count == pick(opt1.count, opt2.count),
            r.until == pick(opt1.until, opt2.until),
            opt_str(r.tzid) == opt_str(pick(opt1.tzid, opt2.tzid)),
            r.dtstart == pick(opt1.dtstart, opt2.dtstart),
            r.wkst == pick(opt1.wkst, opt2.wkst),
            opt_seq_isize(r.bysetpos) == opt_seq_isize(pick(opt1.bysetpos, opt2.bysetpos)),
            opt_seq_usize(r.bymonth) == opt_seq_usize(pick(opt1.bymonth, opt2.bymonth)),
            opt_seq_isize(r.bymonthday) == opt_seq_isize(pick(opt1.bymonthday, opt2.bymonthday)),
            opt_seq_isize(r.bynmonthday) == opt_seq_isize(
                pick(opt1.bynmonthday, opt2.bynmonthday),
            ),
            opt_seq_isize(r.byyearday) == opt_seq_isize(pick(opt1.byyearday, opt2.byyearday)),
            opt_seq_isize(r.byweekno) == opt_seq_isize(pick(opt1.byweekno, opt2.byweekno)),
            opt_seq_usize(r.byweekday) == opt_seq_usize(pick(opt1.byweekday, opt2.byweekday)),
            opt_seq_usize(r.byhour) == opt_seq_usize(pick(opt1.byhour, opt2.byhour)),
            opt_seq_usize(r.byminute) == opt_seq_usize(pick(opt1.byminute, opt2.byminute)),
            opt_seq_usize(r.bysecond) == opt_seq_usize(pick(opt1.bysecond, opt2.bysecond)),
            opt_seq_pairs(r.bynweekday) == opt_seq_pairs(pick(opt1.bynweekday, opt2.bynweekday)),
            r.byeaster == pick(opt1.byeaster, opt2.byeaster),
    {
        Self {
            freq: if opt2.freq.is_some() {
                opt2.freq
            } else {
                opt1.freq
            },
            interval: if opt2.interval.is_some() {
                opt2.interval
            } else {
                opt1.interval
            },
            count: if opt2.count.is_some() {
                opt2.count
            } else {
                opt1.count
            },
            until: if opt2.until.is_some() {
                opt2.until
            } else {
                opt1.until
            },
            tzid: if opt2.tzid.is_some() {
                copy_opt_string(&opt2.tzid)
            } else {
                copy_opt_string(&opt1.tzid)
            },
            dtstart: if opt2.dtstart.is_some() {
                opt2.dtstart
            } else {
                opt1.dtstart
            },
            wkst: if opt2.wkst.is_some() {
                opt2.wkst
            } else {
                opt1.wkst
            },
            bysetpos: if opt2.bysetpos.is_some() {
                copy_opt_vec_isize(&opt2.bysetpos)
            } else {
                copy_opt_vec_isize(&opt1.bysetpos)
            },
            bymonth: if opt2.bymonth.is_some() {
                copy_opt_vec_usize(&opt2.bymonth)
            } else {
                copy_opt_vec_usize(&opt1.bymonth)
            },
            bymonthday: if opt2.bymonthday.is_some() {
                copy_opt_vec_isize(&opt2.bymonthday)
            } else {
                copy_opt_vec_isize(&opt1.bymonthday)
            },
            bynmonthday: if opt2.bynmonthday.is_some() {
                copy_opt_vec_isize(&opt2.bynmonthday)
            } else {
                copy_opt_vec_isize(&opt1.bynmonthday)
            },
            byyearday: if opt2.byyearday.is_some() {
                copy_opt_vec_isize(&opt2.byyearday)
            } else {
                copy_opt_vec_isize(&opt1.byyearday)
            },
            byweekno: if opt2.byweekno.is_some() {
                copy_opt_vec_isize(&opt2.byweekno)
            } else {
                copy_opt_vec_isize(&opt1.byweekno)
            },
            byweekday: if opt2.byweekday.is_some() {
                copy_opt_vec_usize(&opt2.byweekday)
            } else {
                copy_opt_vec_usize(&opt1.byweekday)
            },
            byhour: if opt2.byhour.is_some() {
                copy_opt_vec_usize(&opt2.byhour)
            } else {
                copy_opt_vec_usize(&opt1.byhour)
            },
            byminute: if opt2.byminute.is_some() {
                copy_opt_vec_usize(&opt2.byminute)
            } else {
                copy_opt_vec_usize(&opt1.byminute)
            },
            bysecond: if opt2.bysecond.is_some() {
                copy_opt_vec_usize(&opt2.bysecond)
            } else {
                copy_opt_vec_usize(&opt1.bysecond)
            },
            bynweekday: if opt2.bynweekday.is_some() {
                copy_opt_pairs(&opt2.bynweekday)
            } else {
                copy_opt_pairs(&opt1.bynweekday)
            },
            byeaster: if opt2.byeaster.is_some() {
                opt2.byeaster
            } else {
                opt1.byeaster
            },
        }
    }
}

} // verus!
