//! Western Easter, by the Anonymous Gregorian computus, and the mask of day
//! offsets a BYEASTER rule marks.

use vstd::prelude::*;
use crate::datetime::{MAX_YEAR, MIN_YEAR, days_before_month, lemma_dbm_mono, year_length};

verus! {

/// Zero-based day-of-year offset of Easter Sunday in year `y`, by the
/// Anonymous Gregorian computus.
pub open spec fn easter_day_of_year(y: int) -> int {
    let a = y % 19;
    let b = y / 100;
    let c = y % 100;
    let d = b / 4;
    let e = b % 4;
    let f = (b + 8) / 25;
    let g = (b - f + 1) / 3;
    let h = (19 * a + b - d - g + 15) % 30;
    let i = c / 4;
    let k = c % 4;
    let l = (32 + 2 * e + 2 * i - h - k) % 7;
    let m = (a + 11 * h + 22 * l) / 451;
    let month = (h + l - 7 * m + 114) / 31;
    let day = (h + l - 7 * m + 114) % 31 + 1;
    days_before_month(y, month) + day - 1
}

/// The day offsets marked by a BYEASTER offset: the day `offset` days from
/// Easter Sunday, when it falls inside the year.
#[verifier::rlimit(100)]
pub fn build_easter_mask(year: i32, offset: isize) -> (r: Vec<isize>)
    requires
        MIN_YEAR <= year <= MAX_YEAR,
        -366 <= offset <= 366,
    ensures
        r@ == if 0 <= easter_day_of_year(year as int) + offset < year_length(year as int) {
            seq![(easter_day_of_year(year as int) + offset) as isize]
        } else {
            Seq::<isize>::empty()
        },
{
    let y = year as u64;
    let a = y % 19;
    let b = y / 100;
    let c = y % 100;
    let d = b / 4;
    let e = b % 4;
    let f = (b + 8) / 25;
    proof {
        vstd::arithmetic::div_mod::lemma_fundamental_div_mod((b + 8) as int, 25);
        vstd::arithmetic::div_mod::lemma_mod_bound((b + 8) as int, 25);
    }
    let g = (b + 1 - f) / 3;
    proof {
        vstd::arithmetic::div_mod::lemma_fundamental_div_mod(b as int, 4);
        vstd::arithmetic::div_mod::lemma_mod_bound(b as int, 4);
        vstd::arithmetic::div_mod::lemma_fundamental_div_mod((b + 1 - f) as int, 3);
        vstd::arithmetic::div_mod::lemma_mod_bound((b + 1 - f) as int, 3);
        assert(d <= b / 4 && g <= (b + 1 - f) / 3);
        assert(19 * (y as int % 19) >= 0);
        vstd::arithmetic::div_mod::lemma_mod_bound(y as int, 19);
    }
    let h = (19 * a + b + 15 - d - g) % 30;
    let i = c / 4;
    let k = c % 4;
    proof {
        vstd::arithmetic::div_mod::lemma_mod_bound((19 * a + b + 15 - d - g) as int, 30);
    }
    let l = (32 + 2 * e + 2 * i - h - k) % 7;
    proof {
        vstd::arithmetic::div_mod::lemma_mod_bound((32 + 2 * e + 2 * i - h - k) as int, 7);
        vstd::arithmetic::div_mod::lemma_mod_bound(y as int, 100);
    }
    let m = (a + 11 * h + 22 * l) / 451;
    proof {
        vstd::arithmetic::div_mod::lemma_fundamental_div_mod((a + 11 * h + 22 * l) as int, 451);
        vstd::arithmetic::div_mod::lemma_mod_bound((a + 11 * h + 22 * l) as int, 451);
    }
    let month = (h + l + 114 - 7 * m) / 31;
    let day = (h + l + 114 - 7 * m) % 31 + 1;
    proof {
        vstd::arithmetic::div_mod::lemma_fundamental_div_mod((h + l + 114 - 7 * m) as int, 31);
        vstd::arithmetic::div_mod::lemma_mod_bound((h + l + 114 - 7 * m) as int, 31);
        assert(3 <= month <= 4);
        lemma_dbm_mono(year as int, 1, month as int);
        lemma_dbm_mono(year as int, month as int, 12);
    }
    let mut dbm: u64 = 0;
    let mut mm: u64 = 1;
    while mm < month
        invariant
            MIN_YEAR <= year,
            y == year as u64,
            1 <= mm <= month <= 12,
            dbm == days_before_month(year as int, mm as int),
            0 <= dbm <= 366,
        decreases month - mm,
    {
        proof {
            lemma_dbm_mono(year as int, 1, mm as int + 1);
            lemma_dbm_mono(year as int, mm as int + 1, 12);
        }
        dbm = dbm + if mm == 2 {
            if (y % 4 == 0 && y % 100 != 0) || y % 400 == 0 {
                29
            } else {
                28
            }
        } else if mm == 4 || mm == 6 || mm == 9 || mm == 11 {
            30
        } else {
            31
        };
        mm = mm + 1;
    }
    let doy = dbm + day - 1;
    let marked: i64 = doy as i64 + offset as i64;
    let yl: i64 = if (y % 4 == 0 && y % 100 != 0) || y % 400 == 0 {
        366
    } else {
        365
    };
    let mut r: Vec<isize> = Vec::new();
    if 0 <= marked && marked < yl {
        r.push(marked as isize);
    }
    proof {
        if 0 <= easter_day_of_year(year as int) + offset < year_length(year as int) {
            assert(r@ =~= seq![(easter_day_of_year(year as int) + offset) as isize]);
        } else {
            assert(r@ =~= Seq::<isize>::empty());
        }
    }
    r
}

} // verus!
