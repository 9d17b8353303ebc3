//! BYSETPOS selection: of the ordered candidates one expansion cycle
//! produced, keep those whose ordinal is listed. A positive ordinal counts
//! from the front (1 is the first), a negative one from the end (-1 is the
//! last). Duplicate ordinals do not duplicate output, and the candidates'
//! order is kept.

use vstd::prelude::*;
use crate::datetime::DateTime;

verus! {

/// The zero-based index an ordinal selects among `len` candidates.
pub open spec fn resolved_pos(p: isize, len: int) -> int {
    if p > 0 {
        p - 1
    } else {
        len + p
    }
}

/// Some listed ordinal selects index `i` among `len` candidates.
pub open spec fn pos_selected(pos: Seq<isize>, len: int, i: int) -> bool {
    exists|k: int| 0 <= k < pos.len() && resolved_pos(pos[k], len) == i
}

/// The candidates at selected indices below `i`, in candidate order.
pub open spec fn poslist_upto(cands: Seq<DateTime>, pos: Seq<isize>, i: int) -> Seq<DateTime>
    decreases i,
{
    if i <= 0 {
        Seq::empty()
    } else {
        poslist_upto(cands, pos, i - 1) + if pos_selected(pos, cands.len() as int, i - 1) {
            seq![cands[i - 1]]
        } else {
            Seq::empty()
        }
    }
}

fn position_selected(bysetpos: &Vec<isize>, len: usize, i: usize) -> (r: bool)
    requires
        len <= 0x1000_0000,
    ensures
        r == pos_selected(bysetpos@, len as int, i as int),
{
    let mut k: usize = 0;
    while k < bysetpos.len()
        invariant
            len <= 0x1000_0000,
            k <= bysetpos@.len(),
            forall|j: int| 0 <= j < k ==> resolved_pos(#[trigger] bysetpos@[j], len as int)
                != i as int,
        decreases bysetpos@.len() - k,
    {
        let p = bysetpos[k];
        let resolved: i128 = if p > 0 {
            p as i128 - 1
        } else {
            len as i128 + p as i128
        };
        if resolved == i as i128 {
            return true;
        }
        k = k + 1;
    }
    false
}

/// Keep, in order, the candidates whose ordinal BYSETPOS lists.
pub fn build_poslist(bysetpos: &Vec<isize>, candidates: &Vec<DateTime>) -> (r: Vec<DateTime>)
    requires
        candidates@.len() <= 0x1000_0000,
    ensures
        r@ == poslist_upto(candidates@, bysetpos@, candidates@.len() as int),
{
    let mut r: Vec<DateTime> = Vec::new();
    let mut i: usize = 0;
    while i < candidates.len()
        invariant
            candidates@.len() <= 0x1000_0000,
            i <= candidates@.len(),
            r@ == poslist_upto(candidates@, bysetpos@, i as int),
        decreases candidates@.len() - i,
    {
        if position_selected(bysetpos, candidates.len(), i) {
            r.push(candidates[i]);
        }
        proof {
            assert(r@ =~= poslist_upto(candidates@, bysetpos@, i as int + 1));
        }
        i = i + 1;
    }
    r
}

} // verus!
