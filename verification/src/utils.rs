//! Small membership helpers shared by the filter and advancement code.

use vstd::prelude::*;

verus! {

/// `v` occurs in `s`.
pub open spec fn contains_usize(s: Seq<usize>, v: int) -> bool {
    exists|i: int| 0 <= i < s.len() && s[i] as int == v
}

/// `v` occurs in `s`.
pub open spec fn contains_isize(s: Seq<isize>, v: int) -> bool {
    exists|i: int| 0 <= i < s.len() && s[i] as int == v
}

/// A value passes a BY-set when the set is empty (no constraint) or lists it.
pub open spec fn passes(s: Seq<usize>, v: int) -> bool {
    s.len() == 0 || contains_usize(s, v)
}

/// Linear membership test.
pub fn includes(v: &Vec<usize>, x: usize) -> (r: bool)
    ensures
        r == contains_usize(v@, x as int),
{
    let mut i: usize = 0;
    while i < v.len()
        invariant
            i <= v@.len(),
            forall|j: int| 0 <= j < i ==> v@[j] != x,
        decreases v@.len() - i,
    {
        if v[i] == x {
            return true;
        }
        i = i + 1;
    }
    false
}

/// Linear membership test.
pub fn includes_isize(v: &Vec<isize>, x: isize) -> (r: bool)
    ensures
        r == contains_isize(v@, x as int),
{
    let mut i: usize = 0;
    while i < v.len()
        invariant
            i <= v@.len(),
            forall|j: int| 0 <= j < i ==> v@[j] != x,
        decreases v@.len() - i,
    {
        if v[i] == x {
            return true;
        }
        i = i + 1;
    }
    false
}

} // verus!
