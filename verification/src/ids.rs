use vstd::prelude::*;
use crate::sector::SectorId;

verus! {

/// Whether `v` holds `target`.
pub fn contains_id(v: &Vec<SectorId>, target: SectorId) -> (r: bool)
    ensures
        r == v@.contains(target),
{
    let n = v.len();
    let mut i: usize = 0;
    while i < n
        invariant
            n == v@.len(),
            0 <= i <= n,
            forall|k: int| 0 <= k < i ==> v@[k] != target,
        decreases n - i,
    {
        if v[i] == target {
            return true;
        }
        i += 1;
    }
    false
}

/// An element-for-element copy of `v`.
pub fn copy_ids(v: &Vec<SectorId>) -> (r: Vec<SectorId>)
    ensures
        r@ == v@,
{
    let n = v.len();
    let mut r: Vec<SectorId> = Vec::new();
    let mut i: usize = 0;
    while i < n
        invariant
            n == v@.len(),
            0 <= i <= n,
            r@ =~= v@.subrange(0, i as int),
        decreases n - i,
    {
        r.push(v[i]);
        i += 1;
    }
    proof {
        assert(r@ =~= v@);
    }
    r
}

/// Appends every element of `src` to `dst`, in order.
pub fn append_ids(dst: &mut Vec<SectorId>, src: &Vec<SectorId>)
    ensures
        final(dst)@ == old(dst)@ + src@,
{
    let n = src.len();
    let mut i: usize = 0;
    while i < n
        invariant
            n == src@.len(),
            0 <= i <= n,
            dst@ =~= old(dst)@ + src@.subrange(0, i as int),
        decreases n - i,
    {
        dst.push(src[i]);
        i += 1;
    }
    proof {
        assert(dst@ =~= old(dst)@ + src@);
    }
}

} // verus!
