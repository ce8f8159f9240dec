//! The end of a quantized block, found through the inverse of its scan.

use vstd::prelude::*;

use crate::quant::{eob_by_walk, eob_of};
use crate::trellis_laws::{exact_end, exact_end_is_eob};

verus! {

/// `iscan` holds the scan position of every raster position.
pub open spec fn inverts(scan: Seq<u16>, iscan: Seq<u16>) -> bool {
    &&& iscan.len() == scan.len()
    &&& forall|i: int|
        0 <= i < scan.len() ==> (#[trigger] scan[i]) < iscan.len() && iscan[scan[i] as int] as int == i
    &&& forall|p: int| 0 <= p < iscan.len() ==> (#[trigger] iscan[p]) < scan.len() && scan[iscan[p] as int] as int == p
}

/// One past the largest scan position of a nonzero level.
fn eob_from_iscan(scan: Ghost<Seq<u16>>, qcoeff: &[i32], iscan: &[u16]) -> (eob: u16)
    requires
        iscan@.len() < 0x1_0000,
        iscan@.len() <= qcoeff@.len(),
        inverts(scan@, iscan@),
    ensures
        eob == eob_of(scan@, qcoeff@),
{
    let mut best: u16 = 0;
    let mut p: usize = 0;
    while p < iscan.len()
        invariant
            p <= iscan@.len() < 0x1_0000,
            iscan@.len() <= qcoeff@.len(),
            inverts(scan@, iscan@),
            best <= iscan@.len(),
            forall|k: int| 0 <= k < p && qcoeff@[k] != 0 ==> (#[trigger] iscan@[k]) < best,
            best > 0 ==> qcoeff@[scan@[best - 1] as int] != 0,
        decreases iscan@.len() - p,
    {
        if qcoeff[p] != 0 && iscan[p] >= best {
            best = iscan[p] + 1;
        }
        p = p + 1;
    }
    proof {
        assert forall|i: int| best <= i < scan@.len() implies qcoeff@[(#[trigger] scan@[i]) as int] == 0 by {
            assert(iscan@[scan@[i] as int] as int == i);
        }
        assert(exact_end(scan@, qcoeff@, best as int));
        exact_end_is_eob(scan@, qcoeff@, best as int);
    }
    best
}

/// One past the last scan position that holds a nonzero level: through the
/// inverse of the scan where there is one, else by walking back.
pub fn eob_from_qcoeff(scan: &[u16], iscan: Option<&[u16]>, qcoeff: &[i32]) -> (eob: u16)
    requires
        scan@.len() < 0x1_0000,
        forall|i: int| 0 <= i < scan@.len() ==> (#[trigger] scan@[i]) < qcoeff@.len(),
        iscan is Some ==> inverts(scan@, (iscan->0)@) && scan@.len() <= qcoeff@.len(),
    ensures
        eob == eob_of(scan@, qcoeff@),
{
    match iscan {
        Some(inverse) => eob_from_iscan(Ghost(scan@), qcoeff, inverse),
        None => eob_by_walk(scan, qcoeff),
    }
}

/// The end of a block is the one past the largest scan position of a nonzero
/// level: no level beyond it, and one just before it.
pub proof fn eob_is_past_every_level(scan: Seq<u16>, iscan: Seq<u16>, q: Seq<i32>)
    requires
        inverts(scan, iscan),
        iscan.len() <= q.len(),
    ensures
        forall|p: int| 0 <= p < iscan.len() && q[p] != 0 ==> (#[trigger] iscan[p]) < eob_of(scan, q),
        eob_of(scan, q) > 0 ==> exists|p: int|
            0 <= p < iscan.len() && q[p] != 0 && (#[trigger] iscan[p]) == eob_of(scan, q) - 1,
{
    crate::trellis_laws::eob_is_exact_end(scan, q);
    let eob = eob_of(scan, q);
    assert forall|p: int| 0 <= p < iscan.len() && q[p] != 0 implies (#[trigger] iscan[p]) < eob by {
        assert(scan[iscan[p] as int] as int == p);
    }
    if eob > 0 {
        let p = scan[eob - 1] as int;
        assert(iscan[p] == eob - 1);
    }
}

} // verus!
