//! Sets of buffer slots, one bit each.

use vstd::prelude::*;

verus! {

/// Slot `i` is in the set.
pub open spec fn in_set(mask: u8, i: int) -> bool {
    (mask >> (i as u8)) & 1 == 1
}

/// Two sets with the same slots are the same.
pub proof fn lemma_same_slots(a: u8, b: u8)
    requires
        forall|i: int| 0 <= i < 8 ==> in_set(a, i) == in_set(b, i),
    ensures
        a == b,
{
    assert(in_set(a, 0) == in_set(b, 0) && in_set(a, 1) == in_set(b, 1) && in_set(a, 2) == in_set(b, 2) && in_set(a, 3) == in_set(b, 3));
    assert(in_set(a, 4) == in_set(b, 4) && in_set(a, 5) == in_set(b, 5) && in_set(a, 6) == in_set(b, 6) && in_set(a, 7) == in_set(b, 7));
    assert(((a >> 0u8) & 1 == 1) == ((b >> 0u8) & 1 == 1) && ((a >> 1u8) & 1 == 1) == ((b >> 1u8) & 1 == 1) && ((a
        >> 2u8) & 1 == 1) == ((b >> 2u8) & 1 == 1) && ((a >> 3u8) & 1 == 1) == ((b >> 3u8) & 1 == 1) && ((a >> 4u8) & 1
        == 1) == ((b >> 4u8) & 1 == 1) && ((a >> 5u8) & 1 == 1) == ((b >> 5u8) & 1 == 1) && ((a >> 6u8) & 1 == 1) == ((b
        >> 6u8) & 1 == 1) && ((a >> 7u8) & 1 == 1) == ((b >> 7u8) & 1 == 1) ==> a == b) by (bit_vector);
}

/// No slot is in the empty set, every slot in the full one.
pub proof fn lemma_extremes()
    ensures
        forall|i: int| 0 <= i < 8 ==> !#[trigger] in_set(0, i),
        forall|i: int| 0 <= i < 8 ==> #[trigger] in_set(0xff, i),
{
    assert forall|i: int| 0 <= i < 8 implies !#[trigger] in_set(0, i) by {
        let j = i as u8;
        assert(!((0u8 >> j) & 1 == 1)) by (bit_vector);
    }
    assert forall|i: int| 0 <= i < 8 implies #[trigger] in_set(0xff, i) by {
        let j = i as u8;
        assert(j < 8 ==> (0xffu8 >> j) & 1 == 1) by (bit_vector);
    }
}

/// Slot `i` is in the set.
pub fn holds(mask: u8, i: usize) -> (r: bool)
    requires
        i < 8,
    ensures
        r == in_set(mask, i as int),
{
    (mask >> (i as u8)) & 1 == 1
}

/// The set with slot `i`.
pub fn with(mask: u8, i: usize) -> (r: u8)
    requires
        i < 8,
    ensures
        forall|j: int| 0 <= j < 8 ==> #[trigger] in_set(r, j) == (in_set(mask, j) || j == i),
        r != 0,
{
    let k: u8 = i as u8;
    let r: u8 = mask | (1u8 << k);
    proof {
        assert(k < 8 ==> mask | (1u8 << k) != 0) by (bit_vector);
        assert forall|j: int| 0 <= j < 8 implies #[trigger] in_set(r, j) == (in_set(mask, j) || j == i) by {
            let l = j as u8;
            assert(k < 8 && l < 8 ==> (((mask | (1u8 << k)) >> l) & 1 == 1) == ((mask >> l) & 1 == 1 || l == k))
                by (bit_vector);
        }
    }
    r
}

/// The slots of `mask` that are not in `out`.
pub fn without(mask: u8, out: u8) -> (r: u8)
    ensures
        forall|j: int| 0 <= j < 8 ==> #[trigger] in_set(r, j) == (in_set(mask, j) && !in_set(out, j)),
{
    let r: u8 = mask & !out;
    proof {
        assert forall|j: int| 0 <= j < 8 implies #[trigger] in_set(r, j) == (in_set(mask, j) && !in_set(out, j)) by {
            let l = j as u8;
            assert(l < 8 ==> (((mask & !out) >> l) & 1 == 1) == ((mask >> l) & 1 == 1 && !((out >> l) & 1 == 1)))
                by (bit_vector);
        }
    }
    r
}

/// The set of the slots that satisfy a condition.
pub open spec fn set_of(f: spec_fn(int) -> bool) -> u8 {
    choose|mask: u8| is_set_of(mask, f)
}

/// `mask` is the set of the slots that satisfy a condition.
pub open spec fn is_set_of(mask: u8, f: spec_fn(int) -> bool) -> bool {
    forall|i: int| 0 <= i < 8 ==> #[trigger] in_set(mask, i) == f(i)
}

/// There is one such set only.
pub proof fn lemma_set_of(mask: u8, f: spec_fn(int) -> bool)
    requires
        is_set_of(mask, f),
    ensures
        mask == set_of(f),
{
    assert(is_set_of(set_of(f), f));
    assert forall|i: int| 0 <= i < 8 implies in_set(mask, i) == in_set(set_of(f), i) by {
        assert(in_set(mask, i) == f(i));
        assert(in_set(set_of(f), i) == f(i));
    }
    lemma_same_slots(mask, set_of(f));
}

} // verus!
