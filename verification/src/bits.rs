//! Bit-level helpers for the bitmaps used by the entity store: the dead-entity
//! bitmap and the per-flag bitmaps. A bitmap is a growable `Vec<u8>`; bit `e`
//! lives in byte `e / 8` at position `e % 8`, and bytes beyond the vector's
//! current length count as zero.

use vstd::prelude::*;

verus! {

/// True when bit `k` of byte `b` is set.
pub open spec fn nth_bit(b: u8, k: u32) -> bool
    recommends
        k < 8,
{
    (b >> (k as u8)) & 1 == 1
}

/// True when bit `e` of the bitmap is set; bits beyond the end are zero.
pub open spec fn bitmap_bit(v: Seq<u8>, e: u32) -> bool {
    e / 8 < v.len() && nth_bit(v[(e / 8) as int], (e % 8) as u32)
}

/// Byte `b` with bit `k` set, all other bits unchanged.
fn byte_set(b: u8, k: u32) -> (r: u8)
    requires
        k < 8,
    ensures
        forall|j: u32| j < 8 ==> nth_bit(r, j) == (j == k || nth_bit(b, j)),
{
    let r = b | (1u8 << (k as u8));
    proof {
        assert forall|j: u32| j < 8 implies nth_bit(r, j) == (j == k || nth_bit(b, j)) by {
            assert(nth_bit(b | (1u8 << (k as u8)), j) == (j == k || nth_bit(b, j)))
                by (bit_vector)
                requires
                    k < 8,
                    j < 8,
            ;
        }
    }
    r
}

/// Byte `b` with bit `k` cleared, all other bits unchanged.
fn byte_clear(b: u8, k: u32) -> (r: u8)
    requires
        k < 8,
    ensures
        forall|j: u32| j < 8 ==> nth_bit(r, j) == (j != k && nth_bit(b, j)),
{
    let r = b & !(1u8 << (k as u8));
    proof {
        assert forall|j: u32| j < 8 implies nth_bit(r, j) == (j != k && nth_bit(b, j)) by {
            assert(nth_bit(b & !(1u8 << (k as u8)), j) == (j != k && nth_bit(b, j)))
                by (bit_vector)
                requires
                    k < 8,
                    j < 8,
            ;
        }
    }
    r
}

/// A zero byte has no bit set.
proof fn lemma_zero_byte_clear()
    ensures
        forall|j: u32| !nth_bit(0u8, j),
{
    assert(forall|j: u32| !nth_bit(0u8, j)) by (bit_vector);
}

/// Reads bit `e` of the bitmap.
pub fn bitmap_get(v: &Vec<u8>, e: u32) -> (r: bool)
    ensures
        r == bitmap_bit(v@, e),
{
    let idx = (e / 8) as usize;
    if idx < v.len() {
        (v[idx] >> ((e % 8) as u8)) & 1 == 1
    } else {
        false
    }
}

/// Sets bit `e`, growing the bitmap with zero bytes as needed.
pub fn bitmap_set(v: &mut Vec<u8>, e: u32)
    ensures
        forall|e2: u32| bitmap_bit(final(v)@, e2) == (e2 == e || bitmap_bit(old(v)@, e2)),
{
    let idx = (e / 8) as usize;
    proof {
        lemma_zero_byte_clear();
    }
    while v.len() <= idx
        invariant
            forall|e2: u32| bitmap_bit(v@, e2) == bitmap_bit(old(v)@, e2),
            forall|j: u32| !nth_bit(0u8, j),
        decreases idx + 1 - v.len(),
    {
        let ghost pre = v@;
        v.push(0u8);
        proof {
            assert forall|e2: u32| bitmap_bit(v@, e2) == bitmap_bit(pre, e2) by {
                if e2 / 8 < pre.len() {
                    assert(v@[(e2 / 8) as int] == pre[(e2 / 8) as int]);
                }
            }
        }
    }
    let ghost grown = v@;
    let b = v[idx];
    v[idx] = byte_set(b, e % 8);
    proof {
        assert forall|e2: u32|
            bitmap_bit(v@, e2) == (e2 == e || bitmap_bit(grown, e2)) by {
            if e2 / 8 == e / 8 {
                if e2 != e {
                    assert(e2 % 8 != e % 8 || e2 / 8 != e / 8) by (bit_vector)
                        requires
                            e2 != e,
                    ;
                }
            } else {
                if e2 / 8 < v@.len() {
                    assert(v@[(e2 / 8) as int] == grown[(e2 / 8) as int]);
                }
            }
        }
    }
}

/// Clears bit `e`; a bit beyond the end is already clear, so nothing grows.
pub fn bitmap_clear(v: &mut Vec<u8>, e: u32)
    ensures
        forall|e2: u32| bitmap_bit(final(v)@, e2) == (e2 != e && bitmap_bit(old(v)@, e2)),
{
    let idx = (e / 8) as usize;
    if idx < v.len() {
        let b = v[idx];
        v[idx] = byte_clear(b, e % 8);
        proof {
            assert forall|e2: u32|
                bitmap_bit(v@, e2) == (e2 != e && bitmap_bit(old(v)@, e2)) by {
                if e2 / 8 < v@.len() {
                    if e2 / 8 == e / 8 {
                        if e2 != e {
                            assert(e2 % 8 != e % 8 || e2 / 8 != e / 8) by (bit_vector)
                                requires
                                    e2 != e,
                            ;
                        }
                    } else {
                        assert(v@[(e2 / 8) as int] == old(v)@[(e2 / 8) as int]);
                    }
                }
            }
        }
    }
}

} // verus!
