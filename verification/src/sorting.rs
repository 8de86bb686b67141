//! Sorting of component-id lists. Every archetype is identified by the
//! canonical (ascending, duplicate-free) list of its component-type ids, so
//! spawning sorts the caller's field list before looking the archetype up.

use vstd::prelude::*;
use vstd::relations::{sorted_by, total_ordering};
use vstd::seq_lib::lemma_sorted_unique;

verus! {

/// The order used for canonical component-id lists.
pub open spec fn id_le() -> spec_fn(u32, u32) -> bool {
    |x: u32, y: u32| x <= y
}

/// Ascending with no duplicates: the canonical shape of an archetype's
/// component-id list.
pub open spec fn strictly_sorted(s: Seq<u32>) -> bool {
    forall|i: int, j: int| 0 <= i < j < s.len() ==> s[i] < s[j]
}

pub proof fn lemma_id_le_total()
    ensures
        total_ordering(id_le()),
{
    assert forall|x: u32| #[trigger] id_le()(x, x) by {}
    assert forall|x: u32, y: u32| #[trigger] id_le()(x, y) && #[trigger] id_le()(y, x) implies x == y by {}
    assert forall|x: u32, y: u32, z: u32|
        #[trigger] id_le()(x, y) && #[trigger] id_le()(y, z) implies id_le()(x, z) by {}
    assert forall|x: u32, y: u32| #[trigger] id_le()(x, y) || #[trigger] id_le()(y, x) by {}
}

/// Sorted and duplicate-free is the same thing as strictly ascending.
pub proof fn lemma_strictly_sorted_iff(s: Seq<u32>)
    ensures
        strictly_sorted(s) <==> (sorted_by(s, id_le()) && s.no_duplicates()),
{
    if strictly_sorted(s) {
        assert forall|i: int, j: int| 0 <= i < j < s.len() implies #[trigger] id_le()(s[i], s[j]) by {
            assert(s[i] < s[j]);
        }
    }
    if sorted_by(s, id_le()) && s.no_duplicates() {
        assert forall|i: int, j: int| 0 <= i < j < s.len() implies s[i] < s[j] by {
            assert(id_le()(s[i], s[j]));
        }
    }
}

/// Two sorted id lists with the same multiset of elements are the same list.
pub proof fn lemma_sorted_multiset_unique(x: Seq<u32>, y: Seq<u32>)
    requires
        sorted_by(x, id_le()),
        sorted_by(y, id_le()),
        x.to_multiset() == y.to_multiset(),
    ensures
        x == y,
{
    lemma_id_le_total();
    lemma_sorted_unique(x, y, id_le());
}

/// Two duplicate-free lists over the same set of elements have the same
/// multiset of elements.
pub proof fn lemma_multiset_eq_from_set_eq(x: Seq<u32>, y: Seq<u32>)
    requires
        x.no_duplicates(),
        y.no_duplicates(),
        x.to_set() == y.to_set(),
    ensures
        x.to_multiset() == y.to_multiset(),
{
    broadcast use vstd::seq_lib::group_to_multiset_ensures;

    x.lemma_multiset_has_no_duplicates();
    y.lemma_multiset_has_no_duplicates();
    assert forall|a: u32| x.to_multiset().count(a) == y.to_multiset().count(a) by {
        assert(x.to_set().contains(a) == x.contains(a));
        assert(y.to_set().contains(a) == y.contains(a));
        if x.contains(a) {
            assert(x.to_multiset().count(a) > 0);
            assert(y.to_multiset().count(a) > 0);
            assert(x.to_multiset().count(a) == 1);
            assert(y.to_multiset().count(a) == 1);
        } else {
            assert(!y.contains(a));
            assert(x.to_multiset().count(a) == 0);
            assert(y.to_multiset().count(a) == 0);
        }
    }
    assert(x.to_multiset() =~= y.to_multiset());
}

/// A list with the same multiset of elements as a duplicate-free list is
/// itself duplicate-free.
pub proof fn lemma_no_duplicates_from_multiset(x: Seq<u32>, y: Seq<u32>)
    requires
        x.no_duplicates(),
        x.to_multiset() == y.to_multiset(),
    ensures
        y.no_duplicates(),
{
    x.lemma_multiset_has_no_duplicates();
    y.lemma_multiset_has_no_duplicates_conv();
}

/// Inserts `x` into the sorted vector `v`, keeping it sorted.
fn sorted_insert(v: &mut Vec<u32>, x: u32)
    requires
        sorted_by(old(v)@, id_le()),
    ensures
        sorted_by(final(v)@, id_le()),
        final(v)@.to_multiset() == old(v)@.to_multiset().insert(x),
        final(v)@.len() == old(v)@.len() + 1,
{
    broadcast use vstd::seq_lib::to_multiset_insert;

    let mut i: usize = 0;
    while i < v.len() && v[i] < x
        invariant
            i <= v@.len(),
            sorted_by(v@, id_le()),
            v@ == old(v)@,
            forall|k: int| 0 <= k < i ==> v@[k] < x,
        decreases v@.len() - i,
    {
        i = i + 1;
    }
    proof {
        assert forall|k: int| i <= k < v@.len() implies x <= v@[k] by {
            if i < k {
                assert(id_le()(v@[i as int], v@[k]));
            }
        }
    }
    v.insert(i, x);
    proof {
        let s = old(v)@.insert(i as int, x);
        assert forall|p: int, q: int| 0 <= p < q < s.len() implies #[trigger] id_le()(s[p], s[q]) by {
            assert(forall|k: int| 0 <= k < i ==> s[k] == old(v)@[k]);
            assert(s[i as int] == x);
            assert(forall|k: int| i < k < s.len() ==> s[k] == old(v)@[k - 1]);
            if p < i && q < i {
                assert(id_le()(old(v)@[p], old(v)@[q]));
            } else if p < i && q == i {
                assert(old(v)@[p] < x);
            } else if p < i && q > i {
                assert(id_le()(old(v)@[p], old(v)@[q - 1]));
            } else if p == i && q > i {
                assert(x <= old(v)@[q - 1]);
            } else {
                assert(p > i && q > i);
                assert(id_le()(old(v)@[p - 1], old(v)@[q - 1]));
            }
        }
    }
}

/// Returns the elements of `v` in ascending order.
pub fn sort_ids(v: &Vec<u32>) -> (r: Vec<u32>)
    ensures
        sorted_by(r@, id_le()),
        r@.to_multiset() == v@.to_multiset(),
        r@.len() == v@.len(),
{
    broadcast use vstd::seq_lib::group_to_multiset_ensures;

    let mut r: Vec<u32> = Vec::new();
    let mut i: usize = 0;
    proof {
        assert(v@.subrange(0, 0) =~= Seq::<u32>::empty());
    }
    while i < v.len()
        invariant
            i <= v@.len(),
            sorted_by(r@, id_le()),
            r@.to_multiset() == v@.subrange(0, i as int).to_multiset(),
            r@.len() == i,
        decreases v@.len() - i,
    {
        let ghost pre = v@.subrange(0, i as int);
        sorted_insert(&mut r, v[i]);
        proof {
            assert(v@.subrange(0, i + 1) =~= pre.push(v@[i as int]));
            vstd::seq_lib::to_multiset_build(pre, v@[i as int]);
        }
        i = i + 1;
    }
    proof {
        assert(v@.subrange(0, v@.len() as int) =~= v@);
    }
    r
}

} // verus!
