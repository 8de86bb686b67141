//! The archetype store: deduplicates archetypes by their canonical component
//! list. Resolving a component set sorts it and compares the exact sorted
//! list against every stored archetype, so set-equal component lists always
//! resolve to the same archetype id and set-unequal lists never collide.

use vstd::prelude::*;
use vstd::relations::sorted_by;
use crate::archetype::Archetype;
use crate::component::ComponentId;
use crate::entity::Entity;
use crate::sorting::{
    id_le, lemma_no_duplicates_from_multiset, lemma_sorted_multiset_unique,
    lemma_strictly_sorted_iff, sort_ids,
};

verus! {

pub type ArchetypeId = u32;

/// Whether resolving a component set hit an existing archetype or created a
/// new one. On `NewArchetype` the caller must record the archetype with every
/// involved component type's membership set.
pub enum NewEntityResult {
    NewArchetype(ArchetypeId),
    OldArchetype(ArchetypeId),
}

impl NewEntityResult {
    /// The archetype id carried by either variant.
    pub open spec fn spec_id(self) -> ArchetypeId {
        match self {
            NewEntityResult::NewArchetype(id) => id,
            NewEntityResult::OldArchetype(id) => id,
        }
    }

    pub fn unwrap(&self) -> (r: ArchetypeId)
        ensures
            r == self.spec_id(),
    {
        match self {
            NewEntityResult::NewArchetype(id) => *id,
            NewEntityResult::OldArchetype(id) => *id,
        }
    }
}

/// Element-wise comparison of two component-id lists.
fn ids_equal(a: &Vec<ComponentId>, b: &Vec<ComponentId>) -> (r: bool)
    ensures
        r == (a@ == b@),
{
    if a.len() != b.len() {
        proof {
            assert(a@ != b@);
        }
        return false;
    }
    let mut i: usize = 0;
    while i < a.len()
        invariant
            i <= a@.len(),
            a@.len() == b@.len(),
            forall|k: int| 0 <= k < i ==> a@[k] == b@[k],
        decreases a@.len() - i,
    {
        if a[i] != b[i] {
            return false;
        }
        i = i + 1;
    }
    proof {
        assert(a@ =~= b@);
    }
    true
}

pub struct ArchStore {
    pub archetypes: Vec<Archetype>,
}

impl ArchStore {
    /// Every archetype is well-formed and no two share a component list.
    pub open spec fn wf(self) -> bool {
        &&& self.archetypes@.len() <= ArchetypeId::MAX
        &&& forall|a: int| 0 <= a < self.archetypes@.len() ==> (#[trigger] self.archetypes@[a]).wf()
        &&& forall|a1: int, a2: int|
            0 <= a1 < self.archetypes@.len() && 0 <= a2 < self.archetypes@.len() && a1 != a2
                ==> self.archetypes@[a1].comp_ids@ != self.archetypes@[a2].comp_ids@
    }

    pub fn new() -> (r: Self)
        ensures
            r.wf(),
            r.archetypes@.len() == 0,
    {
        ArchStore { archetypes: Vec::new() }
    }

    pub fn get_archetype(&self, archetype: ArchetypeId) -> (r: &Archetype)
        requires
            archetype < self.archetypes@.len(),
        ensures
            *r == self.archetypes@[archetype as int],
    {
        &self.archetypes[archetype as usize]
    }

    /// Releases the row occupied by `entity` in its archetype.
    pub fn remove_entity(&mut self, entity: &Entity)
        requires
            old(self).wf(),
            entity.arch_id < old(self).archetypes@.len(),
            entity.arch_row < old(self).archetypes@[entity.arch_id as int].entities@.len(),
            old(self).archetypes@[entity.arch_id as int].entities@[entity.arch_row as int] is Some,
        ensures
            final(self).wf(),
            final(self).archetypes@.len() == old(self).archetypes@.len(),
            forall|a: int|
                0 <= a < old(self).archetypes@.len() && a != entity.arch_id ==> final(self).archetypes@[a] == old(self).archetypes@[a],
            final(self).archetypes@[entity.arch_id as int].comp_ids@ == old(
                self,
            ).archetypes@[entity.arch_id as int].comp_ids@,
            final(self).archetypes@[entity.arch_id as int].columns@ == old(
                self,
            ).archetypes@[entity.arch_id as int].columns@,
            final(self).archetypes@[entity.arch_id as int].entities@ == old(
                self,
            ).archetypes@[entity.arch_id as int].entities@.update(entity.arch_row as int, None),
            final(self).archetypes@[entity.arch_id as int].available_rows@ == old(
                self,
            ).archetypes@[entity.arch_id as int].available_rows@.push(entity.arch_row),
    {
        let ai = entity.arch_id as usize;
        let arch = &mut self.archetypes[ai];
        arch.remove_entity(entity.arch_row);
        proof {
            assert forall|a1: int, a2: int|
                0 <= a1 < self.archetypes@.len() && 0 <= a2 < self.archetypes@.len() && a1
                    != a2 implies self.archetypes@[a1].comp_ids@
                != self.archetypes@[a2].comp_ids@ by {
                assert(self.archetypes@[a1].comp_ids@ == old(self).archetypes@[a1].comp_ids@);
                assert(self.archetypes@[a2].comp_ids@ == old(self).archetypes@[a2].comp_ids@);
            }
        }
    }

    /// Resolves the archetype for a record with the given component set,
    /// creating it when no archetype has that exact set. `sizes` gives the
    /// byte size of each component, ordered by ascending component id; it is
    /// only read when a new archetype is created.
    pub fn get_new_entity_archetype(
        &mut self,
        components: Vec<ComponentId>,
        sizes: &Vec<usize>,
    ) -> (r: NewEntityResult)
        requires
            old(self).wf(),
            components@.no_duplicates(),
            sizes@.len() == components@.len(),
            old(self).archetypes@.len() < ArchetypeId::MAX,
        ensures
            final(self).wf(),
            r.spec_id() < final(self).archetypes@.len(),
            final(self).archetypes@[r.spec_id() as int].comp_ids@.to_multiset()
                == components@.to_multiset(),
            r is OldArchetype ==> *final(self) == *old(self),
            r is NewArchetype ==> {
                &&& r.spec_id() == old(self).archetypes@.len()
                &&& final(self).archetypes@.len() == old(self).archetypes@.len() + 1
                &&& forall|a: int|
                    0 <= a < old(self).archetypes@.len() ==> #[trigger] final(self).archetypes@[a]
                        == old(self).archetypes@[a]
                &&& forall|a: int|
                    0 <= a < old(self).archetypes@.len()
                        ==> (#[trigger] old(self).archetypes@[a]).comp_ids@.to_multiset()
                        != components@.to_multiset()
                &&& final(self).archetypes@[r.spec_id() as int].entities@.len() == 0
                &&& final(self).archetypes@[r.spec_id() as int].available_rows@.len() == 0
                &&& forall|i: int|
                    0 <= i < sizes@.len() ==> (#[trigger] final(self).archetypes@[r.spec_id() as int].columns@[i]).size == sizes@[i]
            },
    {
        let sorted = sort_ids(&components);
        proof {
            lemma_no_duplicates_from_multiset(components@, sorted@);
            lemma_strictly_sorted_iff(sorted@);
        }
        let n = self.archetypes.len();
        let mut a: usize = 0;
        while a < n
            invariant
                *self == *old(self),
                old(self).wf(),
                n == self.archetypes@.len(),
                a <= n,
                sorted_by(sorted@, id_le()),
                sorted@.to_multiset() == components@.to_multiset(),
                forall|k: int|
                    0 <= k < a ==> (#[trigger] self.archetypes@[k]).comp_ids@ != sorted@,
            decreases n - a,
        {
            if ids_equal(&self.archetypes[a].comp_ids, &sorted) {
                return NewEntityResult::OldArchetype(a as u32);
            }
            a = a + 1;
        }
        proof {
            assert forall|k: int|
                0 <= k < self.archetypes@.len() implies (
            #[trigger] self.archetypes@[k]).comp_ids@.to_multiset()
                != components@.to_multiset() by {
                if self.archetypes@[k].comp_ids@.to_multiset() == components@.to_multiset() {
                    lemma_strictly_sorted_iff(self.archetypes@[k].comp_ids@);
                    lemma_sorted_multiset_unique(self.archetypes@[k].comp_ids@, sorted@);
                }
            }
        }
        let id = n;
        let arch = Archetype::new(sorted, sizes);
        self.archetypes.push(arch);
        proof {
            let post = self.archetypes@;
            let pre = old(self).archetypes@;
            assert forall|a1: int, a2: int|
                0 <= a1 < post.len() && 0 <= a2 < post.len() && a1 != a2 implies post[a1].comp_ids@
                != post[a2].comp_ids@ by {
                if a1 < pre.len() && a2 < pre.len() {
                    assert(post[a1] == pre[a1] && post[a2] == pre[a2]);
                } else if a1 < pre.len() {
                    if post[a1].comp_ids@ == post[a2].comp_ids@ {
                        assert(pre[a1].comp_ids@.to_multiset() == components@.to_multiset());
                    }
                } else if a2 < pre.len() {
                    if post[a1].comp_ids@ == post[a2].comp_ids@ {
                        assert(pre[a2].comp_ids@.to_multiset() == components@.to_multiset());
                    }
                }
            }
        }
        NewEntityResult::NewArchetype(id as u32)
    }
}

} // verus!
