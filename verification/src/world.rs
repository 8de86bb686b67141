//! The `World` is the entry point to the engine: it composes the record
//! store, the archetype store and the component-type catalog to spawn,
//! mutate, query and kill records.

use vstd::prelude::*;
use crate::arch_store::{ArchStore, ArchetypeId, NewEntityResult};
use crate::archetype::{index_of_id, lemma_index_of_id, ArchRowId};
use crate::component::{ComponentId, ComponentRegistry, FlagId};
use crate::entity::{Entity, EntityId, EntityStore};
use crate::sorting::{
    lemma_no_duplicates_from_multiset, lemma_sorted_multiset_unique, lemma_strictly_sorted_iff,
    sort_ids, strictly_sorted,
};

verus! {

pub struct World {
    pub entity_store: EntityStore,
    pub arch_store: ArchStore,
    pub registry: ComponentRegistry,
}

/// The component ids of a field list, in the caller's order.
pub open spec fn field_ids(fields: Seq<(ComponentId, Vec<u8>)>) -> Seq<ComponentId> {
    fields.map_values(|p: (ComponentId, Vec<u8>)| p.0)
}

impl World {
    /// Number of archetypes created so far.
    pub open spec fn spec_num_archetypes(self) -> int {
        self.arch_store.archetypes@.len() as int
    }

    /// Number of entity ids ever handed out (alive or dead).
    pub open spec fn spec_num_slots(self) -> int {
        self.entity_store.entities@.len() as int
    }

    pub open spec fn spec_is_alive(self, ent: EntityId) -> bool {
        self.entity_store.spec_is_alive(ent)
    }

    pub open spec fn spec_has_flag(self, ent: EntityId, flag: FlagId) -> bool {
        self.entity_store.spec_has_flag(ent, flag)
    }

    pub open spec fn spec_registered(self, comp: ComponentId) -> bool {
        self.registry.spec_registered(comp)
    }

    pub open spec fn spec_num_components(self) -> int {
        self.registry.spec_len()
    }

    pub open spec fn spec_size_of(self, comp: ComponentId) -> int {
        self.registry.spec_size(comp)
    }

    /// The stable key under which component id `comp` was registered.
    pub open spec fn spec_key_of(self, comp: ComponentId) -> u64 {
        self.registry.keys@[comp as int]
    }

    /// The membership set of a component type: the archetypes containing it,
    /// in creation order.
    pub open spec fn spec_groups(self, comp: ComponentId) -> Seq<ArchetypeId> {
        self.registry.spec_groups(comp)
    }

    /// Where entity `ent` lives (meaningful while `ent < spec_num_slots()`;
    /// stale once the entity is dead).
    pub open spec fn spec_loc(self, ent: EntityId) -> Entity {
        self.entity_store.entities@[ent as int]
    }

    pub open spec fn spec_arch_of(self, ent: EntityId) -> ArchetypeId {
        self.spec_loc(ent).arch_id
    }

    pub open spec fn spec_row_of(self, ent: EntityId) -> ArchRowId {
        self.spec_loc(ent).arch_row
    }

    /// The component types of entity `ent`: the member list of its archetype.
    pub open spec fn spec_comps_of(self, ent: EntityId) -> Seq<ComponentId> {
        self.arch_store.archetypes@[self.spec_arch_of(ent) as int].comp_ids@
    }

    pub open spec fn spec_has_component(self, ent: EntityId, comp: ComponentId) -> bool {
        self.spec_comps_of(ent).contains(comp)
    }

    /// The bytes currently stored as component `comp` of entity `ent`.
    pub open spec fn spec_value(self, ent: EntityId, comp: ComponentId) -> Seq<u8> {
        self.arch_store.archetypes@[self.spec_arch_of(ent) as int].spec_value(
            comp,
            self.spec_row_of(ent) as int,
        )
    }

    /// All live entity ids, in ascending order.
    pub open spec fn spec_live_ids(self) -> Seq<EntityId> {
        self.entity_store.live_ids_up_to(self.spec_num_slots())
    }

    pub open spec fn spec_entity_count(self) -> int {
        self.entity_store.live_count_up_to(self.spec_num_slots())
    }

    /// The killed-and-freed ids waiting for reuse.
    pub open spec fn spec_free_ids(self) -> Seq<EntityId> {
        self.entity_store.available_ids@
    }

    /// Whether an id can be allocated: the free list is non-empty or fresh
    /// ids remain.
    pub open spec fn spec_can_allocate(self) -> bool {
        self.spec_free_ids().len() > 0 || self.entity_store.next_id < EntityId::MAX
    }

    /// Machine limit: every column of every archetype can still take one row.
    pub open spec fn spec_has_room(self) -> bool {
        forall|a: int|
            0 <= a < self.spec_num_archetypes() ==> (#[trigger] self.arch_store.archetypes@[a]).spec_room()
    }

    /// Every spawned entity's location indexes a real archetype and row.
    pub open spec fn wf_locs(self) -> bool {
        forall|e: EntityId|
            0 <= e < self.spec_num_slots() ==> (#[trigger] self.spec_arch_of(e))
                < self.spec_num_archetypes() && self.spec_row_of(e)
                < self.arch_store.archetypes@[self.spec_arch_of(e) as int].entities@.len()
    }

    /// Every live entity's row points back at it.
    pub open spec fn wf_live(self) -> bool {
        forall|e: EntityId|
            0 <= e < self.spec_num_slots() && self.spec_is_alive(e)
                ==> #[trigger] self.arch_store.archetypes@[self.spec_arch_of(
                e,
            ) as int].entities@[self.spec_row_of(e) as int] == Some(e)
    }

    /// Every occupied row holds a live entity located exactly there.
    pub open spec fn wf_rows(self) -> bool {
        forall|a: int, r: int|
            0 <= a < self.spec_num_archetypes() && 0 <= r
                < self.arch_store.archetypes@[a].entities@.len() && (
            #[trigger] self.arch_store.archetypes@[a].entities@[r]) is Some ==> {
                let id = self.arch_store.archetypes@[a].entities@[r]->Some_0;
                &&& id < self.spec_num_slots()
                &&& self.spec_is_alive(id)
                &&& self.spec_arch_of(id) == a
                &&& self.spec_row_of(id) == r
            }
    }

    /// Archetype member lists mention only registered components and size
    /// their columns from the catalog.
    pub open spec fn wf_sizes(self) -> bool {
        forall|a: int, j: int|
            0 <= a < self.spec_num_archetypes() && 0 <= j
                < self.arch_store.archetypes@[a].comp_ids@.len() ==> {
                let c = #[trigger] self.arch_store.archetypes@[a].comp_ids@[j];
                &&& c < self.spec_num_components()
                &&& self.arch_store.archetypes@[a].columns@[j].size == self.spec_size_of(c)
            }
    }

    /// Membership sets are exact: a component's set lists, once each, exactly
    /// the archetypes containing it.
    pub open spec fn wf_groups(self) -> bool {
        &&& forall|c: ComponentId|
            0 <= c < self.spec_num_components() ==> (#[trigger] self.spec_groups(
                c,
            )).no_duplicates()
        &&& forall|c: ComponentId, k: int|
            0 <= c < self.spec_num_components() && 0 <= k < self.spec_groups(c).len() ==> {
                let g = #[trigger] self.spec_groups(c)[k];
                &&& g < self.spec_num_archetypes()
                &&& self.arch_store.archetypes@[g as int].spec_has(c)
            }
        &&& forall|a: int, c: ComponentId|
            0 <= a < self.spec_num_archetypes() && (#[trigger] self.arch_store.archetypes@[a].spec_has(
                c,
            )) ==> self.spec_groups(c).contains(a as ArchetypeId)
    }

    pub open spec fn wf(self) -> bool {
        &&& self.entity_store.wf()
        &&& self.arch_store.wf()
        &&& self.registry.wf()
        &&& self.spec_num_slots() == self.entity_store.next_id
        &&& self.wf_locs()
        &&& self.wf_live()
        &&& self.wf_rows()
        &&& self.wf_sizes()
        &&& self.wf_groups()
    }

    /// The registry-independent invariant pieces survive any change that
    /// leaves the archetype list, the location table and the dead bitmap as
    /// they were.
    proof fn lemma_wf_stores_frame(pre: World, post: World)
        requires
            pre.wf_locs(),
            pre.wf_live(),
            pre.wf_rows(),
            post.spec_num_archetypes() == pre.spec_num_archetypes(),
            forall|a: int|
                0 <= a < pre.spec_num_archetypes() ==> (#[trigger] post.arch_store.archetypes@[a]).entities@
                    == pre.arch_store.archetypes@[a].entities@,
            post.entity_store.entities@ == pre.entity_store.entities@,
            post.entity_store.dead@ == pre.entity_store.dead@,
        ensures
            post.wf_locs(),
            post.wf_live(),
            post.wf_rows(),
    {
        assert forall|e: EntityId|
            0 <= e < post.spec_num_slots() implies (#[trigger] post.spec_arch_of(e))
            < post.spec_num_archetypes() && post.spec_row_of(e)
            < post.arch_store.archetypes@[post.spec_arch_of(e) as int].entities@.len() by {
            assert(post.spec_loc(e) == pre.spec_loc(e));
            assert(pre.spec_arch_of(e) < pre.spec_num_archetypes());
            assert(post.arch_store.archetypes@[pre.spec_arch_of(e) as int].entities@
                == pre.arch_store.archetypes@[pre.spec_arch_of(e) as int].entities@);
        }
        assert forall|e: EntityId|
            0 <= e < post.spec_num_slots() && post.spec_is_alive(e)
                implies #[trigger] post.arch_store.archetypes@[post.spec_arch_of(
            e,
        ) as int].entities@[post.spec_row_of(e) as int] == Some(e) by {
            assert(post.spec_loc(e) == pre.spec_loc(e));
            assert(pre.spec_is_alive(e));
            assert(pre.spec_arch_of(e) < pre.spec_num_archetypes());
            assert(post.arch_store.archetypes@[pre.spec_arch_of(e) as int].entities@
                == pre.arch_store.archetypes@[pre.spec_arch_of(e) as int].entities@);
            assert(pre.arch_store.archetypes@[pre.spec_arch_of(e) as int].entities@[pre.spec_row_of(
                e,
            ) as int] == Some(e));
        }
        assert forall|a: int, r: int|
            0 <= a < post.spec_num_archetypes() && 0 <= r
                < post.arch_store.archetypes@[a].entities@.len() && (
            #[trigger] post.arch_store.archetypes@[a].entities@[r]) is Some implies {
            let id = post.arch_store.archetypes@[a].entities@[r]->Some_0;
            &&& id < post.spec_num_slots()
            &&& post.spec_is_alive(id)
            &&& post.spec_arch_of(id) == a
            &&& post.spec_row_of(id) == r
        } by {
            assert(post.arch_store.archetypes@[a].entities@ == pre.arch_store.archetypes@[a].entities@);
            assert(pre.arch_store.archetypes@[a].entities@[r] is Some);
            let id = pre.arch_store.archetypes@[a].entities@[r]->Some_0;
            assert(pre.spec_is_alive(id));
            assert(post.spec_loc(id) == pre.spec_loc(id));
        }
    }

    /// The registry-dependent invariant pieces survive any change that
    /// leaves the archetype list and the catalog as they were.
    proof fn lemma_wf_reg_frame(pre: World, post: World)
        requires
            pre.wf_sizes(),
            pre.wf_groups(),
            post.arch_store.archetypes@ == pre.arch_store.archetypes@,
            post.registry == pre.registry,
        ensures
            post.wf_sizes(),
            post.wf_groups(),
    {
        assert forall|a: int, j: int|
            0 <= a < post.spec_num_archetypes() && 0 <= j
                < post.arch_store.archetypes@[a].comp_ids@.len() implies {
            let c = #[trigger] post.arch_store.archetypes@[a].comp_ids@[j];
            &&& c < post.spec_num_components()
            &&& post.arch_store.archetypes@[a].columns@[j].size == post.spec_size_of(c)
        } by {
            let c = pre.arch_store.archetypes@[a].comp_ids@[j];
            assert(c < pre.spec_num_components());
        }
        assert forall|c: ComponentId|
            0 <= c < post.spec_num_components() implies (#[trigger] post.spec_groups(
            c,
        )).no_duplicates() by {
            assert(pre.spec_groups(c).no_duplicates());
        }
        assert forall|c: ComponentId, k: int|
            0 <= c < post.spec_num_components() && 0 <= k < post.spec_groups(c).len() implies {
            let g = #[trigger] post.spec_groups(c)[k];
            &&& g < post.spec_num_archetypes()
            &&& post.arch_store.archetypes@[g as int].spec_has(c)
        } by {
            let g = pre.spec_groups(c)[k];
            assert(g < pre.spec_num_archetypes());
            assert(pre.arch_store.archetypes@[g as int].spec_has(c));
        }
        assert forall|a: int, c: ComponentId|
            0 <= a < post.spec_num_archetypes() && (
        #[trigger] post.arch_store.archetypes@[a].spec_has(c)) implies post.spec_groups(
            c,
        ).contains(a as ArchetypeId) by {
            assert(pre.arch_store.archetypes@[a].spec_has(c));
            assert(pre.spec_groups(c).contains(a as ArchetypeId));
        }
    }

    /// The full invariant survives a change confined to the flag table or
    /// the id free list of the record store.
    proof fn lemma_wf_es_frame(pre: World, post: World)
        requires
            pre.wf(),
            post.arch_store == pre.arch_store,
            post.registry == pre.registry,
            post.entity_store.wf(),
            post.entity_store.entities@ == pre.entity_store.entities@,
            post.entity_store.dead@ == pre.entity_store.dead@,
            post.entity_store.next_id == pre.entity_store.next_id,
        ensures
            post.wf(),
    {
        assert forall|a: int|
            0 <= a < pre.spec_num_archetypes() implies (#[trigger] post.arch_store.archetypes@[a]).entities@
            == pre.arch_store.archetypes@[a].entities@ by {
            assert(post.arch_store.archetypes@[a] == pre.arch_store.archetypes@[a]);
        }
        World::lemma_wf_stores_frame(pre, post);
        World::lemma_wf_reg_frame(pre, post);
    }

    pub fn new() -> (r: Self)
        ensures
            r.wf(),
            r.spec_num_slots() == 0,
            r.spec_num_archetypes() == 0,
            r.spec_num_components() == 0,
            r.spec_entity_count() == 0,
            r.spec_free_ids().len() == 0,
            r.entity_store.next_id == 0,
            forall|e: EntityId, f: FlagId| !r.spec_has_flag(e, f),
    {
        World {
            entity_store: EntityStore::new(),
            arch_store: ArchStore::new(),
            registry: ComponentRegistry::new(),
        }
    }

    /// Registers the component type identified by `key` with its byte size.
    /// The first registration assigns the next unused component id; any later
    /// one with the same key returns the same id and changes nothing.
    pub fn register_component(&mut self, key: u64, size: usize) -> (comp: ComponentId)
        requires
            old(self).wf(),
            old(self).spec_num_components() < ComponentId::MAX,
            forall|c: ComponentId|
                old(self).spec_registered(c) && old(self).spec_key_of(c) == key ==> old(self).spec_size_of(c) == size,
        ensures
            final(self).wf(),
            final(self).spec_registered(comp),
            final(self).spec_key_of(comp) == key,
            final(self).spec_size_of(comp) == size,
            final(self).entity_store == old(self).entity_store,
            final(self).arch_store == old(self).arch_store,
            old(self).registry.keys@.contains(key) ==> *final(self) == *old(self),
            !old(self).registry.keys@.contains(key) ==> {
                &&& comp == old(self).spec_num_components()
                &&& final(self).spec_num_components() == old(self).spec_num_components() + 1
                &&& final(self).spec_groups(comp) =~= Seq::<ArchetypeId>::empty()
                &&& forall|c: ComponentId|
                    old(self).spec_registered(c) ==> final(self).spec_groups(c) == old(self).spec_groups(c) && final(self).spec_size_of(c) == old(self).spec_size_of(c)
                        && final(self).spec_key_of(c) == old(self).spec_key_of(c)
            },
    {
        proof {
            assert forall|c: ComponentId|
                self.registry.spec_registered(c) && self.registry.keys@[c as int]
                    == key implies self.registry.spec_size(c) == size by {
                assert(self.spec_key_of(c) == key);
            }
        }
        let comp = self.registry.register(key, size);
        proof {
            assert forall|a: int|
                0 <= a < old(self).spec_num_archetypes() implies (
            #[trigger] self.arch_store.archetypes@[a]).entities@ == old(self).arch_store.archetypes@[a].entities@ by {
                assert(self.arch_store.archetypes@[a] == old(self).arch_store.archetypes@[a]);
            }
            World::lemma_wf_stores_frame(*old(self), *self);
            if !old(self).registry.keys@.contains(key) {
                assert forall|a: int, j: int|
                    0 <= a < self.spec_num_archetypes() && 0 <= j
                        < self.arch_store.archetypes@[a].comp_ids@.len() implies {
                    let c = #[trigger] self.arch_store.archetypes@[a].comp_ids@[j];
                    &&& c < self.spec_num_components()
                    &&& self.arch_store.archetypes@[a].columns@[j].size == self.spec_size_of(c)
                } by {
                    let c = self.arch_store.archetypes@[a].comp_ids@[j];
                    assert(c < old(self).spec_num_components());
                    assert(old(self).spec_size_of(c) == self.spec_size_of(c));
                }
                assert forall|c: ComponentId, k: int|
                    0 <= c < self.spec_num_components() && 0 <= k
                        < self.spec_groups(c).len() implies {
                    let g = #[trigger] self.spec_groups(c)[k];
                    &&& g < self.spec_num_archetypes()
                    &&& self.arch_store.archetypes@[g as int].spec_has(c)
                } by {
                    assert(c < old(self).spec_num_components());
                    assert(self.spec_groups(c) == old(self).spec_groups(c));
                }
                assert forall|c: ComponentId|
                    0 <= c < self.spec_num_components() implies (#[trigger] self.spec_groups(
                    c,
                )).no_duplicates() by {
                    if c < old(self).spec_num_components() {
                        assert(self.spec_groups(c) == old(self).spec_groups(c));
                    } else {
                        assert(self.spec_groups(c) =~= Seq::<ArchetypeId>::empty());
                    }
                }
                assert forall|a: int, c: ComponentId|
                    0 <= a < self.spec_num_archetypes() && (
                #[trigger] self.arch_store.archetypes@[a].spec_has(c)) implies self.spec_groups(
                    c,
                ).contains(a as ArchetypeId) by {
                    let j = choose|j: int|
                        0 <= j < self.arch_store.archetypes@[a].comp_ids@.len()
                            && self.arch_store.archetypes@[a].comp_ids@[j] == c;
                    assert(c < old(self).spec_num_components());
                    assert(old(self).spec_groups(c).contains(a as ArchetypeId));
                    assert(self.spec_groups(c) == old(self).spec_groups(c));
                }
            }
        }
        comp
    }

    /// The byte size a component type was registered with.
    pub fn component_size(&self, comp: ComponentId) -> (r: usize)
        requires
            self.wf(),
            self.spec_registered(comp),
        ensures
            r == self.spec_size_of(comp),
    {
        self.registry.size_of(comp)
    }

    /// A copy of the membership set of a component type: the archetypes that
    /// contain it, in creation order.
    pub fn member_groups(&self, comp: ComponentId) -> (r: Vec<ArchetypeId>)
        requires
            self.wf(),
            self.spec_registered(comp),
        ensures
            r@ == self.spec_groups(comp),
    {
        self.registry.member_groups(comp)
    }

    /// Check whether an entity is alive. This can only be used accurately
    /// when `kill_and_keep` is used instead of `kill`: a freed id may be
    /// reused at any time.
    pub fn is_alive(&mut self, ent_id: EntityId) -> (r: bool)
        ensures
            *final(self) == *old(self),
            r == old(self).spec_is_alive(ent_id),
    {
        self.entity_store.is_alive(ent_id)
    }

    /// Returns the amount of entities that are alive.
    pub fn entity_count(&self) -> (r: usize)
        ensures
            r == self.spec_entity_count(),
    {
        self.entity_store.entity_count()
    }

    /// Frees a dead entity's id so it can be reused; after this, `is_alive`
    /// is no longer accurate for the id.
    pub fn free_id(&mut self, ent_id: EntityId)
        requires
            old(self).wf(),
            ent_id < old(self).spec_num_slots(),
            !old(self).spec_is_alive(ent_id),
            !old(self).spec_free_ids().contains(ent_id),
        ensures
            final(self).wf(),
            final(self).spec_free_ids() == old(self).spec_free_ids().push(ent_id),
            final(self).arch_store == old(self).arch_store,
            final(self).registry == old(self).registry,
            final(self).entity_store.entities@ == old(self).entity_store.entities@,
            final(self).entity_store.flags@ == old(self).entity_store.flags@,
            final(self).entity_store.dead@ == old(self).entity_store.dead@,
            final(self).entity_store.next_id == old(self).entity_store.next_id,
    {
        self.entity_store.free_id(ent_id);
        proof {
            World::lemma_wf_es_frame(*old(self), *self);
        }
    }


    /// The registry-dependent invariant pieces survive any change that keeps
    /// every archetype's member list and column sizes.
    proof fn lemma_wf_arch_frame(pre: World, post: World)
        requires
            pre.wf_sizes(),
            pre.wf_groups(),
            post.registry == pre.registry,
            post.spec_num_archetypes() == pre.spec_num_archetypes(),
            forall|a: int|
                0 <= a < pre.spec_num_archetypes() ==> (#[trigger] pre.arch_store.archetypes@[a]).columns@.len()
                    == pre.arch_store.archetypes@[a].comp_ids@.len(),
            forall|a: int|
                0 <= a < pre.spec_num_archetypes() ==> (#[trigger] post.arch_store.archetypes@[a]).comp_ids@
                    == pre.arch_store.archetypes@[a].comp_ids@
                    && post.arch_store.archetypes@[a].columns@.len()
                    == pre.arch_store.archetypes@[a].columns@.len(),
            forall|a: int, j: int|
                0 <= a < pre.spec_num_archetypes() && 0 <= j
                    < pre.arch_store.archetypes@[a].columns@.len()
                    ==> (#[trigger] post.arch_store.archetypes@[a].columns@[j]).size
                    == pre.arch_store.archetypes@[a].columns@[j].size,
        ensures
            post.wf_sizes(),
            post.wf_groups(),
    {
        assert forall|a: int, j: int|
            0 <= a < post.spec_num_archetypes() && 0 <= j
                < post.arch_store.archetypes@[a].comp_ids@.len() implies {
            let c = #[trigger] post.arch_store.archetypes@[a].comp_ids@[j];
            &&& c < post.spec_num_components()
            &&& post.arch_store.archetypes@[a].columns@[j].size == post.spec_size_of(c)
        } by {
            assert(post.arch_store.archetypes@[a].comp_ids@
                == pre.arch_store.archetypes@[a].comp_ids@);
            let c = pre.arch_store.archetypes@[a].comp_ids@[j];
            assert(c < pre.spec_num_components());
            assert(pre.arch_store.archetypes@[a].columns@[j].size == pre.spec_size_of(c));
            assert(post.arch_store.archetypes@[a].columns@[j].size
                == pre.arch_store.archetypes@[a].columns@[j].size);
        }
        assert forall|c: ComponentId, k: int|
            0 <= c < post.spec_num_components() && 0 <= k < post.spec_groups(c).len() implies {
            let g = #[trigger] post.spec_groups(c)[k];
            &&& g < post.spec_num_archetypes()
            &&& post.arch_store.archetypes@[g as int].spec_has(c)
        } by {
            let g = pre.spec_groups(c)[k];
            assert(g < pre.spec_num_archetypes());
            assert(pre.arch_store.archetypes@[g as int].spec_has(c));
            assert(post.arch_store.archetypes@[g as int].comp_ids@
                == pre.arch_store.archetypes@[g as int].comp_ids@);
        }
        assert forall|a: int, c: ComponentId|
            0 <= a < post.spec_num_archetypes() && (
        #[trigger] post.arch_store.archetypes@[a].spec_has(c)) implies post.spec_groups(c).contains(
            a as ArchetypeId,
        ) by {
            assert(post.arch_store.archetypes@[a].comp_ids@
                == pre.arch_store.archetypes@[a].comp_ids@);
            assert(pre.arch_store.archetypes@[a].spec_has(c));
            assert(pre.spec_groups(c).contains(a as ArchetypeId));
        }
        assert forall|c: ComponentId|
            0 <= c < post.spec_num_components() implies (#[trigger] post.spec_groups(
            c,
        )).no_duplicates() by {
            assert(pre.spec_groups(c).no_duplicates());
        }
    }

    /// Creates a record holding the given fields, one `(component id, value
    /// bytes)` pair per field. The field set's archetype is resolved
    /// (created on first sight, which records it with every involved
    /// component type's membership set), a row is reserved — reusing the most
    /// recently freed one when possible — every field is written, and the
    /// record is placed and marked alive.
    pub fn spawn_entity(&mut self, fields: Vec<(ComponentId, Vec<u8>)>) -> (ent_id: EntityId)
        requires
            old(self).wf(),
            field_ids(fields@).no_duplicates(),
            forall|i: int|
                0 <= i < fields@.len() ==> old(self).spec_registered(#[trigger] fields@[i].0)
                    && fields@[i].1@.len() == old(self).spec_size_of(fields@[i].0),
            old(self).spec_can_allocate(),
            old(self).spec_has_room(),
            old(self).spec_num_archetypes() < ArchetypeId::MAX,
        ensures
            final(self).wf(),
            // the new record is alive and holds exactly the given fields
            ent_id < final(self).spec_num_slots(),
            final(self).spec_is_alive(ent_id),
            forall|e: EntityId|
                final(self).spec_is_alive(e) == (e == ent_id || old(self).spec_is_alive(e)),
            strictly_sorted(final(self).spec_comps_of(ent_id)),
            final(self).spec_comps_of(ent_id).to_multiset() == field_ids(fields@).to_multiset(),
            forall|i: int|
                0 <= i < fields@.len() ==> final(self).spec_value(
                    ent_id,
                    #[trigger] fields@[i].0,
                ) == fields@[i].1@,
            final(self).spec_entity_count() == old(self).spec_entity_count() + 1,
            // id allocation: the most recently freed id, else the next fresh one
            old(self).spec_free_ids().len() > 0 ==> ent_id == old(self).spec_free_ids().last()
                && final(self).spec_free_ids() == old(self).spec_free_ids().drop_last() && final(self).spec_num_slots() == old(self).spec_num_slots(),
            old(self).spec_free_ids().len() == 0 ==> ent_id == old(self).spec_num_slots() && final(self).spec_num_slots() == old(self).spec_num_slots() + 1 && final(self).spec_free_ids()
                == old(self).spec_free_ids(),
            // group identity: a set-equal archetype is reused, never duplicated
            final(self).spec_arch_of(ent_id) < final(self).spec_num_archetypes(),
            forall|a: int|
                0 <= a < old(self).spec_num_archetypes() && (
                #[trigger] old(self).arch_store.archetypes@[a]).comp_ids@.to_multiset()
                    == field_ids(fields@).to_multiset() ==> final(self).spec_arch_of(ent_id) == a,
            (exists|a: int|
                0 <= a < old(self).spec_num_archetypes() && (
                #[trigger] old(self).arch_store.archetypes@[a]).comp_ids@.to_multiset()
                    == field_ids(fields@).to_multiset()) <==> final(self).spec_num_archetypes()
                == old(self).spec_num_archetypes(),
            final(self).spec_num_archetypes() == old(self).spec_num_archetypes() || final(self).spec_num_archetypes() == old(self).spec_num_archetypes() + 1,
            // row allocation: the most recently freed row of the archetype,
            // else a fresh row at the end
            forall|a0: int|
                0 <= a0 < old(self).spec_num_archetypes() && a0 == final(self).spec_arch_of(ent_id)
                    && (#[trigger] old(self).arch_store.archetypes@[a0]).available_rows@.len() > 0
                    ==> final(self).spec_row_of(ent_id) == old(self).arch_store.archetypes@[a0].available_rows@.last()
                        && final(self).arch_store.archetypes@[a0].available_rows@ == old(self).arch_store.archetypes@[a0].available_rows@.drop_last()
                        && final(self).arch_store.archetypes@[a0].entities@ == old(self).arch_store.archetypes@[a0].entities@.update(final(self).spec_row_of(ent_id) as int, Some(ent_id)),
            forall|a0: int|
                0 <= a0 < old(self).spec_num_archetypes() && a0 == final(self).spec_arch_of(ent_id)
                    && (#[trigger] old(self).arch_store.archetypes@[a0]).available_rows@.len() == 0
                    ==> final(self).spec_row_of(ent_id) == old(self).arch_store.archetypes@[a0].entities@.len()
                        && final(self).arch_store.archetypes@[a0].available_rows@ == old(self).arch_store.archetypes@[a0].available_rows@
                        && final(self).arch_store.archetypes@[a0].entities@ == old(self).arch_store.archetypes@[a0].entities@.push(Some(ent_id)),
            // a first-seen component set gets the appended archetype: one
            // occupied row and an empty row free list
            final(self).spec_num_archetypes() == old(self).spec_num_archetypes() + 1 ==> {
                &&& final(self).spec_arch_of(ent_id) == old(self).spec_num_archetypes()
                &&& final(self).spec_row_of(ent_id) == 0
                &&& final(self).arch_store.archetypes@[final(self).spec_arch_of(ent_id) as int].entities@
                    == seq![Some(ent_id)]
                &&& final(self).arch_store.archetypes@[final(self).spec_arch_of(ent_id) as int].available_rows@.len()
                    == 0
            },
            // frame: archetypes other than the record's are untouched
            forall|a: int|
                0 <= a < old(self).spec_num_archetypes() && a != final(self).spec_arch_of(ent_id)
                    ==> #[trigger] final(self).arch_store.archetypes@[a] == old(self).arch_store.archetypes@[a],
            // frame: everything else is untouched
            final(self).registry.keys@ == old(self).registry.keys@,
            final(self).registry.sizes@ == old(self).registry.sizes@,
            forall|e: EntityId, f: FlagId|
                final(self).spec_has_flag(e, f) == old(self).spec_has_flag(e, f),
            forall|e: EntityId|
                e < old(self).spec_num_slots() && e != ent_id ==> final(self).spec_loc(e) == old(self).spec_loc(e),
            forall|e: EntityId, c: ComponentId|
                e < old(self).spec_num_slots() && old(self).spec_is_alive(e) && old(self).spec_has_component(e, c) ==> final(self).spec_value(e, c) == old(self).spec_value(
                    e,
                    c,
                ) && final(self).spec_comps_of(e) == old(self).spec_comps_of(e),
            // membership sets change exactly when the archetype is new, and
            // then exactly for the involved component types
            final(self).spec_num_archetypes() == old(self).spec_num_archetypes()
                ==> forall|c: ComponentId|
                old(self).spec_registered(c) ==> #[trigger] final(self).spec_groups(c) == old(self).spec_groups(c),
            final(self).spec_num_archetypes() == old(self).spec_num_archetypes() + 1
                ==> forall|c: ComponentId|
                old(self).spec_registered(c) ==> #[trigger] final(self).spec_groups(c) == (
                if field_ids(fields@).contains(c) {
                    old(self).spec_groups(c).push((old(self).spec_num_archetypes()) as ArchetypeId)
                } else {
                    old(self).spec_groups(c)
                }),
    {
        let ghost pre = *old(self);
        // gather the field component ids
        let mut comps: Vec<ComponentId> = Vec::new();
        let mut i: usize = 0;
        while i < fields.len()
            invariant
                i <= fields@.len(),
                comps@.len() == i,
                forall|k: int| 0 <= k < i ==> comps@[k] == fields@[k].0,
            decreases fields@.len() - i,
        {
            let pair = &fields[i];
            comps.push(pair.0);
            i = i + 1;
        }
        proof {
            assert(comps@ =~= field_ids(fields@));
        }
        let sorted = sort_ids(&comps);
        proof {
            broadcast use vstd::seq_lib::to_multiset_contains;

            lemma_no_duplicates_from_multiset(comps@, sorted@);
            lemma_strictly_sorted_iff(sorted@);
            assert forall|k: int| 0 <= k < sorted@.len() implies pre.spec_registered(
                #[trigger] sorted@[k],
            ) && pre.spec_size_of(sorted@[k]) >= 0 by {
                assert(sorted@.contains(sorted@[k]));
                assert(sorted@.to_multiset().count(sorted@[k]) > 0);
                assert(field_ids(fields@).contains(sorted@[k]));
                let w = choose|w: int|
                    0 <= w < field_ids(fields@).len() && field_ids(fields@)[w] == sorted@[k];
                assert(fields@[w].0 == sorted@[k]);
            }
            assert forall|c: ComponentId| sorted@.contains(c) == field_ids(fields@).contains(
                c,
            ) by {
                if sorted@.contains(c) {
                    assert(sorted@.to_multiset().count(c) > 0);
                }
                if field_ids(fields@).contains(c) {
                    assert(field_ids(fields@).to_multiset().count(c) > 0);
                }
            }
        }
        // look the component sizes up, in canonical order
        let mut sizes: Vec<usize> = Vec::new();
        let mut i: usize = 0;
        while i < sorted.len()
            invariant
                *self == pre,
                pre.wf(),
                i <= sorted@.len(),
                sizes@.len() == i,
                forall|k: int|
                    0 <= k < sorted@.len() ==> pre.spec_registered(#[trigger] sorted@[k]),
                forall|k: int| 0 <= k < i ==> sizes@[k] == pre.spec_size_of(#[trigger] sorted@[k]),
            decreases sorted@.len() - i,
        {
            let c = sorted[i];
            let sz = self.registry.size_of(c);
            sizes.push(sz);
            i = i + 1;
        }
        // resolve the archetype for this component set
        let res = self.arch_store.get_new_entity_archetype(Self::copy_ids(&sorted), &sizes);
        let ghost store1 = self.arch_store;
        let arch_id = match res {
            NewEntityResult::NewArchetype(id) => {
                // a new archetype: record it with every involved component type
                let ghost reg0 = self.registry;
                let mut k: usize = 0;
                while k < sorted.len()
                    invariant
                        k <= sorted@.len(),
                        self.arch_store == store1,
                        self.entity_store == pre.entity_store,
                        reg0 == pre.registry,
                        pre.wf(),
                        strictly_sorted(sorted@),
                        forall|j: int|
                            0 <= j < sorted@.len() ==> pre.spec_registered(#[trigger] sorted@[j]),
                        self.registry.wf(),
                        self.registry.keys@ == reg0.keys@,
                        self.registry.sizes@ == reg0.sizes@,
                        self.registry.memberships@.len() == reg0.memberships@.len(),
                        forall|j: int|
                            0 <= j < k ==> self.registry.spec_groups(#[trigger] sorted@[j])
                                == reg0.spec_groups(sorted@[j]).push(id),
                        forall|c: ComponentId|
                            reg0.spec_registered(c) && !sorted@.subrange(0, k as int).contains(c)
                                ==> self.registry.spec_groups(c) == reg0.spec_groups(c),
                    decreases sorted@.len() - k,
                {
                    let c = sorted[k];
                    proof {
                        assert(!sorted@.subrange(0, k as int).contains(c)) by {
                            if sorted@.subrange(0, k as int).contains(c) {
                                let w = choose|w: int|
                                    0 <= w < k && sorted@.subrange(0, k as int)[w] == c;
                                assert(sorted@[w] == c && sorted@[k as int] == c);
                            }
                        }
                    }
                    let ghost regk = self.registry;
                    self.registry.record_group(c, id);
                    proof {
                        assert forall|j: int|
                            0 <= j < k + 1 implies self.registry.spec_groups(#[trigger] sorted@[j])
                            == reg0.spec_groups(sorted@[j]).push(id) by {
                            if j < k {
                                assert(sorted@[j] != c);
                                assert(self.registry.spec_groups(sorted@[j])
                                    == regk.spec_groups(sorted@[j]));
                            } else {
                                assert(regk.spec_groups(c) == reg0.spec_groups(c));
                            }
                        }
                        assert forall|c2: ComponentId|
                            reg0.spec_registered(c2) && !sorted@.subrange(0, k + 1).contains(
                                c2,
                            ) implies self.registry.spec_groups(c2) == reg0.spec_groups(c2) by {
                            assert(sorted@.subrange(0, k + 1)[k as int] == c);
                            assert(c2 != c);
                            assert forall|w: int|
                                0 <= w < k implies sorted@.subrange(0, k as int)[w] != c2 by {
                                assert(sorted@.subrange(0, k + 1)[w] == sorted@.subrange(
                                    0,
                                    k as int,
                                )[w]);
                            }
                            assert(!sorted@.subrange(0, k as int).contains(c2));
                            assert(regk.spec_groups(c2) == reg0.spec_groups(c2));
                        }
                    }
                    k = k + 1;
                }
                id
            },
            NewEntityResult::OldArchetype(id) => id,
        };
        let ghost s1 = *self;
        proof {
            // the resolved archetype's member list is exactly the sorted ids
            assert(sorted@.subrange(0, sorted@.len() as int) =~= sorted@);
            let arch = s1.arch_store.archetypes@[arch_id as int];
            assert(arch.wf());
            lemma_strictly_sorted_iff(arch.comp_ids@);
            lemma_sorted_multiset_unique(arch.comp_ids@, sorted@);
            assert(arch.comp_ids@ == sorted@);
            // its column sizes follow the catalog
            assert forall|j: int|
                0 <= j < sorted@.len() implies s1.arch_store.archetypes@[arch_id as int].columns@[j].size
                == pre.spec_size_of(sorted@[j]) by {
                if res is NewArchetype {
                } else {
                    assert(s1.arch_store.archetypes@[arch_id as int]
                        == pre.arch_store.archetypes@[arch_id as int]);
                    assert(pre.arch_store.archetypes@[arch_id as int].comp_ids@[j] == sorted@[j]);
                }
            }
            // it has room for one more row
            if res is OldArchetype {
                assert(pre.arch_store.archetypes@[arch_id as int].spec_room());
            } else {
                let arch1 = s1.arch_store.archetypes@[arch_id as int];
                assert(arch1.entities@.len() == 0);
                assert forall|j: int|
                    0 <= j < arch1.columns@.len() implies (#[trigger] arch1.columns@[j]).bytes@.len()
                    + arch1.columns@[j].size <= usize::MAX by {
                    assert(arch1.columns@[j].bytes@.len() == arch1.columns@[j].size
                        * arch1.entities@.len());
                    assert(arch1.columns@[j].size * 0 == 0);
                }
                assert(arch1.spec_room());
            }
        }
        // allocate an id and reserve a row
        let ent_id = self.entity_store.new_id();
        let ghost s2 = *self;
        let arch_row = {
            let a = &mut self.arch_store.archetypes[arch_id as usize];
            a.new_archrow_id(ent_id)
        };
        let ghost s3 = *self;
        proof {
            assert forall|a1: int, a2: int|
                0 <= a1 < s3.spec_num_archetypes() && 0 <= a2 < s3.spec_num_archetypes() && a1
                    != a2 implies s3.arch_store.archetypes@[a1].comp_ids@
                != s3.arch_store.archetypes@[a2].comp_ids@ by {
                assert(s3.arch_store.archetypes@[a1].comp_ids@
                    == s1.arch_store.archetypes@[a1].comp_ids@);
                assert(s3.arch_store.archetypes@[a2].comp_ids@
                    == s1.arch_store.archetypes@[a2].comp_ids@);
            }
        }
        // write every field into its column
        let mut i: usize = 0;
        while i < fields.len()
            invariant
                i <= fields@.len(),
                pre.wf(),
                comps@ =~= field_ids(fields@),
                comps@.no_duplicates(),
                forall|k: int| 0 <= k < comps@.len() ==> comps@[k] == fields@[k].0,
                comps@.len() == fields@.len(),
                sorted@.to_multiset() == comps@.to_multiset(),
                forall|c: ComponentId| sorted@.contains(c) == field_ids(fields@).contains(c),
                forall|k: int|
                    0 <= k < fields@.len() ==> pre.spec_registered(#[trigger] fields@[k].0)
                        && fields@[k].1@.len() == pre.spec_size_of(fields@[k].0),
                // fixed shape facts
                self.entity_store == s3.entity_store,
                self.registry == s3.registry,
                self.arch_store.archetypes@.len() == s3.arch_store.archetypes@.len(),
                arch_id < s3.spec_num_archetypes(),
                forall|a: int|
                    0 <= a < s3.spec_num_archetypes() && a != arch_id
                        ==> #[trigger] self.arch_store.archetypes@[a]
                        == s3.arch_store.archetypes@[a],
                // the target archetype only changes written bytes
                self.arch_store.archetypes@[arch_id as int].wf(),
                self.arch_store.archetypes@[arch_id as int].comp_ids@ == sorted@,
                s3.arch_store.archetypes@[arch_id as int].comp_ids@ == sorted@,
                self.arch_store.archetypes@[arch_id as int].entities@
                    == s3.arch_store.archetypes@[arch_id as int].entities@,
                self.arch_store.archetypes@[arch_id as int].available_rows@
                    == s3.arch_store.archetypes@[arch_id as int].available_rows@,
                self.arch_store.archetypes@[arch_id as int].columns@.len() == sorted@.len(),
                forall|j: int|
                    0 <= j < sorted@.len()
                        ==> (#[trigger] self.arch_store.archetypes@[arch_id as int].columns@[j]).size
                        == pre.spec_size_of(sorted@[j]),
                arch_row < self.arch_store.archetypes@[arch_id as int].entities@.len(),
                // progress: fields written so far hold their values
                forall|k: int|
                    0 <= k < i ==> self.arch_store.archetypes@[arch_id as int].spec_value(
                        #[trigger] fields@[k].0,
                        arch_row as int,
                    ) == fields@[k].1@,
                // rows other than the new one keep their values
                forall|c: ComponentId, r: int|
                    s3.arch_store.archetypes@[arch_id as int].spec_has(c) && 0 <= r
                        < s3.arch_store.archetypes@[arch_id as int].entities@.len() && r
                        != arch_row ==> self.arch_store.archetypes@[arch_id as int].spec_value(
                        c,
                        r,
                    ) == s3.arch_store.archetypes@[arch_id as int].spec_value(c, r),
            decreases fields@.len() - i,
        {
            let pair = &fields[i];
            let c = pair.0;
            proof {
                assert(fields@[i as int].0 == field_ids(fields@)[i as int]);
                assert(field_ids(fields@).contains(c));
                assert(self.arch_store.archetypes@[arch_id as int].spec_has(c));
                let arch = self.arch_store.archetypes@[arch_id as int];
                lemma_index_of_id(arch.comp_ids@, c);
                let j = index_of_id(arch.comp_ids@, c);
                assert(arch.columns@[j].size == pre.spec_size_of(c));
                assert(arch.spec_size_of(c) == pre.spec_size_of(c));
            }
            let ghost before = self.arch_store.archetypes@[arch_id as int];
            {
                let a = &mut self.arch_store.archetypes[arch_id as usize];
                a.set_component(arch_row, c, &pair.1);
            }
            proof {
                let after = self.arch_store.archetypes@[arch_id as int];
                assert forall|k: int|
                    0 <= k < i + 1 implies self.arch_store.archetypes@[arch_id as int].spec_value(
                    #[trigger] fields@[k].0,
                    arch_row as int,
                ) == fields@[k].1@ by {
                    if k < i {
                        assert(fields@[k].0 == comps@[k] && fields@[i as int].0 == comps@[i as int]);
                        assert(comps@[k] != comps@[i as int]);
                        assert(before.spec_has(fields@[k].0));
                        assert(after.spec_value(fields@[k].0, arch_row as int)
                            == before.spec_value(fields@[k].0, arch_row as int));
                    }
                }
                assert forall|c2: ComponentId, r: int|
                    s3.arch_store.archetypes@[arch_id as int].spec_has(c2) && 0 <= r
                        < s3.arch_store.archetypes@[arch_id as int].entities@.len() && r
                        != arch_row implies self.arch_store.archetypes@[arch_id as int].spec_value(
                    c2,
                    r,
                ) == s3.arch_store.archetypes@[arch_id as int].spec_value(c2, r) by {
                    assert(before.spec_has(c2));
                    assert(after.spec_value(c2, r) == before.spec_value(c2, r));
                }
            }
            i = i + 1;
        }
        let ghost s4 = *self;
        // place the record
        proof {
            if pre.spec_free_ids().len() > 0 {
                assert(ent_id < pre.entity_store.next_id);
            }
        }
        self.entity_store.spawn_with_id(ent_id, arch_id, arch_row);
        proof {
            let fin = *self;
            broadcast use vstd::seq_lib::to_multiset_contains;

            // liveness chain: only the new record changed state
            assert(s4.entity_store == s2.entity_store);
            assert forall|e: EntityId|
                fin.spec_is_alive(e) == (e == ent_id || pre.spec_is_alive(e)) by {
                assert(s2.entity_store.dead@ == pre.entity_store.dead@);
            }
            assert(fin.spec_is_alive(ent_id));
            // which archetypes changed, relative to pre
            let nold = pre.spec_num_archetypes();
            assert forall|a: int|
                0 <= a < nold && a != arch_id implies #[trigger] fin.arch_store.archetypes@[a]
                == pre.arch_store.archetypes@[a] by {
                assert(s1.arch_store.archetypes@[a] == pre.arch_store.archetypes@[a]);
                assert(s3.arch_store.archetypes@[a] == s1.arch_store.archetypes@[a]);
            }
            let archf = fin.arch_store.archetypes@[arch_id as int];
            assert(archf.comp_ids@ == sorted@);
            assert(archf.entities@ == s3.arch_store.archetypes@[arch_id as int].entities@);
            assert(archf.entities@[arch_row as int] == Some(ent_id));
            assert(archf.wf());
            // the new record's location
            assert(fin.spec_loc(ent_id) == Entity { arch_id, arch_row });
            assert forall|e: EntityId|
                e < pre.spec_num_slots() && e != ent_id implies fin.spec_loc(e) == pre.spec_loc(
                e,
            ) by {}
            // row indices of live old records differ from the new row
            assert forall|e: EntityId|
                e < pre.spec_num_slots() && pre.spec_is_alive(e) && pre.spec_arch_of(e) == arch_id
                    implies pre.spec_row_of(e) != arch_row && e != ent_id by {
                assert(e != ent_id);
                assert(pre.arch_store.archetypes@[arch_id as int].entities@[pre.spec_row_of(
                    e,
                ) as int] == Some(e));
                if res is NewArchetype {
                    assert(arch_id == nold);
                    assert(pre.spec_arch_of(e) < nold);
                } else {
                    assert(s1.arch_store.archetypes@[arch_id as int]
                        == pre.arch_store.archetypes@[arch_id as int]);
                    if s1.arch_store.archetypes@[arch_id as int].available_rows@.len() > 0 {
                        assert(s1.arch_store.archetypes@[arch_id as int].entities@[arch_row as int]
                            is None);
                    } else {
                        assert(arch_row == s1.arch_store.archetypes@[arch_id as int].entities@.len());
                    }
                }
            }
            // wf: locations
            assert forall|e: EntityId|
                0 <= e < fin.spec_num_slots() implies (#[trigger] fin.spec_arch_of(e))
                < fin.spec_num_archetypes() && fin.spec_row_of(e)
                < fin.arch_store.archetypes@[fin.spec_arch_of(e) as int].entities@.len() by {
                if e == ent_id {
                    assert(arch_id < fin.spec_num_archetypes());
                } else {
                    assert(e < pre.spec_num_slots());
                    assert(fin.spec_loc(e) == pre.spec_loc(e));
                    assert(pre.spec_arch_of(e) < nold);
                    let pa = pre.spec_arch_of(e) as int;
                    if pa == arch_id {
                        assert(archf.entities@.len()
                            >= pre.arch_store.archetypes@[pa].entities@.len());
                    } else {
                        assert(fin.arch_store.archetypes@[pa] == pre.arch_store.archetypes@[pa]);
                    }
                }
            }
            // wf: live records point back at their rows
            assert forall|e: EntityId|
                0 <= e < fin.spec_num_slots() && fin.spec_is_alive(e)
                    implies #[trigger] fin.arch_store.archetypes@[fin.spec_arch_of(
                e,
            ) as int].entities@[fin.spec_row_of(e) as int] == Some(e) by {
                if e == ent_id {
                } else {
                    assert(pre.spec_is_alive(e) && e < pre.spec_num_slots());
                    assert(fin.spec_loc(e) == pre.spec_loc(e));
                    let pa = pre.spec_arch_of(e) as int;
                    let pr = pre.spec_row_of(e) as int;
                    assert(pre.arch_store.archetypes@[pa].entities@[pr] == Some(e));
                    if pa == arch_id {
                        assert(pr != arch_row);
                        assert(archf.entities@[pr]
                            == pre.arch_store.archetypes@[arch_id as int].entities@[pr]);
                    } else {
                        assert(fin.arch_store.archetypes@[pa] == pre.arch_store.archetypes@[pa]);
                    }
                }
            }
            // wf: occupied rows hold live records located there
            assert forall|a: int, r: int|
                0 <= a < fin.spec_num_archetypes() && 0 <= r
                    < fin.arch_store.archetypes@[a].entities@.len() && (
            #[trigger] fin.arch_store.archetypes@[a].entities@[r]) is Some implies {
                let id = fin.arch_store.archetypes@[a].entities@[r]->Some_0;
                &&& id < fin.spec_num_slots()
                &&& fin.spec_is_alive(id)
                &&& fin.spec_arch_of(id) == a
                &&& fin.spec_row_of(id) == r
            } by {
                if a == arch_id && r == arch_row {
                } else if a == arch_id {
                    assert(fin.arch_store.archetypes@[a].entities@[r]
                        == s1.arch_store.archetypes@[a].entities@[r]);
                    if res is NewArchetype {
                        assert(s1.arch_store.archetypes@[a].entities@.len() == 0);
                        assert(false);
                    } else {
                        assert(s1.arch_store.archetypes@[a] == pre.arch_store.archetypes@[a]);
                        let id = pre.arch_store.archetypes@[a].entities@[r]->Some_0;
                        assert(pre.spec_is_alive(id) && pre.spec_arch_of(id) == a
                            && pre.spec_row_of(id) == r && id < pre.spec_num_slots());
                        assert(id != ent_id);
                        assert(fin.spec_loc(id) == pre.spec_loc(id));
                    }
                } else {
                    assert(a < nold);
                    assert(fin.arch_store.archetypes@[a] == pre.arch_store.archetypes@[a]);
                    assert(pre.arch_store.archetypes@[a].entities@[r] is Some);
                    let id = pre.arch_store.archetypes@[a].entities@[r]->Some_0;
                    assert(pre.spec_is_alive(id) && pre.spec_arch_of(id) == a && pre.spec_row_of(
                        id,
                    ) == r && id < pre.spec_num_slots());
                    assert(id != ent_id);
                    assert(fin.spec_loc(id) == pre.spec_loc(id));
                }
            }
            // wf: the archetype store stays deduplicated
            assert forall|a1: int, a2: int|
                0 <= a1 < fin.spec_num_archetypes() && 0 <= a2 < fin.spec_num_archetypes() && a1
                    != a2 implies fin.arch_store.archetypes@[a1].comp_ids@
                != fin.arch_store.archetypes@[a2].comp_ids@ by {
                assert(fin.arch_store.archetypes@[a1].comp_ids@
                    == s1.arch_store.archetypes@[a1].comp_ids@);
                assert(fin.arch_store.archetypes@[a2].comp_ids@
                    == s1.arch_store.archetypes@[a2].comp_ids@);
            }
            assert forall|a: int|
                0 <= a < fin.spec_num_archetypes() implies (
            #[trigger] fin.arch_store.archetypes@[a]).wf() by {
                if a != arch_id {
                    assert(fin.arch_store.archetypes@[a] == s3.arch_store.archetypes@[a]);
                    assert(s3.arch_store.archetypes@[a] == s1.arch_store.archetypes@[a]);
                    assert(s1.arch_store.archetypes@[a].wf());
                }
            }
            // wf: sizes follow the catalog
            assert(fin.registry == s1.registry);
            assert(fin.registry.keys@ == pre.registry.keys@);
            assert(fin.registry.sizes@ == pre.registry.sizes@);
            assert forall|a: int, j: int|
                0 <= a < fin.spec_num_archetypes() && 0 <= j
                    < fin.arch_store.archetypes@[a].comp_ids@.len() implies {
                let c = #[trigger] fin.arch_store.archetypes@[a].comp_ids@[j];
                &&& c < fin.spec_num_components()
                &&& fin.arch_store.archetypes@[a].columns@[j].size == fin.spec_size_of(c)
            } by {
                if a == arch_id {
                    assert(fin.arch_store.archetypes@[a].comp_ids@ == sorted@);
                    assert(pre.spec_registered(sorted@[j]));
                    assert(fin.arch_store.archetypes@[a].columns@[j].size == pre.spec_size_of(
                        sorted@[j],
                    ));
                } else {
                    assert(fin.arch_store.archetypes@[a] == pre.arch_store.archetypes@[a]);
                    let c = pre.arch_store.archetypes@[a].comp_ids@[j];
                    assert(c < pre.spec_num_components() && pre.arch_store.archetypes@[a].columns@[j].size
                        == pre.spec_size_of(c));
                }
            }
            // wf: membership sets stay exact
            if res is NewArchetype {
                assert(sorted@.subrange(0, sorted@.len() as int) =~= sorted@);
                assert forall|j: int|
                    0 <= j < sorted@.len() implies fin.spec_groups(#[trigger] sorted@[j])
                    == pre.spec_groups(sorted@[j]).push(arch_id) by {}
                assert forall|c: ComponentId|
                    pre.spec_registered(c) && !sorted@.contains(c) implies fin.spec_groups(c)
                    == pre.spec_groups(c) by {}
            }
            assert forall|c: ComponentId|
                0 <= c < fin.spec_num_components() implies (#[trigger] fin.spec_groups(
                c,
            )).no_duplicates() by {
                assert(pre.spec_groups(c).no_duplicates());
                if res is NewArchetype && sorted@.contains(c) {
                    let j = choose|j: int| 0 <= j < sorted@.len() && sorted@[j] == c;
                    assert(fin.spec_groups(c) == pre.spec_groups(c).push(arch_id));
                    let s = pre.spec_groups(c);
                    assert forall|k: int| 0 <= k < s.len() implies s[k] != arch_id by {
                        assert(s[k] < nold);
                    }
                    let t = s.push(arch_id);
                    assert forall|p: int, q: int|
                        0 <= p < t.len() && 0 <= q < t.len() && p != q implies t[p] != t[q] by {
                        if p < s.len() && q < s.len() {
                            assert(t[p] == s[p] && t[q] == s[q]);
                        } else if p < s.len() {
                            assert(t[p] == s[p] && s[p] != arch_id);
                        } else if q < s.len() {
                            assert(t[q] == s[q] && s[q] != arch_id);
                        }
                    }
                } else {
                    assert(fin.spec_groups(c) == pre.spec_groups(c));
                }
            }
            assert forall|c: ComponentId, k: int|
                0 <= c < fin.spec_num_components() && 0 <= k < fin.spec_groups(c).len() implies {
                let g = #[trigger] fin.spec_groups(c)[k];
                &&& g < fin.spec_num_archetypes()
                &&& fin.arch_store.archetypes@[g as int].spec_has(c)
            } by {
                if res is NewArchetype && sorted@.contains(c) {
                    let j = choose|j: int| 0 <= j < sorted@.len() && sorted@[j] == c;
                    assert(fin.spec_groups(c) == pre.spec_groups(c).push(arch_id));
                    if k < pre.spec_groups(c).len() {
                        let g = pre.spec_groups(c)[k];
                        assert(g < nold && pre.arch_store.archetypes@[g as int].spec_has(c));
                        assert(fin.arch_store.archetypes@[g as int].comp_ids@
                            == pre.arch_store.archetypes@[g as int].comp_ids@);
                    } else {
                        assert(fin.spec_groups(c)[k] == arch_id);
                        assert(archf.comp_ids@[j] == c);
                    }
                } else {
                    assert(fin.spec_groups(c) == pre.spec_groups(c));
                    let g = pre.spec_groups(c)[k];
                    assert(g < nold && pre.arch_store.archetypes@[g as int].spec_has(c));
                    assert(fin.arch_store.archetypes@[g as int].comp_ids@
                        == pre.arch_store.archetypes@[g as int].comp_ids@);
                }
            }
            assert forall|a: int, c: ComponentId|
                0 <= a < fin.spec_num_archetypes() && (
            #[trigger] fin.arch_store.archetypes@[a].spec_has(c)) implies fin.spec_groups(
                c,
            ).contains(a as ArchetypeId) by {
                if a < nold {
                    assert(fin.arch_store.archetypes@[a].comp_ids@
                        == pre.arch_store.archetypes@[a].comp_ids@);
                    assert(pre.arch_store.archetypes@[a].spec_has(c));
                    assert(pre.spec_groups(c).contains(a as ArchetypeId));
                    let k = choose|k: int|
                        0 <= k < pre.spec_groups(c).len() && pre.spec_groups(c)[k]
                            == a as ArchetypeId;
                    assert(pre.arch_store.archetypes@[a].comp_ids@.len() > 0);
                    let jc = choose|jc: int|
                        0 <= jc < pre.arch_store.archetypes@[a].comp_ids@.len()
                            && pre.arch_store.archetypes@[a].comp_ids@[jc] == c;
                    assert(c < pre.spec_num_components());
                    if res is NewArchetype && sorted@.contains(c) {
                        assert(fin.spec_groups(c) == pre.spec_groups(c).push(arch_id));
                        assert(fin.spec_groups(c)[k] == a as ArchetypeId);
                    } else {
                        assert(fin.spec_groups(c) == pre.spec_groups(c));
                    }
                } else {
                    assert(a == arch_id && res is NewArchetype);
                    assert(archf.comp_ids@ == sorted@);
                    assert(sorted@.contains(c));
                    let j = choose|j: int| 0 <= j < sorted@.len() && sorted@[j] == c;
                    assert(pre.spec_registered(c));
                    assert(fin.spec_groups(c) == pre.spec_groups(c).push(arch_id));
                    assert(fin.spec_groups(c)[pre.spec_groups(c).len() as int] == arch_id);
                }
            }
            // the live count rises by one
            if pre.spec_free_ids().len() > 0 {
                assert(!pre.spec_is_alive(ent_id));
                assert(ent_id < pre.spec_num_slots());
                pre.entity_store.lemma_live_count_revive(
                    fin.entity_store,
                    ent_id,
                    pre.spec_num_slots(),
                );
            } else {
                assert(ent_id == pre.spec_num_slots());
                pre.entity_store.lemma_live_count_same(fin.entity_store, pre.spec_num_slots());
                assert(fin.spec_num_slots() == pre.spec_num_slots() + 1);
                assert(fin.spec_is_alive((fin.spec_num_slots() - 1) as u32));
                assert(fin.spec_entity_count() == fin.entity_store.live_count_up_to(
                    pre.spec_num_slots(),
                ) + 1);
            }
            // the new record's fields hold their values
            assert forall|i2: int|
                0 <= i2 < fields@.len() implies fin.spec_value(ent_id, #[trigger] fields@[i2].0)
                == fields@[i2].1@ by {
                assert(s4.arch_store.archetypes@[arch_id as int].spec_value(
                    fields@[i2].0,
                    arch_row as int,
                ) == fields@[i2].1@);
            }
            // old records keep their values
            assert forall|e: EntityId, c: ComponentId|
                e < pre.spec_num_slots() && pre.spec_is_alive(e) && pre.spec_has_component(
                    e,
                    c,
                ) implies fin.spec_value(e, c) == pre.spec_value(e, c) && fin.spec_comps_of(e)
                == pre.spec_comps_of(e) by {
                if pre.spec_free_ids().len() > 0 {
                    assert(!pre.spec_is_alive(ent_id));
                }
                assert(e != ent_id);
                assert(fin.spec_loc(e) == pre.spec_loc(e));
                assert(pre.spec_arch_of(e) < nold);
                let pa = pre.spec_arch_of(e) as int;
                if pa != arch_id {
                    assert(fin.arch_store.archetypes@[pa] == pre.arch_store.archetypes@[pa]);
                } else {
                    let pr = pre.spec_row_of(e) as int;
                    assert(pr != arch_row);
                    assert(s1.arch_store.archetypes@[pa] == pre.arch_store.archetypes@[pa]);
                    // the reservation kept other rows' bytes
                    let arch1 = s1.arch_store.archetypes@[pa];
                    let arch3 = s3.arch_store.archetypes@[pa];
                    assert(pre.spec_has_component(e, c) ==> arch1.spec_has(c));
                    crate::archetype::lemma_index_of_id(arch1.comp_ids@, c);
                    let jx = crate::archetype::index_of_id(arch1.comp_ids@, c);
                    assert(arch3.col_value(jx, pr) == arch1.col_value(jx, pr));
                    assert(arch3.spec_index_of(c) == jx);
                    assert(arch3.spec_value(c, pr) == arch1.spec_value(c, pr));
                    assert(arch3.spec_has(c) && pr < arch3.entities@.len());
                    assert(fin.arch_store.archetypes@[pa].spec_value(c, pr) == arch3.spec_value(
                        c,
                        pr,
                    ));
                }
            }
            // the group-identity consequences
            assert forall|a: int|
                0 <= a < nold && (#[trigger] pre.arch_store.archetypes@[a]).comp_ids@.to_multiset()
                    == field_ids(fields@).to_multiset() implies fin.spec_arch_of(ent_id) == a by {
                if res is NewArchetype {
                    assert(false);
                } else {
                    lemma_strictly_sorted_iff(pre.arch_store.archetypes@[a].comp_ids@);
                    lemma_sorted_multiset_unique(pre.arch_store.archetypes@[a].comp_ids@, sorted@);
                    assert(pre.arch_store.archetypes@[a].comp_ids@ == sorted@);
                    assert(pre.arch_store.archetypes@[arch_id as int].comp_ids@ == sorted@);
                    assert(a == arch_id);
                }
            }
            if res is OldArchetype {
                assert(pre.arch_store.archetypes@[arch_id as int].comp_ids@.to_multiset()
                    == field_ids(fields@).to_multiset());
            }
            // the target archetype's row table after the spawn
            if res is NewArchetype {
                assert(fin.spec_num_archetypes() == nold + 1);
                assert(arch_id == nold);
                assert(s1.arch_store.archetypes@[arch_id as int].entities@.len() == 0);
                assert(s1.arch_store.archetypes@[arch_id as int].available_rows@.len() == 0);
                assert(s3.arch_store.archetypes@[arch_id as int].entities@
                    == s1.arch_store.archetypes@[arch_id as int].entities@.push(Some(ent_id)));
                assert(arch_row == 0);
                assert(archf.entities@ =~= seq![Some(ent_id)]);
                assert(archf.available_rows@
                    == s1.arch_store.archetypes@[arch_id as int].available_rows@);
            } else {
                assert(fin.spec_num_archetypes() == nold);
                assert(s1.arch_store.archetypes@[arch_id as int]
                    == pre.arch_store.archetypes@[arch_id as int]);
                if pre.arch_store.archetypes@[arch_id as int].available_rows@.len() > 0 {
                    assert(archf.entities@
                        == pre.arch_store.archetypes@[arch_id as int].entities@.update(
                        arch_row as int,
                        Some(ent_id),
                    ));
                } else {
                    assert(archf.entities@
                        == pre.arch_store.archetypes@[arch_id as int].entities@.push(
                        Some(ent_id),
                    ));
                    assert(archf.available_rows@
                        == pre.arch_store.archetypes@[arch_id as int].available_rows@);
                }
            }
            // membership sets change exactly when the archetype is new
            if fin.spec_num_archetypes() == nold {
                assert(res is OldArchetype);
                assert(fin.registry == pre.registry);
                assert forall|c: ComponentId|
                    pre.spec_registered(c) implies #[trigger] fin.spec_groups(c)
                    == pre.spec_groups(c) by {}
            } else {
                assert(res is NewArchetype);
                assert forall|c: ComponentId|
                    pre.spec_registered(c) implies #[trigger] fin.spec_groups(c) == (
                if field_ids(fields@).contains(c) {
                    pre.spec_groups(c).push(nold as ArchetypeId)
                } else {
                    pre.spec_groups(c)
                }) by {
                    if field_ids(fields@).contains(c) {
                        assert(sorted@.contains(c));
                        let j = choose|j: int| 0 <= j < sorted@.len() && sorted@[j] == c;
                        assert(fin.spec_groups(c) == pre.spec_groups(c).push(arch_id));
                    } else {
                        assert(!sorted@.contains(c));
                    }
                }
            }
        }
        ent_id
    }



    /// An element-wise copy of a component-id list.
    fn copy_ids(v: &Vec<ComponentId>) -> (r: Vec<ComponentId>)
        ensures
            r@ == v@,
    {
        let mut r: Vec<ComponentId> = Vec::new();
        let mut i: usize = 0;
        while i < v.len()
            invariant
                i <= v@.len(),
                r@ =~= v@.subrange(0, i as int),
            decreases v@.len() - i,
        {
            r.push(v[i]);
            i = i + 1;
        }
        proof {
            assert(v@.subrange(0, v@.len() as int) =~= v@);
        }
        r
    }


    /// Whether archetype `g` survives the intersection: every requested type
    /// beyond the driving one has `g` in its membership set.
    pub open spec fn group_matches(self, g: ArchetypeId, comps: Seq<ComponentId>) -> bool {
        forall|j: int| 1 <= j < comps.len() ==> self.spec_groups(#[trigger] comps[j]).contains(g)
    }

    /// The query plan's result over the first `n` archetypes of the driving
    /// type's membership set: for each surviving archetype, its live
    /// entities in row order, flattened in membership order.
    pub open spec fn query_up_to(self, comps: Seq<ComponentId>, n: int) -> Seq<EntityId>
        decreases n,
    {
        if n <= 0 {
            Seq::<EntityId>::empty()
        } else {
            let rest = self.query_up_to(comps, n - 1);
            let g = self.spec_groups(comps[0])[n - 1];
            if self.group_matches(g, comps) {
                rest + self.arch_store.archetypes@[g as int].spec_live_ids(self.entity_store)
            } else {
                rest
            }
        }
    }

    /// The ids a query for `comps` yields, in plan order.
    pub open spec fn spec_query(self, comps: Seq<ComponentId>) -> Seq<EntityId>
        recommends
            comps.len() >= 1,
    {
        self.query_up_to(comps, self.spec_groups(comps[0]).len() as int)
    }

    /// Whether archetype `g` is in component `comp`'s membership set.
    fn group_contains(&self, comp: ComponentId, g: ArchetypeId) -> (r: bool)
        requires
            self.wf(),
            self.spec_registered(comp),
        ensures
            r == self.spec_groups(comp).contains(g),
    {
        let m = &self.registry.memberships[comp as usize];
        let mut i: usize = 0;
        while i < m.len()
            invariant
                i <= m@.len(),
                m@ == self.registry.memberships@[comp as int]@,
                forall|k: int| 0 <= k < i ==> m@[k] != g,
            decreases m@.len() - i,
        {
            if m[i] == g {
                return true;
            }
            i = i + 1;
        }
        proof {
            if self.spec_groups(comp).contains(g) {
                let k = choose|k: int|
                    0 <= k < self.spec_groups(comp).len() && self.spec_groups(comp)[k] == g;
                assert(m@[k] == g);
            }
        }
        false
    }

    /// Query the ids of every live record holding all requested components.
    /// Archetypes come in the driving (first) type's membership order —
    /// the order its archetypes were created — and within an archetype,
    /// records come in row order.
    pub fn query(&self, comps: &Vec<ComponentId>) -> (r: Vec<EntityId>)
        requires
            self.wf(),
            comps@.len() >= 1,
            forall|j: int| 0 <= j < comps@.len() ==> self.spec_registered(#[trigger] comps@[j]),
        ensures
            r@ == self.spec_query(comps@),
    {
        let driving = self.member_groups(comps[0]);
        let mut out: Vec<EntityId> = Vec::new();
        let mut k: usize = 0;
        while k < driving.len()
            invariant
                self.wf(),
                comps@.len() >= 1,
                forall|j: int| 0 <= j < comps@.len() ==> self.spec_registered(#[trigger] comps@[j]),
                driving@ == self.spec_groups(comps@[0]),
                comps@.len() >= 1,
                k <= driving@.len(),
                out@ == self.query_up_to(comps@, k as int),
            decreases driving@.len() - k,
        {
            let g = driving[k];
            proof {
                assert(self.spec_groups(comps@[0])[k as int] == g);
                assert(g < self.spec_num_archetypes() && self.arch_store.archetypes@[g as int].spec_has(
                    comps@[0],
                ));
            }
            let mut matched = true;
            let mut j: usize = 1;
            while j < comps.len()
                invariant
                    self.wf(),
                    1 <= j <= comps@.len(),
                    forall|jj: int|
                        0 <= jj < comps@.len() ==> self.spec_registered(#[trigger] comps@[jj]),
                    matched == (forall|jj: int|
                        1 <= jj < j ==> self.spec_groups(#[trigger] comps@[jj]).contains(g)),
                decreases comps@.len() - j,
            {
                let ghost was = matched;
                if !self.group_contains(comps[j], g) {
                    matched = false;
                }
                proof {
                    assert forall|jj: int|
                        1 <= jj < j + 1 && matched implies self.spec_groups(
                        #[trigger] comps@[jj],
                    ).contains(g) by {}
                }
                j = j + 1;
            }
            if matched {
                let mut ids = self.arch_store.get_archetype(g).get_entity_ids(&self.entity_store);
                proof {
                    assert(self.group_matches(g, comps@));
                }
                out.append(&mut ids);
            } else {
                proof {
                    let jj = choose|jj: int|
                        1 <= jj < comps@.len() && !self.spec_groups(#[trigger] comps@[jj]).contains(
                            g,
                        );
                    assert(!self.group_matches(g, comps@));
                }
            }
            k = k + 1;
        }
        out
    }


    /// Query, for every live record holding all requested components, the
    /// record's id and its value bytes for each requested component, in the
    /// same order as `query`.
    pub fn query_values(&self, comps: &Vec<ComponentId>) -> (r: Vec<(EntityId, Vec<Vec<u8>>)>)
        requires
            self.wf(),
            comps@.len() >= 1,
            forall|j: int| 0 <= j < comps@.len() ==> self.spec_registered(#[trigger] comps@[j]),
        ensures
            r@.len() == self.spec_query(comps@).len(),
            forall|i: int|
                0 <= i < r@.len() ==> (#[trigger] r@[i]).0 == self.spec_query(comps@)[i]
                    && r@[i].1@.len() == comps@.len(),
            forall|i: int, j: int|
                0 <= i < r@.len() && 0 <= j < comps@.len() ==> (#[trigger] r@[i].1@[j])@
                    == self.spec_value(self.spec_query(comps@)[i], comps@[j]),
    {
        let ids = self.query(comps);
        let mut out: Vec<(EntityId, Vec<Vec<u8>>)> = Vec::new();
        let mut i: usize = 0;
        while i < ids.len()
            invariant
                self.wf(),
                comps@.len() >= 1,
                forall|j: int| 0 <= j < comps@.len() ==> self.spec_registered(#[trigger] comps@[j]),
                ids@ == self.spec_query(comps@),
                i <= ids@.len(),
                out@.len() == i,
                forall|x: int|
                    0 <= x < i ==> (#[trigger] out@[x]).0 == ids@[x] && out@[x].1@.len()
                        == comps@.len(),
                forall|x: int, j: int|
                    0 <= x < i && 0 <= j < comps@.len() ==> (#[trigger] out@[x].1@[j])@
                        == self.spec_value(ids@[x], comps@[j]),
            decreases ids@.len() - i,
        {
            let id = ids[i];
            proof {
                assert(ids@.contains(id));
                crate::laws::lemma_query_exact(*self, comps@, id);
            }
            let mut row: Vec<Vec<u8>> = Vec::new();
            let mut j: usize = 0;
            while j < comps.len()
                invariant
                    self.wf(),
                    forall|jj: int|
                        0 <= jj < comps@.len() ==> self.spec_registered(#[trigger] comps@[jj]),
                    id < self.spec_num_slots(),
                    self.spec_is_alive(id),
                    forall|jj: int|
                        0 <= jj < comps@.len() ==> self.spec_has_component(
                            id,
                            #[trigger] comps@[jj],
                        ),
                    j <= comps@.len(),
                    row@.len() == j,
                    forall|jj: int|
                        0 <= jj < j ==> (#[trigger] row@[jj])@ == self.spec_value(id, comps@[jj]),
                decreases comps@.len() - j,
            {
                let v = self.get_component(id, comps[j]);
                row.push(v);
                j = j + 1;
            }
            out.push((id, row));
            i = i + 1;
        }
        out
    }

    /// Kills an entity without releasing its id, so `is_alive` stays accurate
    /// for it until `free_id`. Killing an already-dead entity is a no-op.
    pub fn kill_and_keep(&mut self, ent_id: EntityId)
        requires
            old(self).wf(),
            ent_id < old(self).spec_num_slots(),
        ensures
            final(self).wf(),
            !final(self).spec_is_alive(ent_id),
            forall|e: EntityId|
                final(self).spec_is_alive(e) == (old(self).spec_is_alive(e) && e != ent_id),
            final(self).registry == old(self).registry,
            final(self).entity_store.entities@ == old(self).entity_store.entities@,
            final(self).entity_store.flags@ == old(self).entity_store.flags@,
            final(self).entity_store.available_ids@ == old(self).entity_store.available_ids@,
            final(self).entity_store.next_id == old(self).entity_store.next_id,
            final(self).spec_num_archetypes() == old(self).spec_num_archetypes(),
            forall|e: EntityId, c: ComponentId|
                e < old(self).spec_num_slots() ==> final(self).spec_value(e, c) == old(self).spec_value(e, c) && final(self).spec_comps_of(e) == old(self).spec_comps_of(e),
            old(self).spec_has_room() ==> final(self).spec_has_room(),
            old(self).spec_is_alive(ent_id) ==> {
                &&& final(self).arch_store.archetypes@[old(self).spec_arch_of(
                    ent_id,
                ) as int].available_rows@ == old(self).arch_store.archetypes@[old(self).spec_arch_of(ent_id) as int].available_rows@.push(old(self).spec_row_of(ent_id))
                &&& final(self).arch_store.archetypes@[old(self).spec_arch_of(
                    ent_id,
                ) as int].entities@ == old(self).arch_store.archetypes@[old(self).spec_arch_of(ent_id) as int].entities@.update(old(self).spec_row_of(ent_id) as int, None)
                &&& final(self).arch_store.archetypes@[old(self).spec_arch_of(
                    ent_id,
                ) as int].columns@ == old(self).arch_store.archetypes@[old(self).spec_arch_of(ent_id) as int].columns@
                &&& forall|a: int|
                    0 <= a < old(self).spec_num_archetypes() && a != old(self).spec_arch_of(ent_id)
                        ==> #[trigger] final(self).arch_store.archetypes@[a] == old(self).arch_store.archetypes@[a]
                &&& final(self).spec_entity_count() == old(self).spec_entity_count() - 1
            },
            !old(self).spec_is_alive(ent_id) ==> *final(self) == *old(self),
    {
        if !self.entity_store.is_alive(ent_id) {
            return ;
        }
        let ent = self.entity_store.entities[ent_id as usize];
        proof {
            assert(ent == self.spec_loc(ent_id));
            assert(self.spec_arch_of(ent_id) < self.spec_num_archetypes());
            assert(self.arch_store.archetypes@[ent.arch_id as int].entities@[ent.arch_row as int]
                == Some(ent_id));
        }
        self.arch_store.remove_entity(&ent);
        self.entity_store.kill_and_keep(ent_id);
        proof {
            let pre = *old(self);
            let post = *self;
            let ta = pre.spec_arch_of(ent_id) as int;
            let tr = pre.spec_row_of(ent_id) as int;
            // locations still index real rows
            assert forall|e: EntityId|
                0 <= e < post.spec_num_slots() implies (#[trigger] post.spec_arch_of(e))
                < post.spec_num_archetypes() && post.spec_row_of(e)
                < post.arch_store.archetypes@[post.spec_arch_of(e) as int].entities@.len() by {
                assert(post.spec_loc(e) == pre.spec_loc(e));
                assert(pre.spec_arch_of(e) < pre.spec_num_archetypes());
                let a = pre.spec_arch_of(e) as int;
                if a != ta {
                    assert(post.arch_store.archetypes@[a] == pre.arch_store.archetypes@[a]);
                }
            }
            // live entities still point back
            assert forall|e: EntityId|
                0 <= e < post.spec_num_slots() && post.spec_is_alive(e)
                    implies #[trigger] post.arch_store.archetypes@[post.spec_arch_of(
                e,
            ) as int].entities@[post.spec_row_of(e) as int] == Some(e) by {
                assert(pre.spec_is_alive(e) && e != ent_id);
                assert(post.spec_loc(e) == pre.spec_loc(e));
                assert(pre.arch_store.archetypes@[pre.spec_arch_of(
                    e,
                ) as int].entities@[pre.spec_row_of(e) as int] == Some(e));
                let a = pre.spec_arch_of(e) as int;
                let r = pre.spec_row_of(e) as int;
                if a == ta {
                    assert(pre.arch_store.archetypes@[ta].entities@[tr] == Some(ent_id));
                    assert(r != tr);
                } else {
                    assert(post.arch_store.archetypes@[a] == pre.arch_store.archetypes@[a]);
                }
            }
            // occupied rows still hold live entities located there
            assert forall|a: int, r: int|
                0 <= a < post.spec_num_archetypes() && 0 <= r
                    < post.arch_store.archetypes@[a].entities@.len() && (
            #[trigger] post.arch_store.archetypes@[a].entities@[r]) is Some implies {
                let id = post.arch_store.archetypes@[a].entities@[r]->Some_0;
                &&& id < post.spec_num_slots()
                &&& post.spec_is_alive(id)
                &&& post.spec_arch_of(id) == a
                &&& post.spec_row_of(id) == r
            } by {
                if a != ta {
                    assert(post.arch_store.archetypes@[a] == pre.arch_store.archetypes@[a]);
                } else {
                    assert(r != tr);
                    assert(post.arch_store.archetypes@[a].entities@[r]
                        == pre.arch_store.archetypes@[a].entities@[r]);
                }
                assert(pre.arch_store.archetypes@[a].entities@[r] is Some);
                let id = pre.arch_store.archetypes@[a].entities@[r]->Some_0;
                assert(pre.spec_is_alive(id));
                assert(pre.spec_arch_of(id) == a && pre.spec_row_of(id) == r);
                assert(id != ent_id);
                assert(post.spec_loc(id) == pre.spec_loc(id));
            }
            // member lists and column sizes untouched
            assert forall|a: int|
                0 <= a < pre.spec_num_archetypes() implies (
            #[trigger] post.arch_store.archetypes@[a]).comp_ids@
                == pre.arch_store.archetypes@[a].comp_ids@ && post.arch_store.archetypes@[a].columns@
                == pre.arch_store.archetypes@[a].columns@ by {
                if a != ta {
                    assert(post.arch_store.archetypes@[a] == pre.arch_store.archetypes@[a]);
                }
            }
            World::lemma_wf_arch_frame(pre, post);
            // values and member sets are untouched
            assert forall|e: EntityId, c: ComponentId|
                e < pre.spec_num_slots() implies post.spec_value(e, c) == pre.spec_value(e, c)
                && post.spec_comps_of(e) == pre.spec_comps_of(e) by {
                assert(post.spec_loc(e) == pre.spec_loc(e));
                assert(pre.spec_arch_of(e) < pre.spec_num_archetypes());
                let a = pre.spec_arch_of(e) as int;
                crate::archetype::lemma_values_from_columns(
                    pre.arch_store.archetypes@[a],
                    post.arch_store.archetypes@[a],
                );
            }
            pre.entity_store.lemma_live_count_kill(
                post.entity_store,
                ent_id,
                pre.spec_num_slots(),
            );
        }
    }

    /// Kills an entity and releases its id for reuse; `is_alive` is no longer
    /// accurate for the id once it is reused. Killing an already-dead entity
    /// is a no-op.
    pub fn kill(&mut self, ent_id: EntityId)
        requires
            old(self).wf(),
            ent_id < old(self).spec_num_slots(),
        ensures
            final(self).wf(),
            !final(self).spec_is_alive(ent_id),
            forall|e: EntityId|
                final(self).spec_is_alive(e) == (old(self).spec_is_alive(e) && e != ent_id),
            final(self).registry == old(self).registry,
            final(self).entity_store.entities@ == old(self).entity_store.entities@,
            final(self).entity_store.flags@ == old(self).entity_store.flags@,
            final(self).entity_store.next_id == old(self).entity_store.next_id,
            final(self).spec_num_archetypes() == old(self).spec_num_archetypes(),
            forall|e: EntityId, c: ComponentId|
                e < old(self).spec_num_slots() ==> final(self).spec_value(e, c) == old(self).spec_value(e, c) && final(self).spec_comps_of(e) == old(self).spec_comps_of(e),
            old(self).spec_has_room() ==> final(self).spec_has_room(),
            old(self).spec_is_alive(ent_id) ==> {
                &&& final(self).spec_free_ids() == old(self).spec_free_ids().push(ent_id)
                &&& final(self).arch_store.archetypes@[old(self).spec_arch_of(
                    ent_id,
                ) as int].available_rows@ == old(self).arch_store.archetypes@[old(self).spec_arch_of(ent_id) as int].available_rows@.push(old(self).spec_row_of(ent_id))
                &&& final(self).arch_store.archetypes@[old(self).spec_arch_of(
                    ent_id,
                ) as int].entities@ == old(self).arch_store.archetypes@[old(self).spec_arch_of(ent_id) as int].entities@.update(old(self).spec_row_of(ent_id) as int, None)
                &&& final(self).arch_store.archetypes@[old(self).spec_arch_of(
                    ent_id,
                ) as int].columns@ == old(self).arch_store.archetypes@[old(self).spec_arch_of(ent_id) as int].columns@
                &&& forall|a: int|
                    0 <= a < old(self).spec_num_archetypes() && a != old(self).spec_arch_of(ent_id)
                        ==> #[trigger] final(self).arch_store.archetypes@[a] == old(self).arch_store.archetypes@[a]
                &&& final(self).spec_entity_count() == old(self).spec_entity_count() - 1
            },
            !old(self).spec_is_alive(ent_id) ==> *final(self) == *old(self),
    {
        if !self.entity_store.is_alive(ent_id) {
            return ;
        }
        self.kill_and_keep(ent_id);
        proof {
            if self.spec_free_ids().contains(ent_id) {
                let k = choose|k: int|
                    0 <= k < self.entity_store.available_ids@.len()
                        && self.entity_store.available_ids@[k] == ent_id;
                assert(!self.entity_store.spec_is_alive(self.entity_store.available_ids@[k]));
            }
        }
        let ghost mid = *self;
        self.free_id(ent_id);
        proof {
            mid.entity_store.lemma_live_count_same(
                self.entity_store,
                mid.spec_num_slots(),
            );
        }
    }

    /// Overwrites an entity's component value in place.
    pub fn set_component(&mut self, entity: EntityId, comp: ComponentId, value: Vec<u8>)
        requires
            old(self).wf(),
            entity < old(self).spec_num_slots(),
            old(self).spec_is_alive(entity),
            old(self).spec_has_component(entity, comp),
            value@.len() == old(self).spec_size_of(comp),
        ensures
            final(self).wf(),
            final(self).spec_value(entity, comp) == value@,
            final(self).registry == old(self).registry,
            final(self).entity_store == old(self).entity_store,
            final(self).spec_num_archetypes() == old(self).spec_num_archetypes(),
            forall|e: EntityId|
                e < old(self).spec_num_slots() ==> final(self).spec_comps_of(e) == old(self).spec_comps_of(e),
            forall|a: int|
                0 <= a < old(self).spec_num_archetypes() ==> (
                #[trigger] final(self).arch_store.archetypes@[a]).entities@ == old(self).arch_store.archetypes@[a].entities@ && final(self).arch_store.archetypes@[a].available_rows@ == old(self).arch_store.archetypes@[a].available_rows@,
            forall|a: int|
                0 <= a < old(self).spec_num_archetypes() && a != old(self).spec_arch_of(entity)
                    ==> #[trigger] final(self).arch_store.archetypes@[a] == old(self).arch_store.archetypes@[a],
            forall|a: int, j: int|
                0 <= a < old(self).spec_num_archetypes() && 0 <= j
                    < old(self).arch_store.archetypes@[a].columns@.len()
                    ==> (#[trigger] final(self).arch_store.archetypes@[a].columns@[j]).size
                    == old(self).arch_store.archetypes@[a].columns@[j].size
                    && final(self).arch_store.archetypes@[a].columns@[j].bytes@.len()
                    == old(self).arch_store.archetypes@[a].columns@[j].bytes@.len(),
            old(self).spec_has_room() ==> final(self).spec_has_room(),
            forall|e: EntityId, c: ComponentId|
                e < old(self).spec_num_slots() && old(self).spec_is_alive(e) && old(self).spec_has_component(e, c) && !(e == entity && c == comp) ==> final(self).spec_value(e, c) == old(self).spec_value(e, c),
    {
        let ent = self.entity_store.entities[entity as usize];
        proof {
            assert(ent == self.spec_loc(entity));
            assert(self.spec_arch_of(entity) < self.spec_num_archetypes());
            let ta = ent.arch_id as int;
            let arch = self.arch_store.archetypes@[ta];
            assert(arch.wf());
            lemma_index_of_id(arch.comp_ids@, comp);
            let j = index_of_id(arch.comp_ids@, comp);
            assert(arch.comp_ids@[j] == comp);
            assert(arch.columns@[j].size == self.spec_size_of(comp));
            assert(arch.spec_size_of(comp) == self.spec_size_of(comp));
        }
        let a = &mut self.arch_store.archetypes[ent.arch_id as usize];
        a.set_component(ent.arch_row, comp, &value);
        proof {
            let pre = *old(self);
            let post = *self;
            let ta = pre.spec_arch_of(entity) as int;
            let tr = pre.spec_row_of(entity) as int;
            assert forall|a2: int|
                0 <= a2 < pre.spec_num_archetypes() implies (
            #[trigger] post.arch_store.archetypes@[a2]).entities@
                == pre.arch_store.archetypes@[a2].entities@
                && post.arch_store.archetypes@[a2].available_rows@
                == pre.arch_store.archetypes@[a2].available_rows@
                && post.arch_store.archetypes@[a2].comp_ids@
                == pre.arch_store.archetypes@[a2].comp_ids@
                && post.arch_store.archetypes@[a2].columns@.len()
                == pre.arch_store.archetypes@[a2].columns@.len() by {
                if a2 != ta {
                    assert(post.arch_store.archetypes@[a2] == pre.arch_store.archetypes@[a2]);
                }
            }
            assert forall|a2: int, j: int|
                0 <= a2 < pre.spec_num_archetypes() && 0 <= j
                    < pre.arch_store.archetypes@[a2].columns@.len()
                    implies (#[trigger] post.arch_store.archetypes@[a2].columns@[j]).size
                    == pre.arch_store.archetypes@[a2].columns@[j].size by {
                if a2 != ta {
                    assert(post.arch_store.archetypes@[a2] == pre.arch_store.archetypes@[a2]);
                }
            }
            // the archetype store is still well-formed
            assert forall|a1: int, a2: int|
                0 <= a1 < post.spec_num_archetypes() && 0 <= a2 < post.spec_num_archetypes() && a1
                    != a2 implies post.arch_store.archetypes@[a1].comp_ids@
                != post.arch_store.archetypes@[a2].comp_ids@ by {
                assert(post.arch_store.archetypes@[a1].comp_ids@
                    == pre.arch_store.archetypes@[a1].comp_ids@);
                assert(post.arch_store.archetypes@[a2].comp_ids@
                    == pre.arch_store.archetypes@[a2].comp_ids@);
            }
            assert forall|a2: int|
                0 <= a2 < post.spec_num_archetypes() implies (
            #[trigger] post.arch_store.archetypes@[a2]).wf() by {
                if a2 != ta {
                    assert(post.arch_store.archetypes@[a2] == pre.arch_store.archetypes@[a2]);
                }
            }
            World::lemma_wf_stores_frame(pre, post);
            World::lemma_wf_arch_frame(pre, post);
            // untouched values stay
            assert forall|e: EntityId, c: ComponentId|
                e < pre.spec_num_slots() && pre.spec_is_alive(e) && pre.spec_has_component(e, c)
                    && !(e == entity && c == comp) implies post.spec_value(e, c) == pre.spec_value(
                e,
                c,
            ) by {
                assert(post.spec_loc(e) == pre.spec_loc(e));
                assert(pre.spec_arch_of(e) < pre.spec_num_archetypes());
                let a2 = pre.spec_arch_of(e) as int;
                if a2 != ta {
                    assert(post.arch_store.archetypes@[a2] == pre.arch_store.archetypes@[a2]);
                } else {
                    let r = pre.spec_row_of(e) as int;
                    if e != entity {
                        assert(pre.arch_store.archetypes@[ta].entities@[r] == Some(e));
                        assert(pre.arch_store.archetypes@[ta].entities@[tr] == Some(entity));
                        assert(r != tr);
                    }
                }
            }
            // member sets are untouched
            assert forall|e: EntityId|
                e < pre.spec_num_slots() implies post.spec_comps_of(e) == pre.spec_comps_of(
                e,
            ) by {
                assert(post.spec_loc(e) == pre.spec_loc(e));
                assert(pre.spec_arch_of(e) < pre.spec_num_archetypes());
            }
        }
    }

    /// Returns whether the entity has the specified flag set.
    pub fn has_flag(&self, entity: EntityId, flag: FlagId) -> (r: bool)
        ensures
            r == self.spec_has_flag(entity, flag),
    {
        self.entity_store.has_flag(entity, flag)
    }

    /// Sets a flag for an entity. Flags are independent of component storage.
    pub fn set_flag(&mut self, entity: EntityId, flag: FlagId)
        requires
            old(self).wf(),
        ensures
            final(self).wf(),
            final(self).arch_store == old(self).arch_store,
            final(self).registry == old(self).registry,
            final(self).entity_store.entities@ == old(self).entity_store.entities@,
            final(self).entity_store.dead@ == old(self).entity_store.dead@,
            final(self).entity_store.available_ids@ == old(self).entity_store.available_ids@,
            final(self).entity_store.next_id == old(self).entity_store.next_id,
            forall|e: EntityId, f: FlagId|
                final(self).spec_has_flag(e, f) == ((e == entity && f == flag) || old(self).spec_has_flag(e, f)),
    {
        self.entity_store.set_flag(entity, flag);
        proof {
            World::lemma_wf_es_frame(*old(self), *self);
        }
    }

    /// Removes a flag from an entity.
    pub fn unset_flag(&mut self, entity: EntityId, flag: FlagId)
        requires
            old(self).wf(),
        ensures
            final(self).wf(),
            final(self).arch_store == old(self).arch_store,
            final(self).registry == old(self).registry,
            final(self).entity_store.entities@ == old(self).entity_store.entities@,
            final(self).entity_store.dead@ == old(self).entity_store.dead@,
            final(self).entity_store.available_ids@ == old(self).entity_store.available_ids@,
            final(self).entity_store.next_id == old(self).entity_store.next_id,
            forall|e: EntityId, f: FlagId|
                final(self).spec_has_flag(e, f) == (!(e == entity && f == flag) && old(self).spec_has_flag(e, f)),
    {
        self.entity_store.unset_flag(entity, flag);
        proof {
            World::lemma_wf_es_frame(*old(self), *self);
        }
    }

    /// Check whether an entity's archetype contains the given component.
    pub fn has_component(&self, entity: EntityId, comp: ComponentId) -> (r: bool)
        requires
            self.wf(),
            entity < self.spec_num_slots(),
        ensures
            r == self.spec_has_component(entity, comp),
    {
        let ent = self.entity_store.entities[entity as usize];
        proof {
            assert(ent == self.spec_loc(entity));
            assert(self.spec_arch_of(entity) < self.spec_num_archetypes());
            assert(self.arch_store.archetypes@[ent.arch_id as int].wf());
        }
        self.arch_store.get_archetype(ent.arch_id).has_component(comp)
    }

    /// Returns the bytes of component `comp` for entity `entity` (empty for
    /// a zero-sized marker component).
    pub fn get_component(&self, entity: EntityId, comp: ComponentId) -> (r: Vec<u8>)
        requires
            self.wf(),
            entity < self.spec_num_slots(),
            self.spec_is_alive(entity),
            self.spec_has_component(entity, comp),
        ensures
            r@ == self.spec_value(entity, comp),
    {
        let ent = self.entity_store.entities[entity as usize];
        proof {
            assert(ent == self.spec_loc(entity));
            assert(self.spec_arch_of(entity) < self.spec_num_archetypes());
            assert(self.arch_store.archetypes@[ent.arch_id as int].wf());
            assert(self.arch_store.archetypes@[ent.arch_id as int].entities@[ent.arch_row as int]
                == Some(entity));
        }
        self.arch_store.get_archetype(ent.arch_id).get_component(ent.arch_row, comp)
    }

    /// Query all entity ids, in ascending id order.
    pub fn query_ids(&self) -> (r: Vec<EntityId>)
        requires
            self.wf(),
        ensures
            r@ == self.spec_live_ids(),
    {
        let mut out: Vec<EntityId> = Vec::new();
        let mut i: usize = 0;
        let n = self.entity_store.entities.len();
        while i < n
            invariant
                i <= n,
                n == self.entity_store.entities@.len(),
                n <= EntityId::MAX,
                out@ == self.entity_store.live_ids_up_to(i as int),
            decreases n - i,
        {
            if self.entity_store.is_alive(i as u32) {
                out.push(i as u32);
            }
            i = i + 1;
        }
        out
    }

    pub fn query_ids0(&self) -> (r: Vec<EntityId>)
        requires
            self.wf(),
        ensures
            r@ == self.spec_live_ids(),
    {
        self.query_ids()
    }
}

} // verus!
