//! The record store: allocates and reuses entity ids, tracks per-entity
//! liveness in a dead-bitmap (absence means alive), maps each entity to its
//! current (archetype, row) location, and keeps an independent bitmap table
//! for boolean flags.

use vstd::prelude::*;
use crate::bits::{bitmap_bit, bitmap_clear, bitmap_get, bitmap_set};
use crate::arch_store::ArchetypeId;
use crate::archetype::ArchRowId;
use crate::component::FlagId;

verus! {

pub type EntityId = u32;

/// Where a record currently lives: its archetype and the row inside it.
#[derive(Clone, Copy)]
pub struct Entity {
    pub arch_id: ArchetypeId,
    pub arch_row: ArchRowId,
}

pub struct EntityStore {
    /// The next id handed out when the free list is empty.
    pub next_id: EntityId,
    /// Dead bitmap: a set bit marks a killed entity; absent bits mean alive.
    pub dead: Vec<u8>,
    /// Location of each entity ever spawned, indexed by entity id.
    pub entities: Vec<Entity>,
    /// One bitmap per flag id, each indexed by entity id.
    pub flags: Vec<Vec<u8>>,
    /// Killed-and-freed ids, available for reuse.
    pub available_ids: Vec<EntityId>,
}

impl EntityStore {
    /// An entity is alive unless its dead bit is set; ids never touched are
    /// alive by default.
    pub open spec fn spec_is_alive(self, ent: EntityId) -> bool {
        !bitmap_bit(self.dead@, ent)
    }

    /// Whether flag `flag` is set for entity `ent`.
    pub open spec fn spec_has_flag(self, ent: EntityId, flag: FlagId) -> bool {
        flag < self.flags@.len() && bitmap_bit(self.flags@[flag as int]@, ent)
    }

    /// Ids on the free list are dead, below the allocation watermark, and
    /// listed once; the location table never outgrows the watermark.
    pub open spec fn wf(self) -> bool {
        &&& self.available_ids@.no_duplicates()
        &&& forall|k: int|
            0 <= k < self.available_ids@.len() ==> !self.spec_is_alive(
                #[trigger] self.available_ids@[k],
            ) && self.available_ids@[k] < self.next_id
        &&& self.entities@.len() <= self.next_id
    }

    /// How many of the entities with an id below `n` are alive.
    pub open spec fn live_count_up_to(self, n: int) -> int
        decreases n,
    {
        if n <= 0 {
            0
        } else {
            self.live_count_up_to(n - 1) + if self.spec_is_alive((n - 1) as u32) {
                1int
            } else {
                0int
            }
        }
    }

    /// The alive ids below `n`, in ascending order.
    pub open spec fn live_ids_up_to(self, n: int) -> Seq<EntityId>
        decreases n,
    {
        if n <= 0 {
            Seq::<EntityId>::empty()
        } else if self.spec_is_alive((n - 1) as u32) {
            self.live_ids_up_to(n - 1).push((n - 1) as u32)
        } else {
            self.live_ids_up_to(n - 1)
        }
    }

    /// Two stores that agree on liveness below `n` count the same.
    pub proof fn lemma_live_count_same(self, other: EntityStore, n: int)
        requires
            forall|e: EntityId| e < n ==> self.spec_is_alive(e) == other.spec_is_alive(e),
        ensures
            self.live_count_up_to(n) == other.live_count_up_to(n),
        decreases n,
    {
        if n > 0 {
            self.lemma_live_count_same(other, n - 1);
        }
    }

    /// Two stores that agree on liveness below `n` list the same live ids.
    pub proof fn lemma_live_ids_same(self, other: EntityStore, n: int)
        requires
            forall|e: EntityId| e < n ==> self.spec_is_alive(e) == other.spec_is_alive(e),
        ensures
            self.live_ids_up_to(n) == other.live_ids_up_to(n),
        decreases n,
    {
        if n > 0 {
            self.lemma_live_ids_same(other, n - 1);
        }
    }

    /// Killing one live entity lowers the live count below `n` by one when
    /// the entity lies below `n`.
    pub proof fn lemma_live_count_kill(self, other: EntityStore, ent: EntityId, n: int)
        requires
            n <= EntityId::MAX + 1,
            self.spec_is_alive(ent),
            forall|e: EntityId|
                other.spec_is_alive(e) == (self.spec_is_alive(e) && e != ent),
        ensures
            ent < n ==> other.live_count_up_to(n) == self.live_count_up_to(n) - 1,
            ent >= n ==> other.live_count_up_to(n) == self.live_count_up_to(n),
        decreases n,
    {
        if n > 0 {
            self.lemma_live_count_kill(other, ent, n - 1);
        }
    }

    /// Reviving one dead entity raises the live count below `n` by one when
    /// the entity lies below `n`.
    pub proof fn lemma_live_count_revive(self, other: EntityStore, ent: EntityId, n: int)
        requires
            n <= EntityId::MAX + 1,
            !self.spec_is_alive(ent),
            forall|e: EntityId| other.spec_is_alive(e) == (e == ent || self.spec_is_alive(e)),
        ensures
            ent < n ==> other.live_count_up_to(n) == self.live_count_up_to(n) + 1,
            ent >= n ==> other.live_count_up_to(n) == self.live_count_up_to(n),
        decreases n,
    {
        if n > 0 {
            self.lemma_live_count_revive(other, ent, n - 1);
        }
    }

    /// The live-id list below `n` holds exactly the live ids below `n`.
    pub proof fn lemma_live_ids_char(self, n: int, ent: EntityId)
        requires
            n <= EntityId::MAX + 1,
        ensures
            self.live_ids_up_to(n).contains(ent) <==> (ent < n && self.spec_is_alive(ent)),
        decreases n,
    {
        if n > 0 {
            self.lemma_live_ids_char(n - 1, ent);
            let rest = self.live_ids_up_to(n - 1);
            let s = self.live_ids_up_to(n);
            if self.spec_is_alive((n - 1) as u32) {
                assert(s == rest.push((n - 1) as u32));
                if ent < n && self.spec_is_alive(ent) {
                    if ent == n - 1 {
                        assert(s[s.len() - 1] == ent);
                    } else {
                        let k = choose|k: int| 0 <= k < rest.len() && rest[k] == ent;
                        assert(s[k] == ent);
                    }
                }
                if s.contains(ent) && !(ent < n && self.spec_is_alive(ent)) {
                    let k = choose|k: int| 0 <= k < s.len() && s[k] == ent;
                    if k < rest.len() {
                        assert(rest[k] == ent);
                    } else {
                        assert(ent == (n - 1) as u32);
                    }
                }
            }
        }
    }

    pub fn new() -> (r: Self)
        ensures
            r.wf(),
            r.next_id == 0,
            r.entities@.len() == 0,
            r.available_ids@ =~= Seq::<EntityId>::empty(),
            forall|e: EntityId| r.spec_is_alive(e),
            forall|e: EntityId, f: FlagId| !r.spec_has_flag(e, f),
    {
        EntityStore {
            next_id: 0,
            dead: Vec::new(),
            entities: Vec::new(),
            flags: Vec::new(),
            available_ids: Vec::new(),
        }
    }

    /// Hands out an entity id: the most recently freed one if any, else the
    /// next fresh id.
    pub fn new_id(&mut self) -> (ent: EntityId)
        requires
            old(self).wf(),
            old(self).available_ids@.len() > 0 || old(self).next_id < EntityId::MAX,
        ensures
            final(self).wf(),
            final(self).dead@ == old(self).dead@,
            final(self).entities@ == old(self).entities@,
            final(self).flags@ == old(self).flags@,
            ent < final(self).next_id,
            !final(self).available_ids@.contains(ent),
            old(self).available_ids@.len() > 0 ==> {
                &&& ent == old(self).available_ids@.last()
                &&& final(self).available_ids@ == old(self).available_ids@.drop_last()
                &&& final(self).next_id == old(self).next_id
                &&& !old(self).spec_is_alive(ent)
            },
            old(self).available_ids@.len() == 0 ==> {
                &&& ent == old(self).next_id
                &&& final(self).next_id == old(self).next_id + 1
                &&& final(self).available_ids@ == old(self).available_ids@
            },
    {
        let popped = self.available_ids.pop();
        match popped {
            Some(id) => {
                proof {
                    assert(old(self).available_ids@.len() > 0);
                    let pre = old(self).available_ids@;
                    assert(pre.last() == pre[pre.len() - 1]);
                    assert forall|k: int|
                        0 <= k < self.available_ids@.len() implies self.available_ids@[k] != id by {
                        assert(pre[k] == self.available_ids@[k]);
                        assert(pre[pre.len() - 1] == id);
                    }
                }
                id
            },
            None => {
                let id = self.next_id;
                self.next_id = self.next_id + 1;
                id
            },
        }
    }

    /// Records (or overwrites) the location of `ent_id` and marks it alive.
    pub fn spawn_with_id(&mut self, ent_id: EntityId, arch_id: ArchetypeId, arch_row: ArchRowId)
        requires
            old(self).wf(),
            ent_id <= old(self).entities@.len(),
            ent_id < old(self).next_id,
            !old(self).available_ids@.contains(ent_id),
        ensures
            final(self).wf(),
            final(self).flags@ == old(self).flags@,
            final(self).available_ids@ == old(self).available_ids@,
            final(self).next_id == old(self).next_id,
            ent_id < old(self).entities@.len() ==> final(self).entities@ == old(
                self,
            ).entities@.update(ent_id as int, Entity { arch_id, arch_row }),
            ent_id == old(self).entities@.len() ==> final(self).entities@ == old(
                self,
            ).entities@.push(Entity { arch_id, arch_row }),
            forall|e: EntityId|
                final(self).spec_is_alive(e) == (e == ent_id || old(self).spec_is_alive(e)),
    {
        let loc = Entity { arch_id, arch_row };
        let idx = ent_id as usize;
        if idx < self.entities.len() {
            self.entities[idx] = loc;
        } else {
            self.entities.push(loc);
        }
        bitmap_clear(&mut self.dead, ent_id);
        proof {
            assert forall|k: int|
                0 <= k < self.available_ids@.len() implies !self.spec_is_alive(
                #[trigger] self.available_ids@[k],
            ) && self.available_ids@[k] < self.next_id by {
                assert(self.available_ids@[k] != ent_id);
                assert(!old(self).spec_is_alive(self.available_ids@[k]));
            }
        }
    }

    /// Marks an entity as dead without releasing its id.
    pub fn kill_and_keep(&mut self, ent: EntityId)
        requires
            old(self).wf(),
        ensures
            final(self).wf(),
            final(self).entities@ == old(self).entities@,
            final(self).flags@ == old(self).flags@,
            final(self).available_ids@ == old(self).available_ids@,
            final(self).next_id == old(self).next_id,
            forall|e: EntityId|
                final(self).spec_is_alive(e) == (old(self).spec_is_alive(e) && e != ent),
    {
        bitmap_set(&mut self.dead, ent);
    }

    /// Marks an entity as dead and releases its id for reuse.
    pub fn kill(&mut self, ent: EntityId)
        requires
            old(self).wf(),
            old(self).spec_is_alive(ent),
            ent < old(self).next_id,
        ensures
            final(self).wf(),
            final(self).entities@ == old(self).entities@,
            final(self).flags@ == old(self).flags@,
            final(self).next_id == old(self).next_id,
            final(self).available_ids@ == old(self).available_ids@.push(ent),
            forall|e: EntityId|
                final(self).spec_is_alive(e) == (old(self).spec_is_alive(e) && e != ent),
    {
        proof {
            if self.available_ids@.contains(ent) {
                let k = choose|k: int|
                    0 <= k < self.available_ids@.len() && self.available_ids@[k] == ent;
                assert(!self.spec_is_alive(ent));
            }
        }
        self.kill_and_keep(ent);
        self.free_id(ent);
    }

    /// Releases a dead entity's id for reuse.
    pub fn free_id(&mut self, ent: EntityId)
        requires
            old(self).wf(),
            !old(self).spec_is_alive(ent),
            !old(self).available_ids@.contains(ent),
            ent < old(self).next_id,
        ensures
            final(self).wf(),
            final(self).entities@ == old(self).entities@,
            final(self).flags@ == old(self).flags@,
            final(self).dead@ == old(self).dead@,
            final(self).next_id == old(self).next_id,
            final(self).available_ids@ == old(self).available_ids@.push(ent),
    {
        self.available_ids.push(ent);
        proof {
            let post = self.available_ids@;
            let pre = old(self).available_ids@;
            assert forall|i: int, j: int|
                0 <= i < post.len() && 0 <= j < post.len() && i != j implies post[i] != post[j] by {
                if i < pre.len() && j < pre.len() {
                    assert(pre[i] == post[i] && pre[j] == post[j]);
                } else if i < pre.len() {
                    assert(pre.contains(pre[i]));
                } else if j < pre.len() {
                    assert(pre.contains(pre[j]));
                }
            }
        }
    }

    /// Whether the entity is alive. Only accurate while a killed id has not
    /// been reused; `kill_and_keep` keeps it accurate until `free_id`.
    pub fn is_alive(&self, ent: EntityId) -> (r: bool)
        ensures
            r == self.spec_is_alive(ent),
    {
        !bitmap_get(&self.dead, ent)
    }

    /// How many entities are alive.
    pub fn entity_count(&self) -> (r: usize)
        ensures
            r == self.live_count_up_to(self.entities@.len() as int),
    {
        let mut count: usize = 0;
        let mut i: usize = 0;
        while i < self.entities.len()
            invariant
                i <= self.entities@.len(),
                count == self.live_count_up_to(i as int),
                count <= i,
            decreases self.entities@.len() - i,
        {
            if self.is_alive(i as u32) {
                count = count + 1;
            }
            i = i + 1;
        }
        count
    }

    /// The location table, indexed by entity id.
    pub fn entities(&self) -> (r: &Vec<Entity>)
        ensures
            r == &self.entities,
    {
        &self.entities
    }

    /// Whether flag `flag` is set for entity `ent`.
    pub fn has_flag(&self, ent: EntityId, flag: FlagId) -> (r: bool)
        ensures
            r == self.spec_has_flag(ent, flag),
    {
        if (flag as usize) < self.flags.len() {
            bitmap_get(&self.flags[flag as usize], ent)
        } else {
            false
        }
    }

    /// Sets flag `flag` for entity `ent`, growing the flag table as needed.
    pub fn set_flag(&mut self, ent: EntityId, flag: FlagId)
        ensures
            final(self).dead@ == old(self).dead@,
            final(self).entities@ == old(self).entities@,
            final(self).available_ids@ == old(self).available_ids@,
            final(self).next_id == old(self).next_id,
            forall|e: EntityId, f: FlagId|
                final(self).spec_has_flag(e, f) == ((e == ent && f == flag) || old(
                    self,
                ).spec_has_flag(e, f)),
    {
        let fi = flag as usize;
        while self.flags.len() <= fi
            invariant
                self.dead@ == old(self).dead@,
                self.entities@ == old(self).entities@,
                self.available_ids@ == old(self).available_ids@,
                self.next_id == old(self).next_id,
                forall|e: EntityId, f: FlagId|
                    self.spec_has_flag(e, f) == old(self).spec_has_flag(e, f),
                self.flags@.len() >= old(self).flags@.len(),
            decreases fi + 1 - self.flags@.len(),
        {
            let ghost prev = *self;
            self.flags.push(Vec::new());
            proof {
                assert forall|e: EntityId, f: FlagId|
                    self.spec_has_flag(e, f) == prev.spec_has_flag(e, f) by {
                    if (f as int) < prev.flags@.len() {
                        assert(self.flags@[f as int] == prev.flags@[f as int]);
                    }
                }
            }
        }
        let ghost mid = *self;
        bitmap_set(&mut self.flags[fi], ent);
        proof {
            assert forall|e: EntityId, f: FlagId|
                self.spec_has_flag(e, f) == ((e == ent && f == flag) || mid.spec_has_flag(e, f)) by {
                if f == flag {
                } else {
                    if (f as int) < self.flags@.len() {
                        assert(self.flags@[f as int] == mid.flags@[f as int]);
                    }
                }
            }
        }
    }

    /// Clears flag `flag` for entity `ent`.
    pub fn unset_flag(&mut self, ent: EntityId, flag: FlagId)
        ensures
            final(self).dead@ == old(self).dead@,
            final(self).entities@ == old(self).entities@,
            final(self).available_ids@ == old(self).available_ids@,
            final(self).next_id == old(self).next_id,
            forall|e: EntityId, f: FlagId|
                final(self).spec_has_flag(e, f) == (!(e == ent && f == flag) && old(
                    self,
                ).spec_has_flag(e, f)),
    {
        let fi = flag as usize;
        if fi < self.flags.len() {
            let ghost mid = *self;
            bitmap_clear(&mut self.flags[fi], ent);
            proof {
                assert forall|e: EntityId, f: FlagId|
                    self.spec_has_flag(e, f) == (!(e == ent && f == flag) && mid.spec_has_flag(
                        e,
                        f,
                    )) by {
                    if f != flag && (f as int) < self.flags@.len() {
                        assert(self.flags@[f as int] == mid.flags@[f as int]);
                    }
                }
            }
        }
    }
}

} // verus!
