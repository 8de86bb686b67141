//! The component-type catalog: assigns each component type a stable numeric
//! id, remembers its byte size, and tracks which archetypes contain it (its
//! membership set, in archetype-creation order).

use vstd::prelude::*;
use crate::arch_store::ArchetypeId;

verus! {

pub type ComponentId = u32;

pub type FlagId = u32;

/// One catalog owns registration for a whole engine: component ids are
/// indices into its parallel tables.
pub struct ComponentRegistry {
    /// Caller-chosen stable key identifying each component type.
    pub keys: Vec<u64>,
    /// Byte size of each component type (0 for marker types).
    pub sizes: Vec<usize>,
    /// For each component type, the archetypes that contain it, in the order
    /// those archetypes were created. Append-only.
    pub memberships: Vec<Vec<ArchetypeId>>,
}

impl ComponentRegistry {
    /// How many component types are registered.
    pub open spec fn spec_len(self) -> int {
        self.keys@.len() as int
    }

    pub open spec fn spec_registered(self, comp: ComponentId) -> bool {
        comp < self.spec_len()
    }

    pub open spec fn spec_size(self, comp: ComponentId) -> int {
        self.sizes@[comp as int] as int
    }

    /// The membership set of a component type: which archetypes contain it.
    pub open spec fn spec_groups(self, comp: ComponentId) -> Seq<ArchetypeId> {
        self.memberships@[comp as int]@
    }

    /// Parallel tables have equal lengths and keys are unique.
    pub open spec fn wf(self) -> bool {
        &&& self.sizes@.len() == self.keys@.len()
        &&& self.memberships@.len() == self.keys@.len()
        &&& self.keys@.no_duplicates()
    }

    pub fn new() -> (r: Self)
        ensures
            r.wf(),
            r.spec_len() == 0,
    {
        ComponentRegistry { keys: Vec::new(), sizes: Vec::new(), memberships: Vec::new() }
    }

    pub fn len(&self) -> (r: usize)
        ensures
            r == self.spec_len(),
    {
        self.keys.len()
    }

    /// Registers the component type identified by `key`. The first call
    /// assigns the next unused id; later calls with the same key return the
    /// same id and change nothing.
    pub fn register(&mut self, key: u64, size: usize) -> (comp: ComponentId)
        requires
            old(self).wf(),
            old(self).spec_len() < ComponentId::MAX,
            forall|c: ComponentId|
                old(self).spec_registered(c) && old(self).keys@[c as int] == key ==> old(
                    self,
                ).spec_size(c) == size,
        ensures
            final(self).wf(),
            final(self).spec_registered(comp),
            final(self).keys@[comp as int] == key,
            final(self).spec_size(comp) == size,
            old(self).keys@.contains(key) ==> *final(self) == *old(self),
            !old(self).keys@.contains(key) ==> {
                &&& comp == old(self).spec_len()
                &&& final(self).keys@ == old(self).keys@.push(key)
                &&& final(self).sizes@ == old(self).sizes@.push(size)
                &&& final(self).memberships@.len() == old(self).memberships@.len() + 1
                &&& forall|c: ComponentId|
                    old(self).spec_registered(c) ==> final(self).spec_groups(c) == old(
                        self,
                    ).spec_groups(c) && final(self).spec_size(c) == old(self).spec_size(c)
                        && final(self).keys@[c as int] == old(self).keys@[c as int]
                &&& final(self).spec_groups(comp) =~= Seq::<ArchetypeId>::empty()
            },
    {
        let n = self.keys.len();
        let mut i: usize = 0;
        while i < n
            invariant
                *self == *old(self),
                old(self).wf(),
                forall|c: ComponentId|
                    old(self).spec_registered(c) && old(self).keys@[c as int] == key ==> old(
                        self,
                    ).spec_size(c) == size,
                n == self.keys@.len(),
                n < ComponentId::MAX,
                i <= n,
                forall|k: int| 0 <= k < i ==> self.keys@[k] != key,
            decreases n - i,
        {
            if self.keys[i] == key {
                return i as u32;
            }
            i = i + 1;
        }
        self.keys.push(key);
        self.sizes.push(size);
        self.memberships.push(Vec::new());
        proof {
            assert(!old(self).keys@.contains(key));
            let post = self.keys@;
            let pre = old(self).keys@;
            assert forall|p: int, q: int|
                0 <= p < post.len() && 0 <= q < post.len() && p != q implies post[p] != post[q] by {
                if p < pre.len() && q < pre.len() {
                    assert(pre[p] == post[p] && pre[q] == post[q]);
                } else if p < pre.len() {
                    assert(pre[p] != key);
                } else if q < pre.len() {
                    assert(pre[q] != key);
                }
            }
        }
        n as u32
    }

    /// The byte size of a registered component type.
    pub fn size_of(&self, comp: ComponentId) -> (r: usize)
        requires
            self.wf(),
            self.spec_registered(comp),
        ensures
            r == self.spec_size(comp),
    {
        self.sizes[comp as usize]
    }

    /// A copy of the membership set of a component type.
    pub fn member_groups(&self, comp: ComponentId) -> (r: Vec<ArchetypeId>)
        requires
            self.wf(),
            self.spec_registered(comp),
        ensures
            r@ == self.spec_groups(comp),
    {
        let src = &self.memberships[comp as usize];
        let mut r: Vec<ArchetypeId> = Vec::new();
        let mut i: usize = 0;
        while i < src.len()
            invariant
                i <= src@.len(),
                r@ =~= src@.subrange(0, i as int),
            decreases src@.len() - i,
        {
            r.push(src[i]);
            i = i + 1;
        }
        proof {
            assert(src@.subrange(0, src@.len() as int) =~= src@);
        }
        r
    }

    /// Appends a newly created archetype to a component type's membership
    /// set. Called only at archetype-creation time.
    pub fn record_group(&mut self, comp: ComponentId, group: ArchetypeId)
        requires
            old(self).wf(),
            old(self).spec_registered(comp),
        ensures
            final(self).wf(),
            final(self).keys == old(self).keys,
            final(self).sizes == old(self).sizes,
            final(self).spec_groups(comp) == old(self).spec_groups(comp).push(group),
            forall|c: ComponentId|
                old(self).spec_registered(c) && c != comp ==> final(self).spec_groups(c) == old(
                    self,
                ).spec_groups(c),
    {
        let ghost pre = *self;
        let ci = comp as usize;
        let m: &mut Vec<ArchetypeId> = &mut self.memberships[ci];
        m.push(group);
        proof {
            assert(self.memberships@ == pre.memberships@.update(
                comp as int,
                self.memberships@[comp as int],
            ));
            assert forall|c: ComponentId|
                pre.spec_registered(c) && c != comp implies self.spec_groups(c) == pre.spec_groups(
                c,
            ) by {
                assert(self.memberships@[c as int] == pre.memberships@[c as int]);
            }
        }
    }
}

} // verus!
