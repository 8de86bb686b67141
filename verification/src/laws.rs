//! The engine's cross-cutting guarantees, stated and proved over the spec
//! model that the public contracts use: group identity, query exactness,
//! query uniqueness, invisibility of killed records, and registration
//! idempotence.

use vstd::prelude::*;
use crate::arch_store::ArchetypeId;
use crate::component::ComponentId;
use crate::entity::EntityId;
use crate::sorting::{
    lemma_multiset_eq_from_set_eq, lemma_sorted_multiset_unique, lemma_strictly_sorted_iff,
};
use crate::world::World;
use vstd::seq_lib::lemma_no_dup_in_concat;

verus! {

/// Two records hold the same set of component types exactly when they live
/// in the same archetype: set-equal field lists land in one archetype and
/// set-unequal field lists never share one. Byte sizes play no part, so a
/// zero-sized marker type separates archetypes like any other component.
pub proof fn lemma_group_identity(w: World, a: EntityId, b: EntityId)
    requires
        w.wf(),
        a < w.spec_num_slots(),
        b < w.spec_num_slots(),
    ensures
        (w.spec_comps_of(a).to_set() == w.spec_comps_of(b).to_set()) <==> (w.spec_arch_of(a)
            == w.spec_arch_of(b)),
{
    let ga = w.spec_arch_of(a) as int;
    let gb = w.spec_arch_of(b) as int;
    assert(w.spec_arch_of(a) < w.spec_num_archetypes());
    assert(w.spec_arch_of(b) < w.spec_num_archetypes());
    assert(w.arch_store.archetypes@[ga].wf());
    assert(w.arch_store.archetypes@[gb].wf());
    let ca = w.arch_store.archetypes@[ga].comp_ids@;
    let cb = w.arch_store.archetypes@[gb].comp_ids@;
    if ca.to_set() == cb.to_set() {
        lemma_strictly_sorted_iff(ca);
        lemma_strictly_sorted_iff(cb);
        lemma_multiset_eq_from_set_eq(ca, cb);
        lemma_sorted_multiset_unique(ca, cb);
        if ga != gb {
            assert(ca != cb);
        }
    }
}

/// Registration is idempotent: one key names one component id.
pub proof fn lemma_register_idempotent(w: World, key: u64, c1: ComponentId, c2: ComponentId)
    requires
        w.wf(),
        w.spec_registered(c1),
        w.spec_registered(c2),
        w.spec_key_of(c1) == key,
        w.spec_key_of(c2) == key,
    ensures
        c1 == c2,
{
    assert(w.registry.keys@.no_duplicates());
    if c1 != c2 {
        assert(w.registry.keys@[c1 as int] == w.registry.keys@[c2 as int]);
    }
}

/// A query result below plan step `n` holds an id exactly when one of the
/// first `n` driving-set archetypes survives the intersection and lists the
/// id among its live entities.
proof fn lemma_query_up_to_char(w: World, comps: Seq<ComponentId>, n: int, id: EntityId)
    requires
        comps.len() >= 1,
        0 <= n <= w.spec_groups(comps[0]).len(),
    ensures
        w.query_up_to(comps, n).contains(id) <==> exists|k: int|
            0 <= k < n && w.group_matches(#[trigger] w.spec_groups(comps[0])[k], comps)
                && w.arch_store.archetypes@[w.spec_groups(comps[0])[k] as int].spec_live_ids(
                w.entity_store,
            ).contains(id),
    decreases n,
{
    if n > 0 {
        lemma_query_up_to_char(w, comps, n - 1, id);
        let rest = w.query_up_to(comps, n - 1);
        let s = w.query_up_to(comps, n);
        let g = w.spec_groups(comps[0])[n - 1];
        let ids = w.arch_store.archetypes@[g as int].spec_live_ids(w.entity_store);
        if w.group_matches(g, comps) {
            assert(s == rest + ids);
            if s.contains(id) {
                let x = choose|x: int| 0 <= x < s.len() && s[x] == id;
                if x < rest.len() {
                    assert(rest[x] == id);
                    assert(rest.contains(id));
                } else {
                    assert(ids[x - rest.len()] == id);
                    assert(ids.contains(id));
                    assert(w.group_matches(#[trigger] w.spec_groups(comps[0])[n - 1], comps)
                        && w.arch_store.archetypes@[w.spec_groups(comps[0])[n - 1] as int].spec_live_ids(
                        w.entity_store,
                    ).contains(id));
                }
            }
            if exists|k: int|
                0 <= k < n && w.group_matches(#[trigger] w.spec_groups(comps[0])[k], comps)
                    && w.arch_store.archetypes@[w.spec_groups(comps[0])[k] as int].spec_live_ids(
                    w.entity_store,
                ).contains(id) {
                let k = choose|k: int|
                    0 <= k < n && w.group_matches(#[trigger] w.spec_groups(comps[0])[k], comps)
                        && w.arch_store.archetypes@[w.spec_groups(comps[0])[k] as int].spec_live_ids(
                        w.entity_store,
                    ).contains(id);
                if k < n - 1 {
                    assert(rest.contains(id));
                    let x = choose|x: int| 0 <= x < rest.len() && rest[x] == id;
                    assert(s[x] == id);
                } else {
                    let x = choose|x: int| 0 <= x < ids.len() && ids[x] == id;
                    assert(s[rest.len() + x] == id);
                }
                assert(s.contains(id));
            }
        } else {
            assert(s == rest);
            if exists|k: int|
                0 <= k < n && w.group_matches(#[trigger] w.spec_groups(comps[0])[k], comps)
                    && w.arch_store.archetypes@[w.spec_groups(comps[0])[k] as int].spec_live_ids(
                    w.entity_store,
                ).contains(id) {
                let k = choose|k: int|
                    0 <= k < n && w.group_matches(#[trigger] w.spec_groups(comps[0])[k], comps)
                        && w.arch_store.archetypes@[w.spec_groups(comps[0])[k] as int].spec_live_ids(
                        w.entity_store,
                    ).contains(id);
                assert(k != n - 1);
            }
        }
    }
}

/// Query exactness: a query for `comps` yields an id exactly when that
/// record is alive and its archetype holds every requested component type —
/// no record lacking one ever appears.
pub proof fn lemma_query_exact(w: World, comps: Seq<ComponentId>, id: EntityId)
    requires
        w.wf(),
        comps.len() >= 1,
        forall|j: int| 0 <= j < comps.len() ==> w.spec_registered(#[trigger] comps[j]),
    ensures
        w.spec_query(comps).contains(id) <==> (id < w.spec_num_slots() && w.spec_is_alive(id)
            && forall|j: int| 0 <= j < comps.len() ==> w.spec_has_component(id, #[trigger] comps[j])),
{
    let n = w.spec_groups(comps[0]).len() as int;
    lemma_query_up_to_char(w, comps, n, id);
    if w.spec_query(comps).contains(id) {
        let k = choose|k: int|
            0 <= k < n && w.group_matches(#[trigger] w.spec_groups(comps[0])[k], comps)
                && w.arch_store.archetypes@[w.spec_groups(comps[0])[k] as int].spec_live_ids(
                w.entity_store,
            ).contains(id);
        let g = w.spec_groups(comps[0])[k];
        assert(g < w.spec_num_archetypes() && w.arch_store.archetypes@[g as int].spec_has(
            comps[0],
        ));
        let arch = w.arch_store.archetypes@[g as int];
        assert(arch.wf());
        arch.lemma_live_ids_char(w.entity_store, arch.entities@.len() as int, id);
        let r = choose|r: int| 0 <= r < arch.entities@.len() && #[trigger] arch.entities@[r] == Some(id);
        assert(arch.entities@[r] is Some);
        assert(id < w.spec_num_slots() && w.spec_is_alive(id) && w.spec_arch_of(id) == g
            && w.spec_row_of(id) == r);
        assert forall|j: int| 0 <= j < comps.len() implies w.spec_has_component(
            id,
            #[trigger] comps[j],
        ) by {
            if j == 0 {
                assert(arch.spec_has(comps[0]));
            } else {
                assert(w.spec_groups(comps[j]).contains(g));
                let k2 = choose|k2: int|
                    0 <= k2 < w.spec_groups(comps[j]).len() && w.spec_groups(comps[j])[k2] == g;
                assert(comps[j] < w.spec_num_components());
                assert(w.spec_groups(comps[j])[k2] == g);
                assert(w.arch_store.archetypes@[g as int].spec_has(comps[j]));
            }
        }
    }
    if id < w.spec_num_slots() && w.spec_is_alive(id) && forall|j: int|
        0 <= j < comps.len() ==> w.spec_has_component(id, #[trigger] comps[j]) {
        let g = w.spec_arch_of(id);
        let r = w.spec_row_of(id);
        assert(g < w.spec_num_archetypes());
        let arch = w.arch_store.archetypes@[g as int];
        assert(arch.entities@[r as int] == Some(id));
        arch.lemma_live_ids_char(w.entity_store, arch.entities@.len() as int, id);
        assert(arch.spec_live_ids(w.entity_store).contains(id));
        assert(w.spec_has_component(id, comps[0]));
        assert(arch.spec_has(comps[0]));
        assert(w.spec_groups(comps[0]).contains(g));
        let k = choose|k: int|
            0 <= k < w.spec_groups(comps[0]).len() && w.spec_groups(comps[0])[k] == g;
        assert forall|j: int| 1 <= j < comps.len() implies w.spec_groups(
            #[trigger] comps[j],
        ).contains(g) by {
            assert(w.spec_has_component(id, comps[j]));
            assert(arch.spec_has(comps[j]));
        }
        assert(w.group_matches(g, comps));
        assert(w.group_matches(#[trigger] w.spec_groups(comps[0])[k], comps)
            && w.arch_store.archetypes@[w.spec_groups(comps[0])[k] as int].spec_live_ids(
            w.entity_store,
        ).contains(id));
    }
}

/// The live entities of one archetype list each id at most once, and every
/// listed id is located in that archetype.
proof fn lemma_live_ids_once(w: World, g: ArchetypeId, n: int)
    requires
        w.wf(),
        g < w.spec_num_archetypes(),
        0 <= n <= w.arch_store.archetypes@[g as int].entities@.len(),
    ensures
        w.arch_store.archetypes@[g as int].live_ids_up_to(w.entity_store, n).no_duplicates(),
        forall|x: int|
            0 <= x < w.arch_store.archetypes@[g as int].live_ids_up_to(w.entity_store, n).len()
                ==> w.spec_arch_of(
                #[trigger] w.arch_store.archetypes@[g as int].live_ids_up_to(w.entity_store, n)[x],
            ) == g && w.spec_row_of(
                w.arch_store.archetypes@[g as int].live_ids_up_to(w.entity_store, n)[x],
            ) < n,
    decreases n,
{
    if n > 0 {
        lemma_live_ids_once(w, g, n - 1);
        let arch = w.arch_store.archetypes@[g as int];
        let rest = arch.live_ids_up_to(w.entity_store, n - 1);
        let s = arch.live_ids_up_to(w.entity_store, n);
        match arch.entities@[n - 1] {
            Some(id2) => {
                if w.entity_store.spec_is_alive(id2) {
                    assert(s == rest.push(id2));
                    assert(arch.entities@[n - 1] is Some);
                    assert(w.spec_arch_of(id2) == g && w.spec_row_of(id2) == n - 1);
                    assert forall|p: int, q: int|
                        0 <= p < s.len() && 0 <= q < s.len() && p != q implies s[p] != s[q] by {
                        if p < rest.len() && q < rest.len() {
                            assert(rest[p] == s[p] && rest[q] == s[q]);
                        } else if p < rest.len() {
                            assert(s[q] == id2 && s[p] == rest[p]);
                            assert(w.spec_row_of(rest[p]) < n - 1);
                        } else if q < rest.len() {
                            assert(s[p] == id2 && s[q] == rest[q]);
                            assert(w.spec_row_of(rest[q]) < n - 1);
                        }
                    }
                }
            },
            None => {},
        }
    }
}

/// Query uniqueness: a query yields each matching record exactly once.
pub proof fn lemma_query_once(w: World, comps: Seq<ComponentId>)
    requires
        w.wf(),
        comps.len() >= 1,
        forall|j: int| 0 <= j < comps.len() ==> w.spec_registered(#[trigger] comps[j]),
    ensures
        w.spec_query(comps).no_duplicates(),
{
    lemma_query_once_aux(w, comps, w.spec_groups(comps[0]).len() as int);
}

proof fn lemma_query_once_aux(w: World, comps: Seq<ComponentId>, n: int)
    requires
        w.wf(),
        comps.len() >= 1,
        forall|j: int| 0 <= j < comps.len() ==> w.spec_registered(#[trigger] comps[j]),
        0 <= n <= w.spec_groups(comps[0]).len(),
    ensures
        w.query_up_to(comps, n).no_duplicates(),
        forall|x: int|
            0 <= x < w.query_up_to(comps, n).len() ==> exists|k: int|
                0 <= k < n && w.spec_arch_of(#[trigger] w.query_up_to(comps, n)[x])
                    == w.spec_groups(comps[0])[k],
    decreases n,
{
    if n > 0 {
        lemma_query_once_aux(w, comps, n - 1);
        let rest = w.query_up_to(comps, n - 1);
        let s = w.query_up_to(comps, n);
        let g = w.spec_groups(comps[0])[n - 1];
        assert(g < w.spec_num_archetypes());
        if w.group_matches(g, comps) {
            let arch = w.arch_store.archetypes@[g as int];
            let ids = arch.spec_live_ids(w.entity_store);
            lemma_live_ids_once(w, g, arch.entities@.len() as int);
            assert(s == rest + ids);
            assert(w.spec_groups(comps[0]).no_duplicates());
            assert forall|p: int, q: int|
                0 <= p < rest.len() && 0 <= q < ids.len() implies rest[p] != ids[q] by {
                let k = choose|k: int|
                    0 <= k < n - 1 && w.spec_arch_of(rest[p]) == w.spec_groups(comps[0])[k];
                assert(w.spec_arch_of(ids[q]) == g);
                assert(w.spec_groups(comps[0])[k] != w.spec_groups(comps[0])[n - 1]);
            }
            lemma_no_dup_in_concat(rest, ids);
            assert forall|x: int|
                0 <= x < s.len() implies exists|k: int|
                0 <= k < n && w.spec_arch_of(#[trigger] s[x]) == w.spec_groups(comps[0])[k] by {
                if x < rest.len() {
                    assert(s[x] == rest[x]);
                    let k = choose|k: int|
                        0 <= k < n - 1 && w.spec_arch_of(rest[x]) == w.spec_groups(comps[0])[k];
                    assert(0 <= k < n && w.spec_arch_of(s[x]) == w.spec_groups(comps[0])[k]);
                } else {
                    assert(s[x] == ids[x - rest.len()]);
                    assert(w.spec_arch_of(s[x]) == w.spec_groups(comps[0])[n - 1]);
                }
            }
        } else {
            assert(s == rest);
            assert forall|x: int|
                0 <= x < s.len() implies exists|k: int|
                0 <= k < n && w.spec_arch_of(#[trigger] s[x]) == w.spec_groups(comps[0])[k] by {
                let k = choose|k: int|
                    0 <= k < n - 1 && w.spec_arch_of(rest[x]) == w.spec_groups(comps[0])[k];
                assert(0 <= k < n && w.spec_arch_of(s[x]) == w.spec_groups(comps[0])[k]);
            }
        }
    }
}

/// A killed record appears in no query result — neither in a component
/// query nor among the live ids — until its id is reused by a new spawn.
pub proof fn lemma_killed_invisible(w: World, comps: Seq<ComponentId>, id: EntityId)
    requires
        w.wf(),
        comps.len() >= 1,
        forall|j: int| 0 <= j < comps.len() ==> w.spec_registered(#[trigger] comps[j]),
        !w.spec_is_alive(id),
    ensures
        !w.spec_query(comps).contains(id),
        !w.spec_live_ids().contains(id),
{
    lemma_query_exact(w, comps, id);
    w.entity_store.lemma_live_ids_char(w.spec_num_slots(), id);
}

} // verus!
