//! An archetype: the storage partition for every record sharing one exact set
//! of component types. It owns one type-erased byte column per member type
//! (empty for zero-sized marker types), the row-to-entity list, and the free
//! list of reusable row indices. Rows are never read while unoccupied: a
//! released row is cleared to `None` and only handed out again by
//! `new_archrow_id`, which spawning follows with a write of every column.

use vstd::prelude::*;
use crate::component::ComponentId;
use crate::entity::{EntityId, EntityStore};
use crate::sorting::strictly_sorted;

verus! {

pub type ArchRowId = u32;

/// The index of component id `c` in the list `s` (unique when `s` is
/// strictly sorted and `c` occurs).
pub open spec fn index_of_id(s: Seq<ComponentId>, c: ComponentId) -> int {
    choose|i: int| 0 <= i < s.len() && s[i] == c
}

pub proof fn lemma_index_of_id(s: Seq<ComponentId>, c: ComponentId)
    requires
        strictly_sorted(s),
        s.contains(c),
    ensures
        0 <= index_of_id(s, c) < s.len(),
        s[index_of_id(s, c)] == c,
        forall|j: int| 0 <= j < s.len() && s[j] == c ==> j == index_of_id(s, c),
{
    let w = choose|i: int| 0 <= i < s.len() && s[i] == c;
    assert(0 <= w < s.len() && s[w] == c);
    assert forall|j: int| 0 <= j < s.len() && s[j] == c implies j == index_of_id(s, c) by {
        let i = index_of_id(s, c);
        if j < i {
            assert(s[j] < s[i]);
        } else if i < j {
            assert(s[i] < s[j]);
        }
    }
}

/// One type-erased byte column: the values of one component type for every
/// row of the archetype, `size` bytes per row.
pub struct Column {
    /// Byte size of one element; 0 for marker types, which store nothing.
    pub size: usize,
    /// `size * rows` bytes; row `r`'s value sits at `r * size .. (r + 1) * size`.
    pub bytes: Vec<u8>,
}

pub struct Archetype {
    /// Canonical (ascending, duplicate-free) list of member component types.
    pub comp_ids: Vec<ComponentId>,
    /// One column per member type, parallel to `comp_ids`.
    pub columns: Vec<Column>,
    /// Row index -> occupying entity; `None` while the row is on the free list.
    pub entities: Vec<Option<EntityId>>,
    /// Reusable row indices.
    pub available_rows: Vec<ArchRowId>,
}

impl Archetype {
    pub open spec fn spec_comps(self) -> Seq<ComponentId> {
        self.comp_ids@
    }

    pub open spec fn spec_has(self, c: ComponentId) -> bool {
        self.comp_ids@.contains(c)
    }

    pub open spec fn spec_index_of(self, c: ComponentId) -> int {
        index_of_id(self.comp_ids@, c)
    }

    /// Byte size of component `c` in this archetype.
    pub open spec fn spec_size_of(self, c: ComponentId) -> int {
        self.columns@[self.spec_index_of(c)].size as int
    }

    /// The bytes stored for column index `i` at row `row`.
    pub open spec fn col_value(self, i: int, row: int) -> Seq<u8> {
        let sz = self.columns@[i].size as int;
        self.columns@[i].bytes@.subrange(row * sz, row * sz + sz)
    }

    /// The bytes stored for component `c` at row `row` (empty for marker
    /// types).
    pub open spec fn spec_value(self, c: ComponentId, row: int) -> Seq<u8> {
        self.col_value(self.spec_index_of(c), row)
    }

    pub open spec fn wf(self) -> bool {
        &&& strictly_sorted(self.comp_ids@)
        &&& self.entities@.len() <= ArchRowId::MAX
        &&& self.columns@.len() == self.comp_ids@.len()
        &&& forall|i: int|
            0 <= i < self.columns@.len() ==> (#[trigger] self.columns@[i]).bytes@.len()
                == self.columns@[i].size * self.entities@.len()
        &&& self.available_rows@.no_duplicates()
        &&& forall|k: int|
            0 <= k < self.available_rows@.len() ==> (#[trigger] self.available_rows@[k])
                < self.entities@.len()
        &&& forall|r: int|
            0 <= r < self.entities@.len() ==> ((#[trigger] self.entities@[r]) is None
                <==> self.available_rows@.contains(r as ArchRowId))
    }

    /// Room for one more row: the row index space is not exhausted and no
    /// column's byte count would leave `usize`. A machine limit.
    pub open spec fn spec_room(self) -> bool {
        &&& self.entities@.len() < ArchRowId::MAX
        &&& forall|i: int|
            0 <= i < self.columns@.len() ==> (#[trigger] self.columns@[i]).bytes@.len()
                + self.columns@[i].size <= usize::MAX
    }

    /// Builds an empty archetype for the given canonical component list, with
    /// one column per component sized from `sizes`.
    pub fn new(comp_ids: Vec<ComponentId>, sizes: &Vec<usize>) -> (r: Self)
        requires
            strictly_sorted(comp_ids@),
            sizes@.len() == comp_ids@.len(),
        ensures
            r.wf(),
            r.comp_ids@ == comp_ids@,
            r.entities@.len() == 0,
            r.available_rows@.len() == 0,
            r.columns@.len() == comp_ids@.len(),
            forall|i: int| 0 <= i < sizes@.len() ==> (#[trigger] r.columns@[i]).size == sizes@[i],
    {
        let mut columns: Vec<Column> = Vec::new();
        let mut i: usize = 0;
        while i < sizes.len()
            invariant
                i <= sizes@.len(),
                columns@.len() == i,
                forall|k: int|
                    0 <= k < i ==> (#[trigger] columns@[k]).size == sizes@[k]
                        && columns@[k].bytes@.len() == 0,
            decreases sizes@.len() - i,
        {
            columns.push(Column { size: sizes[i], bytes: Vec::new() });
            i = i + 1;
        }
        Archetype { comp_ids, columns, entities: Vec::new(), available_rows: Vec::new() }
    }

    /// The column index of component `c`, when this archetype contains it.
    pub fn find_col(&self, c: ComponentId) -> (r: Option<usize>)
        requires
            self.wf(),
        ensures
            match r {
                Some(i) => self.spec_has(c) && i == self.spec_index_of(c) && i
                    < self.columns@.len() && self.comp_ids@[i as int] == c,
                None => !self.spec_has(c),
            },
    {
        let mut i: usize = 0;
        while i < self.comp_ids.len()
            invariant
                self.wf(),
                i <= self.comp_ids@.len(),
                forall|k: int| 0 <= k < i ==> self.comp_ids@[k] != c,
            decreases self.comp_ids@.len() - i,
        {
            if self.comp_ids[i] == c {
                proof {
                    lemma_index_of_id(self.comp_ids@, c);
                }
                return Some(i);
            }
            i = i + 1;
        }
        None
    }

    pub fn has_component(&self, c: ComponentId) -> (r: bool)
        requires
            self.wf(),
        ensures
            r == self.spec_has(c),
    {
        match self.find_col(c) {
            Some(_) => true,
            None => false,
        }
    }

    /// Reserves a row for `ent`: reuses the most recently freed row if any,
    /// else appends a fresh zeroed row to every column.
    pub fn new_archrow_id(&mut self, ent: EntityId) -> (row: ArchRowId)
        requires
            old(self).wf(),
            old(self).spec_room(),
            old(self).entities@.len() < ArchRowId::MAX,
        ensures
            final(self).wf(),
            final(self).comp_ids@ == old(self).comp_ids@,
            final(self).columns@.len() == old(self).columns@.len(),
            forall|i: int|
                0 <= i < old(self).columns@.len() ==> (#[trigger] final(self).columns@[i]).size
                    == old(self).columns@[i].size,
            row < final(self).entities@.len(),
            final(self).entities@[row as int] == Some(ent),
            forall|r: int|
                0 <= r < old(self).entities@.len() && r != row ==> final(self).entities@[r] == old(
                    self,
                ).entities@[r],
            forall|i: int, r: int|
                0 <= i < old(self).columns@.len() && 0 <= r < old(self).entities@.len() && r != row
                    ==> final(self).col_value(i, r) == old(self).col_value(i, r),
            old(self).available_rows@.len() > 0 ==> {
                &&& row == old(self).available_rows@.last()
                &&& final(self).available_rows@ == old(self).available_rows@.drop_last()
                &&& final(self).entities@ == old(self).entities@.update(row as int, Some(ent))
            },
            old(self).available_rows@.len() == 0 ==> {
                &&& row == old(self).entities@.len()
                &&& final(self).available_rows@ == old(self).available_rows@
                &&& final(self).entities@ == old(self).entities@.push(Some(ent))
            },
    {
        let popped = self.available_rows.pop();
        match popped {
            Some(row) => {
                proof {
                    let pre = old(self).available_rows@;
                    assert(pre.last() == pre[pre.len() - 1]);
                    assert(pre.contains(row));
                }
                self.entities[row as usize] = Some(ent);
                proof {
                    let pre = old(self).available_rows@;
                    let post = self.available_rows@;
                    assert forall|p: int, q: int|
                        0 <= p < post.len() && 0 <= q < post.len() && p != q implies post[p]
                        != post[q] by {
                        assert(pre[p] == post[p] && pre[q] == post[q]);
                    }
                    assert forall|k: int| 0 <= k < post.len() implies post[k] != row by {
                        assert(pre[k] == post[k]);
                        assert(pre[pre.len() - 1] == row);
                    }
                    assert forall|r: int|
                        0 <= r < self.entities@.len() implies ((#[trigger] self.entities@[r]) is None
                        <==> post.contains(r as ArchRowId)) by {
                        if r == row {
                            assert(!post.contains(r as ArchRowId));
                        } else {
                            assert(self.entities@[r] == old(self).entities@[r]);
                            if old(self).entities@[r] is None {
                                let k = choose|k: int|
                                    0 <= k < pre.len() && pre[k] == r as ArchRowId;
                                assert(k < pre.len() - 1);
                                assert(post[k] == r as ArchRowId);
                            } else {
                                if post.contains(r as ArchRowId) {
                                    let k = choose|k: int|
                                        0 <= k < post.len() && post[k] == r as ArchRowId;
                                    assert(pre[k] == r as ArchRowId);
                                }
                            }
                        }
                    }
                }
                row
            },
            None => {
                let row = self.entities.len();
                let mut i: usize = 0;
                let n = self.columns.len();
                while i < n
                    invariant
                        old(self).wf(),
                        old(self).spec_room(),
                        n == self.columns@.len(),
                        self.columns@.len() == old(self).columns@.len(),
                        self.comp_ids@ == old(self).comp_ids@,
                        self.entities@ == old(self).entities@,
                        self.available_rows@ == old(self).available_rows@,
                        i <= n,
                        forall|k: int|
                            i <= k < n ==> #[trigger] self.columns@[k] == old(self).columns@[k],
                        forall|k: int|
                            0 <= k < i ==> (#[trigger] self.columns@[k]).size == old(
                                self,
                            ).columns@[k].size && self.columns@[k].bytes@.len() == old(
                                self,
                            ).columns@[k].bytes@.len() + self.columns@[k].size
                                && self.columns@[k].bytes@.subrange(
                                0,
                                old(self).columns@[k].bytes@.len() as int,
                            ) == old(self).columns@[k].bytes@,
                    decreases n - i,
                {
                    grow_column(&mut self.columns[i]);
                    i = i + 1;
                }
                self.entities.push(Some(ent));
                proof {
                    let nrows = old(self).entities@.len() as int;
                    assert forall|k: int|
                        0 <= k < self.columns@.len() implies (
                        #[trigger] self.columns@[k]).bytes@.len() == self.columns@[k].size
                        * self.entities@.len() by {
                        let sz = self.columns@[k].size as int;
                        assert(old(self).columns@[k].bytes@.len() == sz * nrows);
                        assert(sz * (nrows + 1) == sz * nrows + sz) by (nonlinear_arith);
                    }
                    assert forall|r: int|
                        0 <= r < self.entities@.len() implies ((#[trigger] self.entities@[r]) is None
                        <==> self.available_rows@.contains(r as ArchRowId)) by {
                        if r < nrows {
                            assert(self.entities@[r] == old(self).entities@[r]);
                        } else {
                            assert(self.entities@[r] == Some(ent));
                        }
                    }
                    assert forall|i2: int, r: int|
                        0 <= i2 < old(self).columns@.len() && 0 <= r < nrows && r != row implies self.col_value(
                        i2,
                        r,
                    ) == old(self).col_value(i2, r) by {
                        lemma_col_value_prefix(*old(self), *self, i2, r, nrows);
                    }
                }
                row as u32
            },
        }
    }

    /// Writes `value` as component `c` of row `row`. For a marker type
    /// (size 0) nothing is stored.
    pub fn set_component(&mut self, row: ArchRowId, c: ComponentId, value: &Vec<u8>)
        requires
            old(self).wf(),
            old(self).spec_has(c),
            row < old(self).entities@.len(),
            value@.len() == old(self).spec_size_of(c),
        ensures
            final(self).wf(),
            final(self).comp_ids@ == old(self).comp_ids@,
            final(self).entities@ == old(self).entities@,
            final(self).available_rows@ == old(self).available_rows@,
            final(self).columns@.len() == old(self).columns@.len(),
            forall|i: int|
                0 <= i < old(self).columns@.len() ==> (#[trigger] final(self).columns@[i]).size
                    == old(self).columns@[i].size && final(self).columns@[i].bytes@.len() == old(
                    self,
                ).columns@[i].bytes@.len(),
            final(self).spec_value(c, row as int) == value@,
            forall|c2: ComponentId, r: int|
                old(self).spec_has(c2) && 0 <= r < old(self).entities@.len() && !(c2 == c && r
                    == row) ==> final(self).spec_value(c2, r) == old(self).spec_value(c2, r),
    {
        proof {
            lemma_index_of_id(self.comp_ids@, c);
        }
        let i = match self.find_col(c) {
            Some(i) => i,
            None => {
                proof {
                    assert(false);
                }
                0
            },
        };
        let sz = self.columns[i].size;
        let nrows = self.entities.len();
        if sz == 0 {
            proof {
                assert(row as int * (sz as int) == 0) by (nonlinear_arith)
                    requires
                        sz as int == 0,
                ;
                assert(value@ =~= Seq::<u8>::empty());
                assert(self.spec_value(c, row as int) =~= Seq::<u8>::empty());
            }
            return;
        }
        proof {
            assert((row + 1) * sz == row * sz + sz) by (nonlinear_arith);
            assert((row + 1) * sz <= nrows * sz) by (nonlinear_arith)
                requires
                    row as int + 1 <= nrows as int,
                    sz as int >= 0,
            ;
            assert(nrows * sz == sz * nrows) by (nonlinear_arith);
            assert(self.columns@[i as int].bytes@.len() == self.columns@[i as int].bytes.len());
        }
        let base = (row as usize) * sz;
        write_bytes(&mut self.columns[i], base, value);
        proof {
            let pre = *old(self);
            let post = *self;
            let ii = i as int;
            let szi = sz as int;
            let rowi = row as int;
            assert(post.columns@ =~= pre.columns@.update(ii, post.columns@[ii]));
            // the written range now holds the new value
            assert(post.col_value(ii, rowi) =~= value@);
            // other rows of the same column are untouched
            assert forall|r: int| 0 <= r < pre.entities@.len() && r != rowi implies post.col_value(
                ii,
                r,
            ) == pre.col_value(ii, r) by {
                lemma_disjoint_rows(szi, r, rowi);
                assert((r + 1) * szi == r * szi + szi) by (nonlinear_arith);
                assert((r + 1) * szi <= pre.entities@.len() * szi) by (nonlinear_arith)
                    requires
                        r + 1 <= pre.entities@.len(),
                        szi >= 0,
                ;
                assert(pre.entities@.len() * szi == szi * pre.entities@.len())
                    by (nonlinear_arith);
                assert(r * szi >= 0) by (nonlinear_arith)
                    requires
                        r >= 0,
                        szi >= 0,
                ;
                assert(post.col_value(ii, r) =~= pre.col_value(ii, r));
            }
            // other columns are untouched
            assert forall|c2: ComponentId, r: int|
                pre.spec_has(c2) && 0 <= r < pre.entities@.len() && !(c2 == c && r
                    == rowi) implies post.spec_value(c2, r) == pre.spec_value(c2, r) by {
                lemma_index_of_id(pre.comp_ids@, c2);
                let j = index_of_id(pre.comp_ids@, c2);
                if c2 == c {
                    assert(j == ii);
                } else {
                    assert(j != ii);
                    assert(post.columns@[j] == pre.columns@[j]);
                }
            }
        }
    }

    /// Reads the bytes of component `c` at the occupied row `row` (empty for
    /// marker types). A released (dead-but-retained) row must never be read:
    /// the row has to hold a record.
    pub fn get_component(&self, row: ArchRowId, c: ComponentId) -> (r: Vec<u8>)
        requires
            self.wf(),
            self.spec_has(c),
            row < self.entities@.len(),
            self.entities@[row as int] is Some,
        ensures
            r@ == self.spec_value(c, row as int),
    {
        proof {
            lemma_index_of_id(self.comp_ids@, c);
        }
        let i = match self.find_col(c) {
            Some(i) => i,
            None => {
                proof {
                    assert(false);
                }
                0
            },
        };
        let sz = self.columns[i].size;
        let nrows = self.entities.len();
        proof {
            assert((row + 1) * sz == row * sz + sz) by (nonlinear_arith);
            assert((row + 1) * sz <= nrows * sz) by (nonlinear_arith)
                requires
                    row as int + 1 <= nrows as int,
                    sz as int >= 0,
            ;
            assert(nrows * sz == sz * nrows) by (nonlinear_arith);
            assert(row as int * sz as int >= 0) by (nonlinear_arith)
                requires
                    row as int >= 0,
                    sz as int >= 0,
            ;
            assert(self.columns@[i as int].bytes@.len() == self.columns@[i as int].bytes.len());
        }
        let base = (row as usize) * sz;
        let col = &self.columns[i];
        let bl = col.bytes.len();
        let mut out: Vec<u8> = Vec::new();
        let mut j: usize = 0;
        while j < sz
            invariant
                j <= sz,
                bl == col.bytes@.len(),
                base + sz <= bl,
                base as int == row as int * sz as int,
                out@ =~= col.bytes@.subrange(base as int, base as int + j as int),
            decreases sz - j,
        {
            out.push(col.bytes[base + j]);
            j = j + 1;
        }
        proof {
            assert(out@ =~= self.col_value(i as int, row as int));
        }
        out
    }

    /// Returns row `row` to the free list and clears its occupant. The column
    /// bytes are left in place; liveness filtering hides the row until it is
    /// reused and rewritten.
    pub fn remove_entity(&mut self, row: ArchRowId)
        requires
            old(self).wf(),
            row < old(self).entities@.len(),
            old(self).entities@[row as int] is Some,
        ensures
            final(self).wf(),
            final(self).comp_ids@ == old(self).comp_ids@,
            final(self).columns@ == old(self).columns@,
            final(self).entities@ == old(self).entities@.update(row as int, None),
            final(self).available_rows@ == old(self).available_rows@.push(row),
    {
        self.entities[row as usize] = None;
        self.available_rows.push(row);
        proof {
            let pre = old(self).available_rows@;
            let post = self.available_rows@;
            assert(!pre.contains(row));
            assert forall|p: int, q: int|
                0 <= p < post.len() && 0 <= q < post.len() && p != q implies post[p] != post[q] by {
                if p < pre.len() && q < pre.len() {
                    assert(pre[p] == post[p] && pre[q] == post[q]);
                } else if p < pre.len() {
                    assert(pre.contains(pre[p]));
                } else if q < pre.len() {
                    assert(pre.contains(pre[q]));
                }
            }
            assert forall|r: int|
                0 <= r < self.entities@.len() implies ((#[trigger] self.entities@[r]) is None
                <==> post.contains(r as ArchRowId)) by {
                if r == row {
                    assert(post[post.len() - 1] == row);
                } else {
                    assert(self.entities@[r] == old(self).entities@[r]);
                    if old(self).entities@[r] is None {
                        let k = choose|k: int| 0 <= k < pre.len() && pre[k] == r as ArchRowId;
                        assert(post[k] == r as ArchRowId);
                    } else {
                        if post.contains(r as ArchRowId) {
                            let k = choose|k: int| 0 <= k < post.len() && post[k] == r as ArchRowId;
                            assert(post[post.len() - 1] == row);
                            assert(k < pre.len());
                            assert(pre[k] == r as ArchRowId);
                        }
                    }
                }
            }
        }
    }

    /// The rows below `n` that hold a live entity, in row order.
    pub open spec fn live_rows_up_to(self, es: EntityStore, n: int) -> Seq<ArchRowId>
        decreases n,
    {
        if n <= 0 {
            Seq::<ArchRowId>::empty()
        } else {
            let rest = self.live_rows_up_to(es, n - 1);
            match self.entities@[n - 1] {
                Some(id) => if es.spec_is_alive(id) {
                    rest.push((n - 1) as ArchRowId)
                } else {
                    rest
                },
                None => rest,
            }
        }
    }

    /// The rows currently holding a live entity, in row order.
    pub open spec fn spec_live_rows(self, es: EntityStore) -> Seq<ArchRowId> {
        self.live_rows_up_to(es, self.entities@.len() as int)
    }

    /// The live entities below row `n`, in row order.
    pub open spec fn live_ids_up_to(self, es: EntityStore, n: int) -> Seq<EntityId>
        decreases n,
    {
        if n <= 0 {
            Seq::<EntityId>::empty()
        } else {
            let rest = self.live_ids_up_to(es, n - 1);
            match self.entities@[n - 1] {
                Some(id) => if es.spec_is_alive(id) {
                    rest.push(id)
                } else {
                    rest
                },
                None => rest,
            }
        }
    }

    /// The entities occupying this archetype's live rows, in row order.
    pub open spec fn spec_live_ids(self, es: EntityStore) -> Seq<EntityId> {
        self.live_ids_up_to(es, self.entities@.len() as int)
    }

    /// A record id appears among the live entities below row `n` exactly
    /// when it is alive and some row below `n` holds it.
    pub proof fn lemma_live_ids_char(self, es: EntityStore, n: int, id: EntityId)
        requires
            0 <= n <= self.entities@.len(),
        ensures
            self.live_ids_up_to(es, n).contains(id) <==> (es.spec_is_alive(id) && exists|r: int|
                0 <= r < n && #[trigger] self.entities@[r] == Some(id)),
        decreases n,
    {
        if n > 0 {
            self.lemma_live_ids_char(es, n - 1, id);
            let rest = self.live_ids_up_to(es, n - 1);
            let s = self.live_ids_up_to(es, n);
            match self.entities@[n - 1] {
                Some(id2) => {
                    if es.spec_is_alive(id2) {
                        assert(s == rest.push(id2));
                        if s.contains(id) {
                            let k = choose|k: int| 0 <= k < s.len() && s[k] == id;
                            if k < rest.len() {
                                assert(rest[k] == id);
                            } else {
                                assert(id == id2);
                                assert(self.entities@[n - 1] == Some(id));
                            }
                        }
                        if es.spec_is_alive(id) && exists|r: int|
                            0 <= r < n && #[trigger] self.entities@[r] == Some(id) {
                            let r = choose|r: int|
                                0 <= r < n && #[trigger] self.entities@[r] == Some(id);
                            if r == n - 1 {
                                assert(s[s.len() - 1] == id);
                            } else {
                                assert(rest.contains(id));
                                let k = choose|k: int| 0 <= k < rest.len() && rest[k] == id;
                                assert(s[k] == id);
                            }
                        }
                    } else {
                        if es.spec_is_alive(id) && exists|r: int|
                            0 <= r < n && #[trigger] self.entities@[r] == Some(id) {
                            let r = choose|r: int|
                                0 <= r < n && #[trigger] self.entities@[r] == Some(id);
                            assert(r != n - 1);
                        }
                    }
                },
                None => {
                    if es.spec_is_alive(id) && exists|r: int|
                        0 <= r < n && #[trigger] self.entities@[r] == Some(id) {
                        let r = choose|r: int|
                            0 <= r < n && #[trigger] self.entities@[r] == Some(id);
                        assert(r != n - 1);
                    }
                },
            }
        }
    }

    /// The row indices whose stored entity passes the record store's
    /// liveness check, in row order. Each call builds a fresh vector.
    pub fn get_arch_rows(&self, es: &EntityStore) -> (r: Vec<ArchRowId>)
        requires
            self.entities@.len() <= ArchRowId::MAX,
        ensures
            r@ == self.spec_live_rows(*es),
    {
        let mut out: Vec<ArchRowId> = Vec::new();
        let mut i: usize = 0;
        while i < self.entities.len()
            invariant
                i <= self.entities@.len(),
                self.entities@.len() <= ArchRowId::MAX,
                out@ == self.live_rows_up_to(*es, i as int),
            decreases self.entities@.len() - i,
        {
            match self.entities[i] {
                Some(id) => {
                    if es.is_alive(id) {
                        out.push(i as u32);
                    }
                },
                None => {},
            }
            i = i + 1;
        }
        out
    }

    /// The entity ids occupying live rows, in row order. Each call builds a
    /// fresh vector.
    pub fn get_entity_ids(&self, es: &EntityStore) -> (r: Vec<EntityId>)
        ensures
            r@ == self.spec_live_ids(*es),
    {
        let mut out: Vec<EntityId> = Vec::new();
        let mut i: usize = 0;
        while i < self.entities.len()
            invariant
                i <= self.entities@.len(),
                out@ == self.live_ids_up_to(*es, i as int),
            decreases self.entities@.len() - i,
        {
            match self.entities[i] {
                Some(id) => {
                    if es.is_alive(id) {
                        out.push(id);
                    }
                },
                None => {},
            }
            i = i + 1;
        }
        out
    }
}

/// Appends one zeroed element (`size` bytes) to a column.
fn grow_column(col: &mut Column)
    requires
        old(col).bytes@.len() + old(col).size <= usize::MAX,
    ensures
        final(col).size == old(col).size,
        final(col).bytes@.len() == old(col).bytes@.len() + old(col).size,
        final(col).bytes@.subrange(0, old(col).bytes@.len() as int) == old(col).bytes@,
{
    let mut j: usize = 0;
    let sz = col.size;
    while j < sz
        invariant
            j <= sz,
            sz == col.size,
            col.size == old(col).size,
            col.bytes@.len() == old(col).bytes@.len() + j,
            col.bytes@.subrange(0, old(col).bytes@.len() as int) =~= old(col).bytes@,
        decreases sz - j,
    {
        col.bytes.push(0u8);
        proof {
            assert(col.bytes@.subrange(0, old(col).bytes@.len() as int) =~= old(col).bytes@);
        }
        j = j + 1;
    }
}

/// Overwrites `value.len()` bytes of the column starting at `base`.
fn write_bytes(col: &mut Column, base: usize, value: &Vec<u8>)
    requires
        base + value@.len() <= old(col).bytes@.len(),
    ensures
        final(col).size == old(col).size,
        final(col).bytes@.len() == old(col).bytes@.len(),
        forall|k: int| base <= k < base + value@.len() ==> final(col).bytes@[k] == value@[k - base],
        forall|k: int|
            0 <= k < old(col).bytes@.len() && !(base <= k < base + value@.len())
                ==> final(col).bytes@[k] == old(col).bytes@[k],
{
    let mut j: usize = 0;
    let n = value.len();
    let bl = col.bytes.len();
    while j < n
        invariant
            j <= n,
            n == value@.len(),
            bl == col.bytes@.len(),
            base + n <= bl,
            col.size == old(col).size,
            col.bytes@.len() == old(col).bytes@.len(),
            forall|k: int| base <= k < base + j ==> col.bytes@[k] == value@[k - base],
            forall|k: int|
                0 <= k < col.bytes@.len() && !(base <= k < base + j) ==> col.bytes@[k] == old(
                    col,
                ).bytes@[k],
        decreases n - j,
    {
        col.bytes[base + j] = value[j];
        j = j + 1;
    }
}

/// Rows other than the written one occupy disjoint byte ranges.
proof fn lemma_disjoint_rows(sz: int, r: int, row: int)
    requires
        sz > 0,
        r >= 0,
        row >= 0,
        r != row,
    ensures
        r * sz + sz <= row * sz || r * sz >= row * sz + sz,
{
    if r < row {
        assert(r * sz + sz <= row * sz) by (nonlinear_arith)
            requires
                sz > 0 && 0 <= r < row,
        ;
    } else {
        assert(r * sz >= row * sz + sz) by (nonlinear_arith)
            requires
                sz > 0 && 0 <= row < r,
        ;
    }
}

/// A row's bytes are unchanged when its column only grew past it.
proof fn lemma_col_value_prefix(pre: Archetype, post: Archetype, i: int, r: int, rows: int)
    requires
        0 <= i < pre.columns@.len(),
        i < post.columns@.len(),
        post.columns@[i].size == pre.columns@[i].size,
        post.columns@[i].bytes@.len() >= pre.columns@[i].bytes@.len(),
        post.columns@[i].bytes@.subrange(0, pre.columns@[i].bytes@.len() as int)
            == pre.columns@[i].bytes@,
        0 <= r,
        r + 1 <= rows,
        pre.columns@[i].bytes@.len() == pre.columns@[i].size * rows,
    ensures
        post.col_value(i, r) == pre.col_value(i, r),
{
    let sz = pre.columns@[i].size as int;
    let len = pre.columns@[i].bytes@.len() as int;
    assert(r * sz >= 0) by (nonlinear_arith)
        requires
            r >= 0 && sz >= 0,
    ;
    assert(r * sz + sz == (r + 1) * sz) by (nonlinear_arith);
    assert((r + 1) * sz <= rows * sz) by (nonlinear_arith)
        requires
            r + 1 <= rows,
            sz >= 0,
    ;
    assert(rows * sz == sz * rows) by (nonlinear_arith);
    assert forall|k: int| 0 <= k < len implies post.columns@[i].bytes@[k]
        == pre.columns@[i].bytes@[k] by {
        assert(post.columns@[i].bytes@.subrange(0, len)[k] == post.columns@[i].bytes@[k]);
    }
    assert(post.col_value(i, r) =~= pre.col_value(i, r));
}

/// Component membership, sizes and stored values are functions of the member
/// list and the columns alone: the row list and the free list do not matter.
pub proof fn lemma_values_from_columns(pre: Archetype, post: Archetype)
    requires
        pre.comp_ids@ == post.comp_ids@,
        pre.columns@ == post.columns@,
    ensures
        forall|c: ComponentId| pre.spec_has(c) == post.spec_has(c),
        forall|c: ComponentId| pre.spec_index_of(c) == post.spec_index_of(c),
        forall|c: ComponentId| pre.spec_size_of(c) == post.spec_size_of(c),
        forall|c: ComponentId, r: int| pre.spec_value(c, r) == post.spec_value(c, r),
{
}

} // verus!
