//! Dense entity storage with a queued add/remove lifecycle.
//!
//! An [`EntityBuffer`] keeps its live entities in one dense array.
//! Structural changes never happen directly: additions and removals are
//! queued, and [`EntityBuffer::flush`] commits them all at once —
//! removals first, by swap-removal in strictly descending index order,
//! then additions appended at the end.
//!
//! Every entity also has an index cell that outlives its position:
//! external holders keep the entity's stable id and look its position up
//! through [`EntityBuffer::cell`]. A cell reads `Alive(i)` while the
//! entity sits at slot `i`, changes to `Alive` of the new slot when a
//! swap-removal moves it, and becomes `Freed` — forever — when the
//! entity is removed. The transitional `Moving` state exists for readers
//! that race a flush; at rest no cell is ever `Moving`.

use vstd::prelude::*;

use crate::entity::Entity;
use crate::removal::descending_valid;
use crate::removal::descending_valid_from;
use crate::removal::flushed;
use crate::removal::lemma_dv_from_removes;
use crate::removal::lemma_dv_from_step;
use crate::removal::lemma_dv_from_zero;
use crate::removal::lemma_swap_remove_all_concat;
use crate::removal::swap_remove_all;
use crate::removal::swap_removed;

verus! {

/// Where an entity is right now, as seen through its stable cell.
#[derive(Clone, Copy, PartialEq, Eq, Structural)]
pub enum EntityIndex {
    /// Mid swap during a flush; a racing reader must retry rather than
    /// trust a stale position.
    Moving,
    /// Definitely at this position in the dense array.
    Alive(usize),
    /// Removed; the slot must never be read as this entity again.
    Freed,
}

/// The cells agree with the dense array: the cell of the entity at slot
/// `i` reads `Alive(i)`, every `Alive` cell points at the slot that
/// carries its id, and no cell is caught `Moving` at rest.
pub open spec fn cells_consistent(ids: Seq<usize>, cells: Seq<EntityIndex>) -> bool {
    &&& forall|i: int|
        0 <= i < ids.len() ==> (#[trigger] ids[i]) < cells.len() && cells[ids[i] as int]
            == EntityIndex::Alive(i as usize)
    &&& forall|j: int|
        0 <= j < cells.len() ==> (#[trigger] cells[j] matches EntityIndex::Alive(k) ==> k
            < ids.len() && ids[k as int] == j as usize)
    &&& forall|j: int| 0 <= j < cells.len() ==> !(#[trigger] cells[j] is Moving)
}

/// Freed-flag monotonicity: cells only grow in number, and a cell that
/// reads `Freed` reads `Freed` forever — a dead reference never comes
/// back to life, and an index is never reused for another entity.
pub open spec fn cells_monotone(before: Seq<EntityIndex>, after: Seq<EntityIndex>) -> bool {
    &&& before.len() <= after.len()
    &&& forall|j: int| 0 <= j < before.len() && before[j] is Freed ==> #[trigger] after[j] is Freed
}

/// Monotonicity composes: across any chain of flushes, a cell that was
/// ever freed stays freed — liveness reverses at no point of a run.
pub proof fn lemma_cells_monotone_trans(
    a: Seq<EntityIndex>,
    b: Seq<EntityIndex>,
    c: Seq<EntityIndex>,
)
    requires
        cells_monotone(a, b),
        cells_monotone(b, c),
    ensures
        cells_monotone(a, c),
{
    assert forall|j: int| 0 <= j < a.len() && a[j] is Freed implies #[trigger] c[j] is Freed by {
        assert(b[j] is Freed);
    }
}

/// Dense storage for entities of one shape, with queued structural
/// changes and per-entity index cells.
pub struct EntityBuffer<E> {
    entries: Vec<E>,
    ids: Vec<usize>,
    cells: Vec<EntityIndex>,
    pending_adds: Vec<E>,
    pending_removes: Vec<usize>,
}

impl<E> EntityBuffer<E> {
    /// The live entities, in slot order.
    pub closed spec fn entities(self) -> Seq<E> {
        self.entries@
    }

    /// The stable id of the entity in each slot.
    pub closed spec fn ids_seq(self) -> Seq<usize> {
        self.ids@
    }

    /// Every cell ever handed out, indexed by stable id.
    pub closed spec fn cells_seq(self) -> Seq<EntityIndex> {
        self.cells@
    }

    /// The entities queued for addition.
    pub closed spec fn pending_adds_seq(self) -> Seq<E> {
        self.pending_adds@
    }

    /// The slot indices queued for removal.
    pub closed spec fn pending_removes_seq(self) -> Seq<usize> {
        self.pending_removes@
    }

    /// Every slot has an id, and ids and cells agree.
    pub open spec fn wf(self) -> bool {
        &&& self.ids_seq().len() == self.entities().len()
        &&& cells_consistent(self.ids_seq(), self.cells_seq())
    }

    /// Creates an empty buffer.
    pub fn new() -> (b: Self)
        ensures
            b.wf(),
            b.entities().len() == 0,
            b.cells_seq().len() == 0,
            b.pending_adds_seq().len() == 0,
            b.pending_removes_seq().len() == 0,
    {
        EntityBuffer {
            entries: Vec::new(),
            ids: Vec::new(),
            cells: Vec::new(),
            pending_adds: Vec::new(),
            pending_removes: Vec::new(),
        }
    }

    /// How many entities are live.
    pub fn len(&self) -> (n: usize)
        ensures
            n == self.entities().len(),
    {
        self.entries.len()
    }

    /// The entity at a slot.
    pub fn entity_at(&self, i: usize) -> (e: &E)
        requires
            i < self.entities().len(),
        ensures
            *e == self.entities()[i as int],
    {
        &self.entries[i]
    }

    /// How many stable ids have ever been handed out.
    pub fn cells_len(&self) -> (n: usize)
        ensures
            n == self.cells_seq().len(),
    {
        self.cells.len()
    }

    /// Mutable access to the entity at a slot, for flushing its staged
    /// fields in place. The id and cell bookkeeping is untouched.
    pub fn entity_at_mut(&mut self, i: usize) -> (e: &mut E)
        requires
            i < old(self).entities().len(),
        ensures
            *e == old(self).entities()[i as int],
            final(self).entities() == old(self).entities().update(i as int, *final(e)),
            final(self).ids_seq() == old(self).ids_seq(),
            final(self).cells_seq() == old(self).cells_seq(),
            final(self).pending_adds_seq() == old(self).pending_adds_seq(),
            final(self).pending_removes_seq() == old(self).pending_removes_seq(),
    {
        let e = &mut self.entries[i];
        e
    }

    /// The stable id of the entity at a slot.
    pub fn id_at(&self, i: usize) -> (id: usize)
        requires
            i < self.ids_seq().len(),
        ensures
            id == self.ids_seq()[i as int],
    {
        self.ids[i]
    }

    /// The cell of the entity with stable id `id`: where that entity is
    /// now, or `Freed` if it is gone.
    pub fn cell(&self, id: usize) -> (c: EntityIndex)
        requires
            id < self.cells_seq().len(),
        ensures
            c == self.cells_seq()[id as int],
    {
        self.cells[id]
    }

    /// Whether the entity with stable id `id` is still live.
    pub fn is_alive(&self, id: usize) -> (r: bool)
        requires
            id < self.cells_seq().len(),
        ensures
            r == (self.cells_seq()[id as int] is Alive),
    {
        match self.cells[id] {
            EntityIndex::Alive(i) => true,
            EntityIndex::Moving => false,
            EntityIndex::Freed => false,
        }
    }

    /// Queues an entity for addition; it joins the dense array at the
    /// next flush.
    pub fn queue_add_entity(&mut self, entity: E)
        ensures
            final(self).pending_adds_seq() == old(self).pending_adds_seq().push(entity),
            final(self).entities() == old(self).entities(),
            final(self).ids_seq() == old(self).ids_seq(),
            final(self).cells_seq() == old(self).cells_seq(),
            final(self).pending_removes_seq() == old(self).pending_removes_seq(),
    {
        self.pending_adds.push(entity);
    }

    /// Queues a whole batch of entities for addition, in order.
    pub fn extend_pending(&mut self, adds: Vec<E>)
        ensures
            final(self).pending_adds_seq() == old(self).pending_adds_seq() + adds@,
            final(self).entities() == old(self).entities(),
            final(self).ids_seq() == old(self).ids_seq(),
            final(self).cells_seq() == old(self).cells_seq(),
            final(self).pending_removes_seq() == old(self).pending_removes_seq(),
    {
        let mut adds = adds;
        self.pending_adds.append(&mut adds);
    }

    /// Queues the entity at `index` for removal at the next flush. An
    /// index that is out of range right now is silently ignored, since
    /// stale references are expected and harmless.
    pub fn queue_remove_entity(&mut self, index: usize)
        ensures
            final(self).pending_removes_seq() == if index < old(self).entities().len() {
                old(self).pending_removes_seq().push(index)
            } else {
                old(self).pending_removes_seq()
            },
            final(self).entities() == old(self).entities(),
            final(self).ids_seq() == old(self).ids_seq(),
            final(self).cells_seq() == old(self).cells_seq(),
            final(self).pending_adds_seq() == old(self).pending_adds_seq(),
    {
        if index < self.entries.len() {
            self.pending_removes.push(index);
        }
    }

    /// One swap-removal: the cell of the removed entity becomes `Freed`;
    /// if another entity moves into the freed slot, its cell is marked
    /// `Moving` for the duration of the swap and then points at its new
    /// position. No other cell changes.
    fn remove_one(&mut self, idx: usize)
        requires
            old(self).wf(),
            idx < old(self).entities().len(),
        ensures
            final(self).wf(),
            final(self).entities() == swap_removed(old(self).entities(), idx as int),
            final(self).ids_seq() == swap_removed(old(self).ids_seq(), idx as int),
            final(self).cells_seq().len() == old(self).cells_seq().len(),
            final(self).cells_seq()[old(self).ids_seq()[idx as int] as int] is Freed,
            forall|j: int|
                0 <= j < old(self).cells_seq().len() && old(self).cells_seq()[j] is Freed
                    ==> final(self).cells_seq()[j] is Freed,
            final(self).pending_adds_seq() == old(self).pending_adds_seq(),
            final(self).pending_removes_seq() == old(self).pending_removes_seq(),
    {
        let ghost pre_entries = self.entities();
        let ghost pre_ids = self.ids_seq();
        let ghost pre_cells = self.cells_seq();
        let cells_len = self.cells.len();
        let removed_id = self.ids[idx];
        set_cell(&mut self.cells, removed_id, EntityIndex::Freed);
        let last_slot = self.entries.len() - 1;
        if idx == last_slot {
            self.entries.pop();
            self.ids.pop();
            proof {
                assert(self.entities() =~= swap_removed(pre_entries, idx as int));
                assert(self.ids_seq() =~= swap_removed(pre_ids, idx as int));
            }
        } else {
            let moving_id = self.ids[last_slot];
            proof {
                assert(pre_cells[removed_id as int] == EntityIndex::Alive(idx));
                assert(pre_cells[moving_id as int] == EntityIndex::Alive(last_slot));
                assert(moving_id != removed_id);
            }
            set_cell(&mut self.cells, moving_id, EntityIndex::Moving);
            self.entries.swap_remove(idx);
            self.ids.swap_remove(idx);
            set_cell(&mut self.cells, moving_id, EntityIndex::Alive(idx));
            proof {
                assert(self.entities() == swap_removed(pre_entries, idx as int));
                assert(self.ids_seq() == swap_removed(pre_ids, idx as int));
            }
        }
        proof {
            let ids2 = self.ids_seq();
            let cells2 = self.cells_seq();
            assert(ids2.len() == pre_ids.len() - 1);
            assert forall|i: int| 0 <= i < ids2.len() implies (#[trigger] ids2[i])
                < cells2.len() && cells2[ids2[i] as int] == EntityIndex::Alive(i as usize) by {
                if i == idx as int {
                    assert(ids2[i] == pre_ids[pre_ids.len() - 1]);
                } else {
                    assert(ids2[i] == pre_ids[i]);
                    assert(pre_cells[ids2[i] as int] == EntityIndex::Alive(i as usize));
                    assert(pre_ids[i] != removed_id) by {
                        assert(pre_cells[pre_ids[i] as int] == EntityIndex::Alive(i as usize));
                    }
                    if idx != last_slot {
                        assert(pre_ids[i] != pre_ids[last_slot as int]) by {
                            assert(pre_cells[pre_ids[i] as int] == EntityIndex::Alive(i as usize));
                            assert(pre_cells[pre_ids[last_slot as int] as int]
                                == EntityIndex::Alive(last_slot));
                        }
                    }
                }
            }
            assert forall|j: int| 0 <= j < cells2.len() implies (#[trigger] cells2[j] matches
                EntityIndex::Alive(k) ==> k < ids2.len() && ids2[k as int] == j as usize) by {
                assert(cells2.len() == cells_len as int);
                if cells2[j] is Alive {
                    let k = cells2[j]->Alive_0;
                    if j == removed_id as int {
                    } else if idx != last_slot && j == pre_ids[last_slot as int] as int {
                        assert(cells2[j] == EntityIndex::Alive(idx));
                        assert(ids2[idx as int] == pre_ids[last_slot as int]);
                    } else {
                        assert(cells2[j] == pre_cells[j]);
                        assert(pre_cells[j] == EntityIndex::Alive(k));
                        assert(k < pre_ids.len() && pre_ids[k as int] == j as usize);
                        assert((j as usize) as int == j);
                        assert(pre_cells[pre_ids[idx as int] as int] == EntityIndex::Alive(idx));
                        assert(pre_cells[pre_ids[last_slot as int] as int] == EntityIndex::Alive(
                            last_slot,
                        ));
                        assert(k as int != idx) by {
                            if k as int == idx {
                                assert(pre_ids[idx as int] == j as usize);
                                assert(removed_id as int == j);
                            }
                        }
                        assert(k as int != last_slot as int) by {
                            if k as int == last_slot as int {
                                assert(pre_ids[last_slot as int] == j as usize);
                            }
                        }
                        assert(ids2[k as int] == pre_ids[k as int]);
                    }
                }
            }
        }
    }

    /// Commits every queued structural change: valid queued removals are
    /// applied by swap-removal in strictly descending index order — so no
    /// removal can invalidate an index scheduled after it — and every
    /// queued addition is then appended with a fresh id and a live cell.
    /// Freed cells stay freed forever.
    pub fn commit_structural(&mut self)
        requires
            old(self).wf(),
        ensures
            final(self).wf(),
            final(self).entities() == flushed(
                old(self).entities(),
                old(self).pending_removes_seq(),
                old(self).pending_adds_seq(),
            ),
            final(self).ids_seq() == flushed(
                old(self).ids_seq(),
                old(self).pending_removes_seq(),
                Seq::new(
                    old(self).pending_adds_seq().len(),
                    |k: int| (old(self).cells_seq().len() + k) as usize,
                ),
            ),
            final(self).cells_seq().len() == old(self).cells_seq().len() + old(
                self,
            ).pending_adds_seq().len(),
            cells_monotone(old(self).cells_seq(), final(self).cells_seq()),
            final(self).pending_adds_seq().len() == 0,
            final(self).pending_removes_seq().len() == 0,
    {
        let ghost s0 = self.entities();
        let ghost ids0 = self.ids_seq();
        let ghost cells0 = self.cells_seq();
        let ghost q = self.pending_removes_seq();
        let len0 = self.entries.len();

        let mut idx: usize = len0;
        while idx > 0
            invariant
                idx <= len0,
                len0 == s0.len(),
                self.pending_removes_seq() == q,
                self.pending_adds_seq() == old(self).pending_adds_seq(),
                self.entities() == swap_remove_all(
                    s0,
                    descending_valid_from(q, len0 as nat, idx as nat),
                ),
                self.ids_seq() == swap_remove_all(
                    ids0,
                    descending_valid_from(q, len0 as nat, idx as nat),
                ),
                ids0.len() == s0.len(),
                self.cells_seq().len() == cells0.len(),
                self.ids_seq().len() == self.entities().len(),
                cells_consistent(self.ids_seq(), self.cells_seq()),
                forall|j: int|
                    0 <= j < cells0.len() && cells0[j] is Freed ==> self.cells_seq()[j] is Freed,
            decreases idx,
        {
            idx = idx - 1;
            let ghost dvp = descending_valid_from(q, len0 as nat, (idx + 1) as nat);
            let ghost dvn = descending_valid_from(q, len0 as nat, idx as nat);
            proof {
                lemma_dv_from_step(q, len0 as nat, idx as nat);
                lemma_dv_from_removes(s0, q, len0 as nat, (idx + 1) as nat);
                lemma_dv_from_removes(ids0, q, len0 as nat, (idx + 1) as nat);
            }
            if contains_index(&self.pending_removes, idx) {
                proof {
                    assert(dvn == dvp + seq![idx as int]);
                    lemma_swap_remove_all_concat(s0, dvp, seq![idx as int]);
                    lemma_swap_remove_all_concat(ids0, dvp, seq![idx as int]);
                    assert(seq![idx as int].skip(1) =~= Seq::<int>::empty());
                    crate::removal::lemma_dv_from_props(q, len0 as nat, (idx + 1) as nat);
                    assert(self.entities().len() == len0 - dvp.len());
                    assert(self.entities().len() > idx);
                }
                let ghost cells_pre = self.cells_seq();
                let ghost base = swap_remove_all(s0, dvp);
                let ghost based = swap_remove_all(ids0, dvp);
                self.remove_one(idx);
                proof {
                    assert(seq![idx as int][0] == idx as int);
                    assert(swap_remove_all(swap_removed(base, idx as int), Seq::<int>::empty())
                        == swap_removed(base, idx as int));
                    assert(swap_remove_all(base, seq![idx as int]) == swap_removed(
                        base,
                        idx as int,
                    ));
                    assert(swap_remove_all(swap_removed(based, idx as int), Seq::<int>::empty())
                        == swap_removed(based, idx as int));
                    assert(swap_remove_all(based, seq![idx as int]) == swap_removed(
                        based,
                        idx as int,
                    ));
                    assert forall|j: int|
                        0 <= j < cells0.len() && cells0[j] is Freed implies self.cells_seq()[j]
                        is Freed by {
                        assert(cells_pre[j] is Freed);
                    }
                }
            } else {
                proof {
                    assert(dvn =~= dvp);
                }
            }
        }
        proof {
            lemma_dv_from_zero(q, len0 as nat);
        }

        self.pending_removes.clear();

        let ghost base_entries = self.entities();
        let ghost base_ids = self.ids_seq();
        let ghost mid_cells = self.cells_seq();
        let ghost adds0 = self.pending_adds_seq();
        let mut adds = core::mem::replace(&mut self.pending_adds, Vec::new());
        let ghost total = adds0.len();
        proof {
            assert(adds0.skip(0) =~= adds0);
        }
        while adds.len() > 0
            invariant
                total == adds0.len(),
                adds@ == adds0.skip(total - adds@.len()),
                adds@.len() <= total,
                self.entities() == base_entries + adds0.take(total - adds@.len()),
                self.ids_seq() == base_ids + Seq::new(
                    (total - adds@.len()) as nat,
                    |k: int| (cells0.len() + k) as usize,
                ),
                self.cells_seq().len() == cells0.len() + (total - adds@.len()),
                base_ids.len() == base_entries.len(),
                self.ids_seq().len() == self.entities().len(),
                cells_consistent(self.ids_seq(), self.cells_seq()),
                forall|j: int|
                    0 <= j < cells0.len() ==> self.cells_seq()[j] == mid_cells[j],
                forall|j: int|
                    0 <= j < cells0.len() && cells0[j] is Freed ==> self.cells_seq()[j] is Freed,
                self.pending_adds_seq().len() == 0,
                self.pending_removes_seq().len() == 0,
            decreases adds@.len(),
        {
            let ghost pre = adds@;
            let ghost done = total - pre.len();
            let a = adds.remove(0);
            proof {
                assert(pre == adds0.skip(done as int));
                assert(pre[0] == adds0[done as int]);
                assert(a == adds0[done as int]);
                assert(adds@ =~= pre.skip(1));
                assert(pre.skip(1) =~= adds0.skip(done + 1));
            }
            let id = self.cells.len();
            let slot = self.entries.len();
            self.entries.push(a);
            self.ids.push(id);
            self.cells.push(EntityIndex::Alive(slot));
            proof {
                assert(self.entities() =~= base_entries + adds0.take(done + 1));
                assert(self.ids_seq() =~= base_ids + Seq::new(
                    (done + 1) as nat,
                    |k: int| (cells0.len() + k) as usize,
                ));
            }
        }
        proof {
            assert(adds0.take(total as int) =~= adds0);
            assert(self.entities() == flushed(s0, q, adds0));
            assert(self.ids_seq() =~= flushed(
                ids0,
                q,
                Seq::new(adds0.len(), |k: int| (cells0.len() + k) as usize),
            ));
        }
    }

    /// Flushes the buffer: first every live entity commits its own
    /// staged per-field mutations, then every queued structural change
    /// is committed as in [`EntityBuffer::commit_structural`]. The id
    /// and cell bookkeeping is untouched by the entities' own flushes,
    /// so it is pinned down exactly; the number of live entities
    /// afterwards is the previous count, minus the distinct valid
    /// queued removals, plus the queued additions.
    pub fn flush<S, X>(&mut self)
        where E: Entity<S, X>
        requires
            old(self).wf(),
        ensures
            final(self).wf(),
            final(self).entities().len() == old(self).entities().len()
                - crate::removal::removal_count(
                old(self).pending_removes_seq(),
                old(self).entities().len() as nat,
            ) + old(self).pending_adds_seq().len(),
            final(self).ids_seq() == flushed(
                old(self).ids_seq(),
                old(self).pending_removes_seq(),
                Seq::new(
                    old(self).pending_adds_seq().len(),
                    |k: int| (old(self).cells_seq().len() + k) as usize,
                ),
            ),
            final(self).cells_seq().len() == old(self).cells_seq().len() + old(
                self,
            ).pending_adds_seq().len(),
            cells_monotone(old(self).cells_seq(), final(self).cells_seq()),
            final(self).pending_adds_seq().len() == 0,
            final(self).pending_removes_seq().len() == 0,
    {
        let mut i: usize = 0;
        while i < self.entries.len()
            invariant
                self.entities().len() == old(self).entities().len(),
                self.ids_seq() == old(self).ids_seq(),
                self.cells_seq() == old(self).cells_seq(),
                self.pending_adds_seq() == old(self).pending_adds_seq(),
                self.pending_removes_seq() == old(self).pending_removes_seq(),
                cells_consistent(self.ids_seq(), self.cells_seq()),
            decreases self.entities().len() - i,
        {
            let e = &mut self.entries[i];
            e.flush();
            i = i + 1;
        }
        proof {
            crate::removal::lemma_flushed_len(
                self.entities(),
                self.pending_removes_seq(),
                self.pending_adds_seq(),
            );
        }
        self.commit_structural();
    }
}

/// Whether `x` occurs in `v`.
fn contains_index(v: &Vec<usize>, x: usize) -> (r: bool)
    ensures
        r == v@.contains(x),
{
    let mut i: usize = 0;
    while i < v.len()
        invariant
            i <= v@.len(),
            forall|j: int| 0 <= j < i ==> v@[j] != x,
        decreases v@.len() - i,
    {
        if v[i] == x {
            return true;
        }
        i = i + 1;
    }
    false
}

/// Overwrites one cell.
fn set_cell(cells: &mut Vec<EntityIndex>, i: usize, v: EntityIndex)
    requires
        i < old(cells).len(),
    ensures
        final(cells)@ == old(cells)@.update(i as int, v),
{
    let c = &mut cells[i];
    *c = v;
}

} // verus!
