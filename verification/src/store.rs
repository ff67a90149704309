//! Per-type component storage with names and weak references.
//!
//! A [`ComponentStore`] keeps one component type's instances densely,
//! with the same queued add/remove lifecycle as the entity buffer, and
//! adds two things on top: components may carry a *name* — unique at
//! all times — registered in a bidirectional map, and every component
//! has a stable id whose liveness outside observers check through a
//! [`ComponentRef`]. A reference's answer moves from alive to freed at
//! most once and never back.

use vstd::prelude::*;

use crate::bimap::BiMap;
use crate::buffer::EntityBuffer;
use crate::buffer::EntityIndex;
use crate::removal::flushed;
use crate::removal::removal_count;

verus! {

/// A component instance, as the store sees it: all the store itself
/// asks of a component is that it can commit its own staged per-field
/// mutations during flush.
pub trait Component: Sized {
    /// Applies this component's staged field mutations. Called once per
    /// tick during flush, under exclusive access.
    fn flush(&mut self);
}

/// A weak reference to one component: its stable id in its store. Valid
/// to hold across ticks; check [`ComponentStore::is_alive`] before
/// trusting it.
#[derive(Clone, Copy, PartialEq, Eq, Structural)]
pub struct ComponentRef {
    /// The component's stable id.
    pub id: usize,
}

/// The name pairs a batch of staged additions will register: one pair
/// per named addition, binding the name to the id the component gets,
/// `base` plus its position in the batch.
pub open spec fn fresh_name_pairs(pending: Seq<Option<u64>>, base: int) -> Seq<(u64, usize)>
    decreases pending.len(),
{
    if pending.len() == 0 {
        Seq::empty()
    } else {
        let k = pending.len() - 1;
        let rest = fresh_name_pairs(pending.drop_last(), base);
        match pending[k] {
            Option::Some(name) => rest.push((name, (base + k) as usize)),
            Option::None => rest,
        }
    }
}

/// Every fresh pair comes from one staged named addition: its name
/// stands at some batch position, its id is `base` plus that position,
/// and distinct fresh pairs come from distinct positions.
pub proof fn lemma_fresh_name_pairs_shape(pending: Seq<Option<u64>>, base: int)
    requires
        0 <= base,
        base + pending.len() <= usize::MAX,
    ensures
        forall|t: int|
            0 <= t < fresh_name_pairs(pending, base).len() ==> exists|k: int|
                0 <= k < pending.len() && pending[k] == Option::Some(
                    (#[trigger] fresh_name_pairs(pending, base)[t]).0,
                ) && fresh_name_pairs(pending, base)[t].1 == base + k,
        forall|t1: int, t2: int|
            0 <= t1 < t2 < fresh_name_pairs(pending, base).len()
                ==> (#[trigger] fresh_name_pairs(pending, base)[t1]).1 < (
            #[trigger] fresh_name_pairs(pending, base)[t2]).1,
        forall|t: int|
            0 <= t < fresh_name_pairs(pending, base).len() ==> base <= (
            #[trigger] fresh_name_pairs(pending, base)[t]).1 < base + pending.len(),
        fresh_name_pairs(pending, base).len() <= pending.len(),
    decreases pending.len(),
{
    if pending.len() > 0 {
        lemma_fresh_name_pairs_shape(pending.drop_last(), base);
        let rest = fresh_name_pairs(pending.drop_last(), base);
        let whole = fresh_name_pairs(pending, base);
        assert(whole.len() <= pending.len());
        match pending[pending.len() - 1] {
            Option::Some(name) => {
                assert(whole == rest.push((name, (base + pending.len() - 1) as usize)));
                assert((base + pending.len() - 1) as usize as int == base + pending.len() - 1);
                assert forall|t1: int, t2: int| 0 <= t1 < t2 < whole.len() implies (
                #[trigger] whole[t1]).1 < (#[trigger] whole[t2]).1 by {
                    if t2 == whole.len() - 1 {
                        assert(whole[t1] == rest[t1]);
                        assert(rest[t1].1 < base + pending.drop_last().len());
                    } else {
                        assert(whole[t1] == rest[t1] && whole[t2] == rest[t2]);
                    }
                }
                assert forall|t: int| 0 <= t < whole.len() implies exists|k: int|
                    0 <= k < pending.len() && pending[k] == Option::Some(
                        (#[trigger] whole[t]).0,
                    ) && whole[t].1 == base + k by {
                    if t < rest.len() {
                        let k = choose|k: int|
                            0 <= k < pending.drop_last().len() && pending.drop_last()[k]
                                == Option::Some(rest[t].0) && rest[t].1 == base + k;
                        assert(pending[k] == Option::Some(whole[t].0) && whole[t].1 == base + k);
                    } else {
                        assert(pending[pending.len() - 1] == Option::Some(whole[t].0) && whole[t].1
                            == base + (pending.len() - 1));
                    }
                }
            },
            Option::None => {
                assert forall|t: int| 0 <= t < whole.len() implies exists|k: int|
                    0 <= k < pending.len() && pending[k] == Option::Some(
                        (#[trigger] whole[t]).0,
                    ) && whole[t].1 == base + k by {
                    let k = choose|k: int|
                        0 <= k < pending.drop_last().len() && pending.drop_last()[k]
                            == Option::Some(rest[t].0) && rest[t].1 == base + k;
                    assert(pending[k] == Option::Some(whole[t].0) && whole[t].1 == base + k);
                }
            },
        }
    }
}

/// The registered names that survive a flush: those whose components
/// are still live afterwards, in their registration order.
pub open spec fn live_name_pairs(pairs: Seq<(u64, usize)>, cells: Seq<EntityIndex>) -> Seq<
    (u64, usize),
>
    decreases pairs.len(),
{
    if pairs.len() == 0 {
        Seq::empty()
    } else {
        let rest = live_name_pairs(pairs.drop_last(), cells);
        if cells[pairs.last().1 as int] is Alive {
            rest.push(pairs.last())
        } else {
            rest
        }
    }
}

/// Every surviving pair is one of the original pairs, and its component
/// is live.
pub proof fn lemma_live_name_pairs_member(pairs: Seq<(u64, usize)>, cells: Seq<EntityIndex>)
    ensures
        forall|t: int|
            0 <= t < live_name_pairs(pairs, cells).len() ==> pairs.contains(
                #[trigger] live_name_pairs(pairs, cells)[t],
            ) && cells[live_name_pairs(pairs, cells)[t].1 as int] is Alive,
    decreases pairs.len(),
{
    if pairs.len() > 0 {
        lemma_live_name_pairs_member(pairs.drop_last(), cells);
        let rest = live_name_pairs(pairs.drop_last(), cells);
        let whole = live_name_pairs(pairs, cells);
        assert forall|t: int| 0 <= t < whole.len() implies pairs.contains(
            #[trigger] whole[t],
        ) && cells[whole[t].1 as int] is Alive by {
            if t < rest.len() {
                assert(whole[t] == rest[t]);
                let w = choose|w: int|
                    0 <= w < pairs.drop_last().len() && #[trigger] pairs.drop_last()[w] == rest[t];
                assert(pairs[w] == rest[t]);
            } else {
                assert(whole[t] == pairs.last());
                assert(pairs[pairs.len() - 1] == pairs.last());
            }
        }
    }
}

/// Whether a staged name batch claims `name`.
pub open spec fn pending_has_name(pending: Seq<Option<u64>>, name: u64) -> bool {
    exists|k: int| 0 <= k < pending.len() && #[trigger] pending[k] == Option::Some(name)
}

/// Dense storage for one component type, with queued structural
/// changes, unique names, and per-component liveness.
pub struct ComponentStore<T> {
    buffer: EntityBuffer<T>,
    names: BiMap,
    pending_names: Vec<Option<u64>>,
}

impl<T> ComponentStore<T> {
    /// The dense storage underneath, with its ids and liveness cells.
    pub closed spec fn buffer_view(self) -> EntityBuffer<T> {
        self.buffer
    }

    /// The registered name pairs.
    pub closed spec fn names_view(self) -> BiMap {
        self.names
    }

    /// The name of each staged addition, `None` for unnamed ones.
    pub closed spec fn pending_names_seq(self) -> Seq<Option<u64>> {
        self.pending_names@
    }

    /// The storage is consistent; every staged addition has its name
    /// slot; every registered name points at a live component; staged
    /// names are distinct and claim nothing already registered.
    pub open spec fn wf(self) -> bool {
        &&& self.buffer_view().wf()
        &&& self.names_view().wf()
        &&& self.pending_names_seq().len() == self.buffer_view().pending_adds_seq().len()
        &&& forall|i: int|
            0 <= i < self.names_view().pairs_seq().len() ==> (
            #[trigger] self.names_view().pairs_seq()[i]).1 < self.buffer_view().cells_seq().len()
                && self.buffer_view().cells_seq()[self.names_view().pairs_seq()[i].1 as int]
                is Alive
        &&& forall|k1: int, k2: int|
            0 <= k1 < k2 < self.pending_names_seq().len() && #[trigger] self.pending_names_seq()[k1]
                is Some && #[trigger] self.pending_names_seq()[k2] is Some
                ==> self.pending_names_seq()[k1] != self.pending_names_seq()[k2]
        &&& forall|k: int|
            0 <= k < self.pending_names_seq().len() ==> (#[trigger] self.pending_names_seq()[k]
                matches Option::Some(name) ==> !self.names_view().spec_contains_left(name))
    }

    /// Creates an empty store.
    pub fn new() -> (s: Self)
        ensures
            s.wf(),
            s.buffer_view().entities().len() == 0,
            s.buffer_view().cells_seq().len() == 0,
            s.buffer_view().pending_adds_seq().len() == 0,
            s.buffer_view().pending_removes_seq().len() == 0,
            s.names_view().pairs_seq().len() == 0,
    {
        ComponentStore { buffer: EntityBuffer::new(), names: BiMap::new(), pending_names: Vec::new() }
    }

    /// How many components are live.
    pub fn len(&self) -> (n: usize)
        ensures
            n == self.buffer_view().entities().len(),
    {
        self.buffer.len()
    }

    /// The component at a dense index, if that index is in range.
    pub fn get_component_by_index(&self, index: usize) -> (r: Option<&T>)
        ensures
            match r {
                Option::Some(c) => index < self.buffer_view().entities().len() && *c
                    == self.buffer_view().entities()[index as int],
                Option::None => index >= self.buffer_view().entities().len(),
            },
    {
        if index < self.buffer.len() {
            Option::Some(self.buffer.entity_at(index))
        } else {
            Option::None
        }
    }

    /// Mutable access to the component at a dense index, for staging
    /// field mutations against it. The bookkeeping is untouched.
    pub fn get_component_by_index_mut(&mut self, index: usize) -> (c: &mut T)
        requires
            old(self).wf(),
            index < old(self).buffer_view().entities().len(),
        ensures
            final(self).wf(),
            *c == old(self).buffer_view().entities()[index as int],
            final(self).buffer_view().entities() == old(self).buffer_view().entities().update(
                index as int,
                *final(c),
            ),
            final(self).buffer_view().ids_seq() == old(self).buffer_view().ids_seq(),
            final(self).buffer_view().cells_seq() == old(self).buffer_view().cells_seq(),
            final(self).buffer_view().pending_adds_seq().len() == old(
                self,
            ).buffer_view().pending_adds_seq().len(),
            final(self).buffer_view().pending_removes_seq() == old(
                self,
            ).buffer_view().pending_removes_seq(),
            final(self).names_view() == old(self).names_view(),
            final(self).pending_names_seq() == old(self).pending_names_seq(),
    {
        self.buffer.entity_at_mut(index)
    }

    /// Whether the component a reference points at is still live. The
    /// answer moves from true to false at most once, at the flush that
    /// removes the component, and never back.
    pub fn is_alive(&self, r: &ComponentRef) -> (alive: bool)
        ensures
            alive == (r.id < self.buffer_view().cells_seq().len()
                && self.buffer_view().cells_seq()[r.id as int] is Alive),
    {
        if r.id < self.buffer.cells_len() {
            self.buffer.is_alive(r.id)
        } else {
            false
        }
    }

    /// Where the component a reference points at lives right now.
    pub fn ref_cell(&self, r: &ComponentRef) -> (c: EntityIndex)
        requires
            r.id < self.buffer_view().cells_seq().len(),
        ensures
            c == self.buffer_view().cells_seq()[r.id as int],
    {
        self.buffer.cell(r.id)
    }

    /// Stages an unnamed component for addition at the next flush.
    pub fn queue_add_unnamed_component(&mut self, component: T)
        requires
            old(self).wf(),
        ensures
            final(self).wf(),
            final(self).buffer_view().pending_adds_seq() == old(
                self,
            ).buffer_view().pending_adds_seq().push(component),
            final(self).pending_names_seq() == old(self).pending_names_seq().push(Option::None),
            final(self).buffer_view().entities() == old(self).buffer_view().entities(),
            final(self).buffer_view().ids_seq() == old(self).buffer_view().ids_seq(),
            final(self).buffer_view().cells_seq() == old(self).buffer_view().cells_seq(),
            final(self).buffer_view().pending_removes_seq() == old(
                self,
            ).buffer_view().pending_removes_seq(),
            final(self).names_view() == old(self).names_view(),
    {
        self.buffer.queue_add_entity(component);
        self.pending_names.push(Option::None);
    }

    /// Stages a named component for addition. Names must be unique at
    /// all times: if the name is already registered, or already staged
    /// this tick, nothing changes and the component comes back to the
    /// caller.
    pub fn queue_add_named_component(&mut self, component: T, name: u64) -> (r: Result<(), T>)
        requires
            old(self).wf(),
        ensures
            final(self).wf(),
            match r {
                Result::Ok(()) => {
                    &&& !old(self).names_view().spec_contains_left(name)
                    &&& !pending_has_name(old(self).pending_names_seq(), name)
                    &&& final(self).buffer_view().pending_adds_seq() == old(
                        self,
                    ).buffer_view().pending_adds_seq().push(component)
                    &&& final(self).pending_names_seq() == old(self).pending_names_seq().push(
                        Option::Some(name),
                    )
                },
                Result::Err(back) => {
                    &&& back == component
                    &&& (old(self).names_view().spec_contains_left(name) || pending_has_name(
                        old(self).pending_names_seq(),
                        name,
                    ))
                    &&& *final(self) == *old(self)
                },
            },
            final(self).buffer_view().entities() == old(self).buffer_view().entities(),
            final(self).buffer_view().ids_seq() == old(self).buffer_view().ids_seq(),
            final(self).buffer_view().cells_seq() == old(self).buffer_view().cells_seq(),
            final(self).buffer_view().pending_removes_seq() == old(
                self,
            ).buffer_view().pending_removes_seq(),
            final(self).names_view() == old(self).names_view(),
    {
        if self.names.contains_left(name) {
            return Result::Err(component);
        }
        if pending_contains(&self.pending_names, name) {
            return Result::Err(component);
        }
        self.buffer.queue_add_entity(component);
        self.pending_names.push(Option::Some(name));
        proof {
            let p = self.pending_names_seq();
            let p0 = old(self).pending_names_seq();
            assert forall|k1: int, k2: int|
                0 <= k1 < k2 < p.len() && #[trigger] p[k1] is Some && #[trigger] p[k2] is Some
                    implies p[k1] != p[k2] by {
                if k2 == p.len() - 1 {
                    if p[k1] == p[k2] {
                        assert(p0[k1] == Option::Some(name));
                        assert(pending_has_name(p0, name));
                    }
                } else {
                    assert(p[k1] == p0[k1] && p[k2] == p0[k2]);
                }
            }
        }
        Result::Ok(())
    }

    /// Stages the component at `index` for removal at the next flush; an
    /// out-of-range index is a silent no-op, since stale indices are
    /// expected under staging and are not exceptional.
    pub fn queue_free_component(&mut self, index: usize)
        requires
            old(self).wf(),
        ensures
            final(self).wf(),
            final(self).buffer_view().pending_removes_seq() == if index < old(
                self,
            ).buffer_view().entities().len() {
                old(self).buffer_view().pending_removes_seq().push(index)
            } else {
                old(self).buffer_view().pending_removes_seq()
            },
            final(self).buffer_view().entities() == old(self).buffer_view().entities(),
            final(self).buffer_view().ids_seq() == old(self).buffer_view().ids_seq(),
            final(self).buffer_view().cells_seq() == old(self).buffer_view().cells_seq(),
            final(self).buffer_view().pending_adds_seq() == old(
                self,
            ).buffer_view().pending_adds_seq(),
            final(self).pending_names_seq() == old(self).pending_names_seq(),
            final(self).names_view() == old(self).names_view(),
    {
        self.buffer.queue_remove_entity(index);
    }

    /// Flushes the store. First every live component commits its own
    /// staged field mutations. Then the structural changes commit:
    /// distinct valid queued removals apply by swap-removal in strictly
    /// descending index order — marking each removed component's
    /// liveness freed, forever — and the staged additions append with
    /// fresh ids. Finally the names settle: names whose components were
    /// removed are dropped, and each staged named addition registers
    /// its name against its new id.
    pub fn flush(&mut self) where T: Component
        requires
            old(self).wf(),
        ensures
            final(self).wf(),
            final(self).buffer_view().entities().len() == old(self).buffer_view().entities().len()
                - removal_count(
                old(self).buffer_view().pending_removes_seq(),
                old(self).buffer_view().entities().len() as nat,
            ) + old(self).buffer_view().pending_adds_seq().len(),
            final(self).buffer_view().ids_seq() == flushed(
                old(self).buffer_view().ids_seq(),
                old(self).buffer_view().pending_removes_seq(),
                Seq::new(
                    old(self).buffer_view().pending_adds_seq().len(),
                    |k: int| (old(self).buffer_view().cells_seq().len() + k) as usize,
                ),
            ),
            final(self).buffer_view().cells_seq().len() == old(
                self,
            ).buffer_view().cells_seq().len() + old(self).buffer_view().pending_adds_seq().len(),
            crate::buffer::cells_monotone(
                old(self).buffer_view().cells_seq(),
                final(self).buffer_view().cells_seq(),
            ),
            final(self).names_view().pairs_seq() == live_name_pairs(
                old(self).names_view().pairs_seq(),
                final(self).buffer_view().cells_seq(),
            ) + fresh_name_pairs(
                old(self).pending_names_seq(),
                old(self).buffer_view().cells_seq().len() as int,
            ),
            final(self).pending_names_seq().len() == 0,
            final(self).buffer_view().pending_adds_seq().len() == 0,
            final(self).buffer_view().pending_removes_seq().len() == 0,
    {
        let ghost u0 = *old(self);

        // per-component staged-field flush
        let mut i: usize = 0;
        while i < self.buffer.len()
            invariant
                self.buffer_view().wf(),
                self.buffer_view().entities().len() == u0.buffer_view().entities().len(),
                self.buffer_view().ids_seq() == u0.buffer_view().ids_seq(),
                self.buffer_view().cells_seq() == u0.buffer_view().cells_seq(),
                self.buffer_view().pending_adds_seq().len() == u0.buffer_view().pending_adds_seq().len(),
                self.buffer_view().pending_removes_seq() == u0.buffer_view().pending_removes_seq(),
                self.names_view() == u0.names_view(),
                self.pending_names_seq() == u0.pending_names_seq(),
            decreases self.buffer_view().entities().len() - i,
        {
            let c = self.buffer.entity_at_mut(i);
            c.flush();
            i = i + 1;
        }

        let base = self.buffer.cells_len();
        let ghost mid_entities = self.buffer_view().entities();
        let ghost mid_adds = self.buffer_view().pending_adds_seq();
        let pnames = core::mem::replace(&mut self.pending_names, Vec::new());
        self.buffer.commit_structural();
        proof {
            crate::removal::lemma_flushed_len(
                mid_entities,
                u0.buffer_view().pending_removes_seq(),
                mid_adds,
            );
        }
        let cells_now = self.buffer.cells_len();
        let ghost buf_f = self.buffer_view();
        let ghost cells_f = self.buffer_view().cells_seq();
        proof {
            assert(cells_now as int == base + pnames@.len());
            assert(self.buffer_view().cells_seq().len() == cells_now as int);
            assert forall|t: int|
                0 <= t < u0.names_view().pairs_seq().len() implies (
            #[trigger] u0.names_view().pairs_seq()[t]).1 < base as int by {
                assert(u0.names_view().pairs_seq()[t].1 < u0.buffer_view().cells_seq().len());
            }
        }

        // drop the names of removed components
        let ghost names0 = u0.names_view().pairs_seq();
        let ghost mut j: int = 0;
        let mut at: usize = 0;
        proof {
            assert(names0.take(0) =~= Seq::<(u64, usize)>::empty());
            assert(names0.skip(0) =~= names0);
            assert(self.names_view().pairs_seq() =~= live_name_pairs(names0.take(0), cells_f)
                + names0.skip(0));
        }
        while at < self.names.len()
            invariant
                0 <= j <= names0.len(),
                self.names_view().wf(),
                self.names_view().pairs_seq() == live_name_pairs(names0.take(j), cells_f)
                    + names0.skip(j),
                at as int == live_name_pairs(names0.take(j), cells_f).len(),
                self.pending_names_seq().len() == 0,
                forall|t: int|
                    0 <= t < names0.len() ==> (#[trigger] names0[t]).1 < base as int,
                base as int <= cells_f.len(),
                self.buffer_view() == buf_f,
                cells_f == self.buffer_view().cells_seq(),
            decreases self.names_view().pairs_seq().len() - at,
        {
            let p = self.names.pair_at(at);
            proof {
                assert(self.names_view().pairs_seq()[at as int] == names0.skip(j)[0]);
                assert(names0.skip(j)[0] == names0[j]);
                assert(names0.take(j + 1).drop_last() =~= names0.take(j));
                assert(names0.take(j + 1).last() == names0[j]);
            }
            let alive = self.buffer.is_alive(p.1);
            if alive {
                proof {
                    assert(live_name_pairs(names0.take(j + 1), cells_f) == live_name_pairs(
                        names0.take(j),
                        cells_f,
                    ).push(p));
                    assert(self.names_view().pairs_seq() =~= live_name_pairs(
                        names0.take(j + 1),
                        cells_f,
                    ) + names0.skip(j + 1));
                    j = j + 1;
                }
                at = at + 1;
            } else {
                let ghost before = self.names_view().pairs_seq();
                self.names.remove_at(at);
                proof {
                    assert(live_name_pairs(names0.take(j + 1), cells_f) == live_name_pairs(
                        names0.take(j),
                        cells_f,
                    ));
                    assert(self.names_view().pairs_seq() =~= before.remove(at as int));
                    assert(before.remove(at as int) =~= live_name_pairs(names0.take(j + 1), cells_f)
                        + names0.skip(j + 1));
                    j = j + 1;
                }
            }
        }
        proof {
            assert(names0.skip(j).len() == 0);
            assert(j == names0.len());
            assert(names0.take(j) =~= names0);
        }

        // register the staged names against their fresh ids
        let ghost cleaned = self.names_view().pairs_seq();
        proof {
            lemma_fresh_name_pairs_shape(pnames@, base as int);
            assert(pnames@.take(pnames@.len() as int) =~= pnames@);
            assert(pnames@.take(0) =~= Seq::<Option<u64>>::empty());
            assert(fresh_name_pairs(pnames@.take(0), base as int) =~= Seq::<(u64, usize)>::empty());
            assert(cleaned + fresh_name_pairs(pnames@.take(0), base as int) =~= cleaned);
            lemma_live_name_pairs_member(names0, cells_f);
            assert forall|t: int| 0 <= t < cleaned.len() implies (#[trigger] cleaned[t]).1
                < base as int && cells_f[cleaned[t].1 as int] is Alive && names0.contains(
                cleaned[t],
            ) by {
                assert(cleaned == live_name_pairs(names0, cells_f));
                let w = choose|w: int| 0 <= w < names0.len() && #[trigger] names0[w] == cleaned[t];
                assert(names0[w].1 < base as int);
            }
        }
        let mut k: usize = 0;
        while k < pnames.len()
            invariant
                k <= pnames@.len(),
                base + pnames@.len() <= usize::MAX,
                self.names_view().wf(),
                self.names_view().pairs_seq() == cleaned + fresh_name_pairs(
                    pnames@.take(k as int),
                    base as int,
                ),
                forall|t: int|
                    0 <= t < cleaned.len() ==> (#[trigger] cleaned[t]).1 < base as int && cells_f[
                        cleaned[t].1 as int
                    ] is Alive && names0.contains(cleaned[t]),
                forall|t: int|
                    0 <= t < self.names_view().pairs_seq().len()
                        ==> (#[trigger] self.names_view().pairs_seq()[t]).1 < base + k,
                forall|k1: int, k2: int|
                    0 <= k1 < k2 < pnames@.len() && #[trigger] pnames@[k1] is Some
                        && #[trigger] pnames@[k2] is Some ==> pnames@[k1] != pnames@[k2],
                forall|t: int|
                    0 <= t < pnames@.len() ==> (#[trigger] pnames@[t] matches Option::Some(nm)
                        ==> !u0.names_view().spec_contains_left(nm)),
                names0 == u0.names_view().pairs_seq(),
                self.buffer_view() == buf_f,
                cells_f == self.buffer_view().cells_seq(),
                self.pending_names_seq().len() == 0,
            decreases pnames@.len() - k,
        {
            let ghost kk = k as int;
            proof {
                assert(pnames@.take(kk + 1).drop_last() =~= pnames@.take(kk));
                assert(pnames@.take(kk + 1).last() == pnames@[kk]);
            }
            match pnames[k] {
                Option::Some(name) => {
                    proof {
                        let cur = self.names_view().pairs_seq();
                        lemma_fresh_name_pairs_shape(pnames@.take(kk), base as int);
                        assert forall|t: int| 0 <= t < cur.len() implies (#[trigger] cur[t]).0
                            != name && cur[t].1 != base + kk by {
                            if t < cleaned.len() {
                                assert(cur[t] == cleaned[t]);
                                if cur[t].0 == name {
                                    let w = choose|w: int|
                                        0 <= w < names0.len() && names0[w] == cleaned[t];
                                    assert(u0.names_view().spec_contains_left(name));
                                }
                            } else {
                                let fres = fresh_name_pairs(pnames@.take(kk), base as int);
                                assert(cur[t] == fres[t - cleaned.len()]);
                                let w = choose|w: int|
                                    0 <= w < pnames@.take(kk).len() && pnames@.take(kk)[w]
                                        == Option::Some(
                                        (fres[t - cleaned.len()]).0,
                                    ) && fres[t - cleaned.len()].1 == base + w;
                                assert(pnames@[w] == pnames@.take(kk)[w]);
                                if cur[t].0 == name {
                                    assert(pnames@[w] == Option::Some(name));
                                    assert(pnames@[w] == pnames@[kk]);
                                    assert(false);
                                }
                            }
                        }
                        assert(!self.names_view().spec_contains_left(name));
                        assert(!self.names_view().spec_contains_right((base + kk) as usize)) by {
                            if self.names_view().spec_contains_right((base + kk) as usize) {
                                let t = choose|t: int|
                                    0 <= t < cur.len() && #[trigger] cur[t].1 == (base
                                        + kk) as usize;
                                assert(cur[t].1 < base + kk);
                            }
                        }
                    }
                    let id = base + k;
                    self.names.insert(name, id);
                    proof {
                        assert(fresh_name_pairs(pnames@.take(kk + 1), base as int)
                            == fresh_name_pairs(pnames@.take(kk), base as int).push(
                            (name, (base + kk) as usize),
                        ));
                        assert(self.names_view().pairs_seq() =~= cleaned + fresh_name_pairs(
                            pnames@.take(kk + 1),
                            base as int,
                        ));
                    }
                },
                Option::None => {
                    proof {
                        assert(fresh_name_pairs(pnames@.take(kk + 1), base as int)
                            == fresh_name_pairs(pnames@.take(kk), base as int));
                    }
                },
            }
            k = k + 1;
        }

        proof {
            assert(pnames@.take(pnames@.len() as int) =~= pnames@);
            assert(self.names_view().pairs_seq() == cleaned + fresh_name_pairs(
                pnames@,
                base as int,
            ));
            // every surviving or fresh name points at a live component
            let cur = self.names_view().pairs_seq();
            let fres = fresh_name_pairs(pnames@, base as int);
            lemma_fresh_name_pairs_shape(pnames@, base as int);
            let ids_f = self.buffer_view().ids_seq();
            let adds_len = pnames@.len() as int;
            assert forall|w: int| 0 <= w < adds_len implies #[trigger] cells_f[base + w]
                is Alive by {
                let pos = ids_f.len() - adds_len + w;
                assert(ids_f[pos] == (base + w) as usize);
                assert(self.buffer_view().cells_seq()[ids_f[pos] as int] == EntityIndex::Alive(
                    pos as usize,
                ));
            }
            assert forall|t: int| 0 <= t < cur.len() implies (#[trigger] cur[t]).1
                < self.buffer_view().cells_seq().len() && self.buffer_view().cells_seq()[
                cur[t].1 as int
            ] is Alive by {
                if t < cleaned.len() {
                    assert(cur[t] == cleaned[t]);
                } else {
                    assert(cur[t] == fres[t - cleaned.len()]);
                    let w = choose|w: int|
                        0 <= w < pnames@.len() && pnames@[w] == Option::Some(
                            (fres[t - cleaned.len()]).0,
                        ) && fres[t - cleaned.len()].1 == base + w;
                    assert(cells_f[base + w] is Alive);
                }
            }
        }
    }

    /// The live component registered under `name`, as a weak reference.
    pub fn get_component(&self, name: u64) -> (r: Option<ComponentRef>)
        requires
            self.wf(),
        ensures
            match r {
                Option::Some(c) => {
                    &&& self.names_view().spec_get_by_left(name) == Option::Some(c.id)
                    &&& c.id < self.buffer_view().cells_seq().len()
                    &&& self.buffer_view().cells_seq()[c.id as int] is Alive
                },
                Option::None => !self.names_view().spec_contains_left(name),
            },
    {
        match self.names.get_by_left(name) {
            Option::Some(id) => {
                proof {
                    assert(self.names_view().pairs_seq()[self.names_view().left_index_of(name)].1
                        == id);
                }
                Option::Some(ComponentRef { id })
            },
            Option::None => Option::None,
        }
    }
}

/// Splits `len` dense slots into consecutive chunks of at most
/// `chunk_size`, the unit of data-parallel processing: workers take one
/// chunk each, and within a chunk the order is slot order but carries
/// no meaning. The ranges cover `0..len` exactly, in order, without
/// overlap or gap.
pub fn chunk_ranges(len: usize, chunk_size: usize) -> (r: Vec<(usize, usize)>)
    requires
        chunk_size > 0,
    ensures
        forall|k: int|
            0 <= k < r@.len() ==> (#[trigger] r@[k]).0 < r@[k].1 && r@[k].1 <= len && r@[k].1
                - r@[k].0 <= chunk_size,
        forall|k: int| 0 < k < r@.len() ==> (#[trigger] r@[k]).0 == r@[k - 1].1,
        r@.len() == 0 <==> len == 0,
        r@.len() > 0 ==> r@[0].0 == 0 && r@[r@.len() - 1].1 == len,
{
    let mut r: Vec<(usize, usize)> = Vec::new();
    let mut start: usize = 0;
    while start < len
        invariant
            start <= len,
            chunk_size > 0,
            forall|k: int|
                0 <= k < r@.len() ==> (#[trigger] r@[k]).0 < r@[k].1 && r@[k].1 <= len && r@[k].1
                    - r@[k].0 <= chunk_size,
            forall|k: int| 0 < k < r@.len() ==> (#[trigger] r@[k]).0 == r@[k - 1].1,
            r@.len() == 0 ==> start == 0,
            r@.len() > 0 ==> r@[0].0 == 0 && r@[r@.len() - 1].1 == start,
            start > 0 ==> r@.len() > 0,
        decreases len - start,
    {
        let end = if len - start > chunk_size {
            start + chunk_size
        } else {
            len
        };
        r.push((start, end));
        start = end;
    }
    r
}

/// Whether `name` is among the staged names.
fn pending_contains(pending: &Vec<Option<u64>>, name: u64) -> (r: bool)
    ensures
        r == pending_has_name(pending@, name),
{
    let mut i: usize = 0;
    while i < pending.len()
        invariant
            i <= pending@.len(),
            forall|k: int| 0 <= k < i ==> #[trigger] pending@[k] != Option::Some(name),
        decreases pending@.len() - i,
    {
        match pending[i] {
            Option::Some(n) => {
                if n == name {
                    return true;
                }
            },
            Option::None => {},
        }
        i = i + 1;
    }
    false
}

} // verus!
