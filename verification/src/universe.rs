//! The scheduler: one universe, ticked in two phases.
//!
//! A [`Universe`] owns the dense entity buffer and the singleton
//! registry. One tick runs *process* over every entity and singleton —
//! read-only user logic that stages all mutation on an [`Effects`]
//! capability — and then, unless an exit was requested during process,
//! runs *flush*: staged per-field mutations commit, staged removals and
//! additions compact and grow the buffer, and staged singleton
//! replacements merge into the registry. An exit request short-circuits
//! the tick: flush is skipped and everything staged in that tick is
//! discarded.

use vstd::prelude::*;

use crate::buffer::EntityBuffer;
use crate::entity::Entity;
use crate::registry::UniqueTypeSet;

verus! {

/// A process-wide value, one per key, replaced wholesale on overwrite.
/// Implementations are user logic; the runtime promises nothing about
/// what they do, only when they run.
pub trait Singleton<E, X>: Sized {
    /// One tick of user logic; all mutation is staged through `fx`.
    fn process(&self, fx: &mut Effects<E, Self, X>);

    /// Commits whatever this singleton staged internally. Runs during
    /// flush, under exclusive access.
    fn flush(&mut self);
}

/// The staging capability handed to user logic during the process phase.
/// Everything queued here is applied at the tick's flush — or discarded
/// wholesale if the tick exits early.
pub struct Effects<E, S, X> {
    delta_nanos: u64,
    adds: Vec<E>,
    removes: Vec<usize>,
    singleton_sets: Vec<(u64, S)>,
    exit: Option<Result<(), X>>,
}

impl<E, S, X> Effects<E, S, X> {
    /// The tick delta visible to this tick's process calls, in
    /// nanoseconds.
    pub closed spec fn delta(self) -> u64 {
        self.delta_nanos
    }

    /// The entities staged for addition, oldest first.
    pub closed spec fn adds_seq(self) -> Seq<E> {
        self.adds@
    }

    /// The buffer indices staged for removal.
    pub closed spec fn removes_seq(self) -> Seq<usize> {
        self.removes@
    }

    /// The singleton replacements staged this tick.
    pub closed spec fn singleton_sets_seq(self) -> Seq<(u64, S)> {
        self.singleton_sets@
    }

    /// The exit request staged this tick, if any.
    pub closed spec fn exit_result(self) -> Option<Result<(), X>> {
        self.exit
    }

    /// A fresh stage for one tick.
    pub fn new(delta_nanos: u64) -> (fx: Self)
        ensures
            fx.delta() == delta_nanos,
            fx.adds_seq().len() == 0,
            fx.removes_seq().len() == 0,
            fx.singleton_sets_seq().len() == 0,
            fx.exit_result() is None,
    {
        Effects {
            delta_nanos,
            adds: Vec::new(),
            removes: Vec::new(),
            singleton_sets: Vec::new(),
            exit: Option::None,
        }
    }

    /// The current tick's delta, in nanoseconds.
    pub fn get_delta(&self) -> (d: u64)
        ensures
            d == self.delta(),
    {
        self.delta_nanos
    }

    /// Stages an entity for addition; it becomes visible after this
    /// tick's flush.
    pub fn queue_add_entity(&mut self, entity: E)
        ensures
            final(self).adds_seq() == old(self).adds_seq().push(entity),
            final(self).delta() == old(self).delta(),
            final(self).removes_seq() == old(self).removes_seq(),
            final(self).singleton_sets_seq() == old(self).singleton_sets_seq(),
            final(self).exit_result() == old(self).exit_result(),
    {
        self.adds.push(entity);
    }

    /// Stages the entity at `index` for removal at this tick's flush.
    /// An index that is stale by then is ignored there; queueing the
    /// same index twice is the same as queueing it once.
    pub fn queue_remove_entity(&mut self, index: usize)
        ensures
            final(self).removes_seq() == old(self).removes_seq().push(index),
            final(self).delta() == old(self).delta(),
            final(self).adds_seq() == old(self).adds_seq(),
            final(self).singleton_sets_seq() == old(self).singleton_sets_seq(),
            final(self).exit_result() == old(self).exit_result(),
    {
        self.removes.push(index);
    }

    /// Stages a singleton replacement under `key`; it replaces — never
    /// merges with — whatever the registry holds, and becomes visible
    /// from the next tick's process phase onward.
    pub fn queue_set_singleton(&mut self, key: u64, singleton: S)
        ensures
            final(self).singleton_sets_seq() == old(self).singleton_sets_seq().push(
                (key, singleton),
            ),
            final(self).delta() == old(self).delta(),
            final(self).adds_seq() == old(self).adds_seq(),
            final(self).removes_seq() == old(self).removes_seq(),
            final(self).exit_result() == old(self).exit_result(),
    {
        self.singleton_sets.push((key, singleton));
    }

    /// Requests a successful exit: the current tick finishes its process
    /// phase, skips flush, and the loop returns.
    pub fn exit_ok(&mut self)
        ensures
            final(self).exit_result() == Option::Some(Result::<(), X>::Ok(())),
            final(self).delta() == old(self).delta(),
            final(self).adds_seq() == old(self).adds_seq(),
            final(self).removes_seq() == old(self).removes_seq(),
            final(self).singleton_sets_seq() == old(self).singleton_sets_seq(),
    {
        self.exit = Option::Some(Result::Ok(()));
    }

    /// Requests an exit carrying an error, surfaced unchanged to the
    /// caller of the loop.
    pub fn exit_err(&mut self, error: X)
        ensures
            final(self).exit_result() == Option::Some(Result::<(), X>::Err(error)),
            final(self).delta() == old(self).delta(),
            final(self).adds_seq() == old(self).adds_seq(),
            final(self).removes_seq() == old(self).removes_seq(),
            final(self).singleton_sets_seq() == old(self).singleton_sets_seq(),
    {
        self.exit = Option::Some(Result::Err(error));
    }
}

/// How many ticks a loop should drive.
pub enum LoopCount {
    /// Keep ticking until an exit is requested.
    Forever,
    /// Tick exactly this many times, unless an exit comes first.
    Count(usize),
}

/// Where a tick's delta comes from.
pub enum DeltaStrategy {
    /// Every tick sees this fabricated delta, in nanoseconds.
    FakeDelta(u64),
    /// Deltas are measured from the driver's clock; the payload is the
    /// target tick duration in nanoseconds, zero for uncapped.
    RealDelta(u64),
}

/// The loop's window to real time: a monotonic clock and a way to wait.
/// Implementations live with the embedding application; the runtime
/// promises nothing about what they return, and every measured-delta
/// computation is verified for all possible readings.
pub trait TickDriver {
    /// Nanoseconds elapsed since some fixed origin.
    fn elapsed_nanos(&mut self) -> u64;

    /// Sleeps for about this many nanoseconds.
    fn sleep_nanos(&mut self, nanos: u64);
}

/// A driver for fabricated-delta runs: the clock never advances and the
/// sleep returns at once.
pub struct StillDriver {

}

impl TickDriver for StillDriver {
    fn elapsed_nanos(&mut self) -> u64 {
        0
    }

    fn sleep_nanos(&mut self, nanos: u64) {
    }
}

/// The scheduler: the dense entity buffer, the singleton registry with
/// its staging area, the current tick delta, and a counter of completed
/// ticks.
pub struct Universe<E, S> {
    buffer: EntityBuffer<E>,
    singletons: UniqueTypeSet<S>,
    pending_singletons: Vec<(u64, S)>,
    delta_nanos: u64,
    ticks: u64,
}

impl<E, S> Universe<E, S> {
    /// The entity buffer, with its live contents and staged changes.
    pub closed spec fn buffer_view(self) -> EntityBuffer<E> {
        self.buffer
    }

    /// The live singleton registry.
    pub closed spec fn singletons_view(self) -> UniqueTypeSet<S> {
        self.singletons
    }

    /// Singleton replacements staged for the next tick boundary.
    pub closed spec fn pending_singletons_seq(self) -> Seq<(u64, S)> {
        self.pending_singletons@
    }

    /// The current tick delta, in nanoseconds.
    pub closed spec fn delta(self) -> u64 {
        self.delta_nanos
    }

    /// How many ticks have completed both phases.
    pub closed spec fn ticks(self) -> u64 {
        self.ticks
    }

    /// The buffer and the registry are internally consistent.
    pub open spec fn wf(self) -> bool {
        &&& self.buffer_view().wf()
        &&& self.singletons_view().wf()
    }

    /// Creates an empty universe, ready for immediate use.
    pub fn new() -> (u: Self)
        ensures
            u.wf(),
            u.buffer_view().entities().len() == 0,
            u.buffer_view().pending_adds_seq().len() == 0,
            u.buffer_view().pending_removes_seq().len() == 0,
            u.singletons_view().entries_seq().len() == 0,
            u.pending_singletons_seq().len() == 0,
            u.delta() == 0,
            u.ticks() == 0,
    {
        Universe {
            buffer: EntityBuffer::new(),
            singletons: UniqueTypeSet::new(),
            pending_singletons: Vec::new(),
            delta_nanos: 0,
            ticks: 0,
        }
    }

    /// The current tick's delta, in nanoseconds.
    pub fn get_delta(&self) -> (d: u64)
        ensures
            d == self.delta(),
    {
        self.delta_nanos
    }

    /// How many ticks have completed both phases.
    pub fn tick_count(&self) -> (n: u64)
        ensures
            n == self.ticks(),
    {
        self.ticks
    }

    /// How many entities are live.
    pub fn entities_len(&self) -> (n: usize)
        ensures
            n == self.buffer_view().entities().len(),
    {
        self.buffer.len()
    }

    /// The entity at a slot, for walking the live contents between ticks.
    pub fn entity_at(&self, i: usize) -> (e: &E)
        requires
            i < self.buffer_view().entities().len(),
        ensures
            *e == self.buffer_view().entities()[i as int],
    {
        self.buffer.entity_at(i)
    }

    /// The index cell of the entity with stable id `id`.
    pub fn entity_cell(&self, id: usize) -> (c: crate::buffer::EntityIndex)
        requires
            id < self.buffer_view().cells_seq().len(),
        ensures
            c == self.buffer_view().cells_seq()[id as int],
    {
        self.buffer.cell(id)
    }

    /// Queues an entity for addition; it is visible after the next flush.
    pub fn queue_add_entity(&mut self, entity: E)
        ensures
            final(self).buffer_view().pending_adds_seq() == old(self).buffer_view().pending_adds_seq().push(entity),
            final(self).buffer_view().entities() == old(self).buffer_view().entities(),
            final(self).buffer_view().ids_seq() == old(self).buffer_view().ids_seq(),
            final(self).buffer_view().cells_seq() == old(self).buffer_view().cells_seq(),
            final(self).buffer_view().pending_removes_seq() == old(self).buffer_view().pending_removes_seq(),
            final(self).singletons_view() == old(self).singletons_view(),
            final(self).pending_singletons_seq() == old(self).pending_singletons_seq(),
            final(self).delta() == old(self).delta(),
            final(self).ticks() == old(self).ticks(),
    {
        self.buffer.queue_add_entity(entity);
    }

    /// Queues the entity at `index` for removal at the next flush; a
    /// stale index is a silent no-op.
    pub fn queue_remove_entity(&mut self, index: usize)
        ensures
            final(self).buffer_view().pending_removes_seq() == if index < old(self).buffer_view().entities().len() {
                old(self).buffer_view().pending_removes_seq().push(index)
            } else {
                old(self).buffer_view().pending_removes_seq()
            },
            final(self).buffer_view().entities() == old(self).buffer_view().entities(),
            final(self).buffer_view().ids_seq() == old(self).buffer_view().ids_seq(),
            final(self).buffer_view().cells_seq() == old(self).buffer_view().cells_seq(),
            final(self).buffer_view().pending_adds_seq() == old(self).buffer_view().pending_adds_seq(),
            final(self).singletons_view() == old(self).singletons_view(),
            final(self).pending_singletons_seq() == old(self).pending_singletons_seq(),
            final(self).delta() == old(self).delta(),
            final(self).ticks() == old(self).ticks(),
    {
        self.buffer.queue_remove_entity(index);
    }

    /// The singleton under `key`, if one is registered.
    pub fn try_get_singleton(&self, key: u64) -> (r: Option<&S>)
        requires
            self.wf(),
        ensures
            match r {
                Option::Some(s) => self.singletons_view().spec_get(key) == Option::Some(*s),
                Option::None => !self.singletons_view().spec_contains(key),
            },
    {
        self.singletons.get(key)
    }

    /// The singleton under `key`. Callers must know it is registered;
    /// use [`Universe::try_get_singleton`] when that is not certain.
    pub fn get_singleton(&self, key: u64) -> (s: &S)
        requires
            self.wf(),
            self.singletons_view().spec_contains(key),
        ensures
            self.singletons_view().spec_get(key) == Option::Some(*s),
    {
        match self.singletons.get(key) {
            Option::Some(s) => s,
            Option::None => unreached(),
        }
    }

    /// One tick. The process phase runs every entity and then every
    /// singleton read-only, staging all mutation on one fresh [`Effects`]
    /// capability whose delta is the universe's current delta. If any of
    /// them requested an exit, the tick stops there: the result comes
    /// back, flush is skipped, and everything staged this tick is
    /// discarded — the universe is exactly as it was. Otherwise the
    /// staged changes merge into the buffer and the flush phase commits
    /// everything: per-entity fields, structural changes, singleton
    /// flushes, and the staged singleton replacements, in that order.
    pub fn loop_once<X>(&mut self) -> (r: Option<Result<(), X>>) where
        E: Entity<S, X>,
        S: Singleton<E, X>,

        requires
            old(self).wf(),
        ensures
            final(self).wf(),
            r is Some ==> *final(self) == *old(self),
            (old(self).buffer_view().entities().len() == 0 && old(self).singletons_view().entries_seq().len() == 0) ==> r is None,
            r is None ==> {
                &&& final(self).ticks() == if old(self).ticks() < u64::MAX {
                    (old(self).ticks() + 1) as u64
                } else {
                    u64::MAX
                }
                &&& final(self).delta() == old(self).delta()
                &&& final(self).buffer_view().pending_adds_seq().len() == 0
                &&& final(self).buffer_view().pending_removes_seq().len() == 0
                &&& final(self).pending_singletons_seq().len() == 0
                &&& crate::buffer::cells_monotone(
                    old(self).buffer_view().cells_seq(),
                    final(self).buffer_view().cells_seq(),
                )
                &&& final(self).buffer_view().cells_seq().len() >= old(self).buffer_view().cells_seq().len() + old(self).buffer_view().pending_adds_seq().len()
                &&& forall|key: u64|
                    old(self).singletons_view().spec_contains(key) ==> final(self).singletons_view().spec_contains(key)
                &&& forall|t: int|
                    0 <= t < old(self).pending_singletons_seq().len() ==> final(self).singletons_view().spec_contains(
                        (#[trigger] old(self).pending_singletons_seq()[t]).0,
                    )
            },
    {
        let mut fx: Effects<E, S, X> = Effects::new(self.delta_nanos);

        let mut i: usize = 0;
        while i < self.buffer.len()
            invariant
                self.buffer_view().entities().len() == 0 ==> fx.exit_result() is None,
            decreases self.buffer_view().entities().len() - i,
        {
            let e = self.buffer.entity_at(i);
            e.process(i, &self.singletons, &mut fx);
            i = i + 1;
        }
        let mut k: usize = 0;
        while k < self.singletons.len()
            invariant
                (self.buffer_view().entities().len() == 0
                    && self.singletons_view().entries_seq().len() == 0) ==> fx.exit_result()
                    is None,
            decreases self.singletons_view().entries_seq().len() - k,
        {
            let entry = self.singletons.entry_at(k);
            entry.1.process(&mut fx);
            k = k + 1;
        }

        let ghost fx0 = fx;
        let Effects { delta_nanos: _, adds, removes, singleton_sets, exit } = fx;
        proof {
            assert(exit == fx0.exit_result());
        }
        if exit.is_some() {
            return exit;
        }

        let ghost u0 = *old(self);
        let mut j: usize = 0;
        while j < removes.len()
            invariant
                self.buffer_view().entities() == u0.buffer_view().entities(),
                self.buffer_view().ids_seq() == u0.buffer_view().ids_seq(),
                self.buffer_view().cells_seq() == u0.buffer_view().cells_seq(),
                self.buffer_view().pending_adds_seq() == u0.buffer_view().pending_adds_seq(),
                self.singletons_view() == u0.singletons_view(),
                self.pending_singletons_seq() == u0.pending_singletons_seq(),
                self.delta() == u0.delta(),
                self.ticks() == u0.ticks(),
            decreases removes@.len() - j,
        {
            self.buffer.queue_remove_entity(removes[j]);
            j = j + 1;
        }
        self.buffer.extend_pending(adds);
        let ghost b0 = self.buffer_view();
        proof {
            assert(b0.pending_adds_seq().len() >= u0.buffer_view().pending_adds_seq().len());
        }
        let mut sets = singleton_sets;
        while sets.len() > 0
            invariant
                self.buffer_view() == b0,
                self.singletons_view() == u0.singletons_view(),
                self.delta() == u0.delta(),
                self.ticks() == u0.ticks(),
                self.pending_singletons_seq().len() >= u0.pending_singletons_seq().len(),
                forall|t: int|
                    0 <= t < u0.pending_singletons_seq().len()
                        ==> #[trigger] self.pending_singletons_seq()[t]
                        == u0.pending_singletons_seq()[t],
            decreases sets@.len(),
        {
            let kv = sets.remove(0);
            self.pending_singletons.push(kv);
        }

        self.buffer.flush();

        let ghost b1 = self.buffer_view();
        proof {
            assert(b1.cells_seq().len() >= u0.buffer_view().cells_seq().len() + u0.buffer_view().pending_adds_seq().len());
            assert(crate::buffer::cells_monotone(u0.buffer_view().cells_seq(), b1.cells_seq()));
        }
        let ghost sk = self.singletons_view().entries_seq();
        let ghost ppre = self.pending_singletons_seq();
        let mut m: usize = 0;
        while m < self.singletons.len()
            invariant
                self.singletons_view().wf(),
                self.buffer_view() == b1,
                self.delta() == u0.delta(),
                self.ticks() == u0.ticks(),
                self.pending_singletons_seq() == ppre,
                self.singletons_view().entries_seq().len() == sk.len(),
                forall|t: int|
                    0 <= t < sk.len() ==> (#[trigger] self.singletons_view().entries_seq()[t]).0
                        == sk[t].0,
            decreases self.singletons_view().entries_seq().len() - m,
        {
            let ghost pre = self.singletons_view().entries_seq();
            let v = self.singletons.value_at_mut(m);
            v.flush();
            proof {
                assert forall|a: int, b: int|
                    0 <= a < b < self.singletons_view().entries_seq().len() implies (
                #[trigger] self.singletons_view().entries_seq()[a]).0 != (
                #[trigger] self.singletons_view().entries_seq()[b]).0 by {
                    assert(self.singletons_view().entries_seq()[a].0 == pre[a].0);
                    assert(self.singletons_view().entries_seq()[b].0 == pre[b].0);
                }
                assert forall|t: int|
                    0 <= t < sk.len() implies (#[trigger] self.singletons_view().entries_seq()[
                    t
                ]).0 == sk[t].0 by {
                    assert(self.singletons_view().entries_seq()[t].0 == pre[t].0);
                }
            }
            m = m + 1;
        }

        let ghost sv1 = self.singletons_view();
        let mut pend = core::mem::replace(&mut self.pending_singletons, Vec::new());
        let ghost pend0 = pend@;
        proof {
            assert(pend0 == ppre);
            assert(pend0.skip(0) =~= pend0);
        }
        while pend.len() > 0
            invariant
                self.singletons_view().wf(),
                self.buffer_view() == b1,
                self.delta() == u0.delta(),
                self.ticks() == u0.ticks(),
                self.pending_singletons_seq().len() == 0,
                pend@.len() <= pend0.len(),
                pend@ == pend0.skip(pend0.len() - pend@.len()),
                forall|key: u64|
                    sv1.spec_contains(key) ==> self.singletons_view().spec_contains(key),
                forall|t: int|
                    0 <= t < pend0.len() - pend@.len() ==> self.singletons_view().spec_contains(
                        (#[trigger] pend0[t]).0,
                    ),
            decreases pend@.len(),
        {
            let ghost pre = pend@;
            let ghost done = pend0.len() - pre.len();
            let ghost svpre = self.singletons_view();
            let kv = pend.remove(0);
            proof {
                assert(pre == pend0.skip(done as int));
                assert(pre[0] == pend0[done as int]);
                assert(kv == pend0[done as int]);
                assert(pend@ =~= pre.skip(1));
                assert(pre.skip(1) =~= pend0.skip(done + 1));
            }
            self.singletons.insert(kv.0, kv.1);
            proof {
                assert forall|key: u64|
                    svpre.spec_contains(key) implies self.singletons_view().spec_contains(
                    key,
                ) by {
                    let w = choose|w: int|
                        0 <= w < svpre.entries_seq().len() && #[trigger] svpre.entries_seq()[w].0
                            == key;
                    if svpre.spec_contains(kv.0) {
                        assert(svpre.entries_seq()[svpre.index_of(kv.0)].0 == kv.0);
                        assert(self.singletons_view().entries_seq()[w].0 == key);
                    } else {
                        assert(self.singletons_view().entries_seq()[w].0 == key);
                    }
                }
                assert(self.singletons_view().spec_contains(kv.0)) by {
                    assert(self.singletons_view().spec_get(kv.0) is Some);
                }
                assert forall|t: int|
                    0 <= t < pend0.len() - pend@.len() implies self.singletons_view().spec_contains(
                    (#[trigger] pend0[t]).0,
                ) by {
                    if t < done as int {
                        assert(svpre.spec_contains(pend0[t].0));
                    } else {
                        assert(t == done as int);
                        assert(pend0[t].0 == kv.0);
                    }
                }
            }
        }

        proof {
            assert forall|key: u64|
                u0.singletons_view().spec_contains(key) implies self.singletons_view().spec_contains(
                key,
            ) by {
                let w = choose|w: int|
                    0 <= w < u0.singletons_view().entries_seq().len()
                        && #[trigger] u0.singletons_view().entries_seq()[w].0 == key;
                assert(sv1.entries_seq()[w].0 == sk[w].0);
                assert(sv1.spec_contains(key));
            }
            assert forall|t: int|
                0 <= t < u0.pending_singletons_seq().len() implies self.singletons_view().spec_contains(
                (#[trigger] u0.pending_singletons_seq()[t]).0,
            ) by {
                assert(pend0[t] == u0.pending_singletons_seq()[t]);
            }
        }

        if self.ticks < u64::MAX {
            self.ticks = self.ticks + 1;
        }
        Option::None
    }

    /// Drives whole ticks: exactly `n` of them for `Count(n)`, or until
    /// an exit request for `Forever`, each tick one [`Universe::loop_once`].
    /// An exit requested during some tick's process phase ends the run at
    /// once with that tick's result; otherwise the run ends with `None`.
    ///
    /// With a fabricated delta, every tick's process phase sees exactly
    /// that delta. With a measured delta, each tick's delta is read from
    /// the driver's clock as the time since the previous tick started —
    /// sleeping included, so no drift accumulates — and the driver is
    /// asked to sleep off whatever remains of the target tick duration.
    ///
    /// A `Forever` run gives up and returns `None` after `usize::MAX`
    /// ticks without an exit request; at any real tick rate that bound
    /// is out of reach.
    pub fn loop_many<X, D: TickDriver>(
        &mut self,
        count: LoopCount,
        delta: DeltaStrategy,
        driver: &mut D,
    ) -> (r: Option<Result<(), X>>) where
        E: Entity<S, X>,
        S: Singleton<E, X>,

        requires
            old(self).wf(),
        ensures
            final(self).wf(),
            count matches LoopCount::Count(n) ==> ((r is None && old(self).ticks() + n
                <= u64::MAX) ==> final(self).ticks() == old(self).ticks() + n),
            delta matches DeltaStrategy::FakeDelta(d) ==> (count matches LoopCount::Count(n) ==> (n
                > 0 ==> final(self).delta() == d)),
            delta matches DeltaStrategy::FakeDelta(d) ==> (count is Forever ==> final(self).delta()
                == d),
            crate::buffer::cells_monotone(
                old(self).buffer_view().cells_seq(),
                final(self).buffer_view().cells_seq(),
            ),
            forall|key: u64|
                old(self).singletons_view().spec_contains(key) ==> final(self).singletons_view().spec_contains(key),
            count matches LoopCount::Count(n) ==> ((r is None && n > 0) ==> {
                &&& final(self).buffer_view().pending_adds_seq().len() == 0
                &&& final(self).buffer_view().pending_removes_seq().len() == 0
                &&& final(self).pending_singletons_seq().len() == 0
                &&& forall|t: int|
                    0 <= t < old(self).pending_singletons_seq().len() ==> final(self).singletons_view().spec_contains(
                        (#[trigger] old(self).pending_singletons_seq()[t]).0,
                    )
            }),
    {
        let ghost u0 = *old(self);
        match count {
            LoopCount::Count(n) => {
                match delta {
                    DeltaStrategy::FakeDelta(d) => {
                        let mut i: usize = 0;
                        while i < n
                            invariant
                                count == LoopCount::Count(n),
                                delta == DeltaStrategy::FakeDelta(d),
                                *old(self) == u0,
                                self.wf(),
                                i <= n,
                                u0.ticks() + n <= u64::MAX ==> self.ticks() == u0.ticks() + i,
                                i > 0 ==> self.delta() == d,
                                crate::buffer::cells_monotone(
                                    u0.buffer_view().cells_seq(),
                                    self.buffer_view().cells_seq(),
                                ),
                                forall|key: u64|
                                    u0.singletons_view().spec_contains(key)
                                        ==> self.singletons_view().spec_contains(key),
                                i == 0 ==> self.pending_singletons_seq()
                                    == u0.pending_singletons_seq(),
                                i > 0 ==> self.buffer_view().pending_adds_seq().len() == 0,
                                i > 0 ==> self.buffer_view().pending_removes_seq().len() == 0,
                                i > 0 ==> self.pending_singletons_seq().len() == 0,
                                i > 0 ==> forall|t: int|
                                    0 <= t < u0.pending_singletons_seq().len()
                                        ==> self.singletons_view().spec_contains(
                                        (#[trigger] u0.pending_singletons_seq()[t]).0,
                                    ),
                            decreases n - i,
                        {
                            self.delta_nanos = d;
                            let ghost pre = *self;
                            let res = self.loop_once();
                            if res.is_some() {
                                return res;
                            }
                            proof {
                                Self::lemma_tick_chain(u0, pre, *self);
                                assert forall|t: int|
                                    0 <= t < u0.pending_singletons_seq().len()
                                        implies self.singletons_view().spec_contains(
                                    (#[trigger] u0.pending_singletons_seq()[t]).0,
                                ) by {
                                    if i == 0 {
                                        assert(pre.pending_singletons_seq()
                                            == u0.pending_singletons_seq());
                                    } else {
                                        assert(pre.singletons_view().spec_contains(
                                            u0.pending_singletons_seq()[t].0,
                                        ));
                                    }
                                }
                            }
                            i = i + 1;
                        }
                        Option::None
                    },
                    DeltaStrategy::RealDelta(target) => {
                        let mut last = driver.elapsed_nanos();
                        let mut i: usize = 0;
                        while i < n
                            invariant
                                count == LoopCount::Count(n),
                                delta == DeltaStrategy::RealDelta(target),
                                *old(self) == u0,
                                self.wf(),
                                i <= n,
                                u0.ticks() + n <= u64::MAX ==> self.ticks() == u0.ticks() + i,
                                crate::buffer::cells_monotone(
                                    u0.buffer_view().cells_seq(),
                                    self.buffer_view().cells_seq(),
                                ),
                                forall|key: u64|
                                    u0.singletons_view().spec_contains(key)
                                        ==> self.singletons_view().spec_contains(key),
                                i == 0 ==> self.pending_singletons_seq()
                                    == u0.pending_singletons_seq(),
                                i > 0 ==> self.buffer_view().pending_adds_seq().len() == 0,
                                i > 0 ==> self.buffer_view().pending_removes_seq().len() == 0,
                                i > 0 ==> self.pending_singletons_seq().len() == 0,
                                i > 0 ==> forall|t: int|
                                    0 <= t < u0.pending_singletons_seq().len()
                                        ==> self.singletons_view().spec_contains(
                                        (#[trigger] u0.pending_singletons_seq()[t]).0,
                                    ),
                            decreases n - i,
                        {
                            let ghost pre = *self;
                            let res = self.loop_once();
                            if res.is_some() {
                                return res;
                            }
                            proof {
                                Self::lemma_tick_chain(u0, pre, *self);
                                assert forall|t: int|
                                    0 <= t < u0.pending_singletons_seq().len()
                                        implies self.singletons_view().spec_contains(
                                    (#[trigger] u0.pending_singletons_seq()[t]).0,
                                ) by {
                                    if i == 0 {
                                        assert(pre.pending_singletons_seq()
                                            == u0.pending_singletons_seq());
                                    } else {
                                        assert(pre.singletons_view().spec_contains(
                                            u0.pending_singletons_seq()[t].0,
                                        ));
                                    }
                                }
                            }
                            let now = driver.elapsed_nanos();
                            let step = real_delta_step(last, now, target);
                            if step.1 > 0 {
                                driver.sleep_nanos(step.1);
                            }
                            let now2 = driver.elapsed_nanos();
                            let full = real_delta_step(last, now2, 0);
                            self.delta_nanos = full.0;
                            last = now2;
                            i = i + 1;
                        }
                        Option::None
                    },
                }
            },
            LoopCount::Forever => {
                match delta {
                    DeltaStrategy::FakeDelta(d) => {
                        let mut i: usize = 0;
                        while i < usize::MAX
                            invariant
                                count is Forever,
                                delta == DeltaStrategy::FakeDelta(d),
                                *old(self) == u0,
                                self.wf(),
                                i > 0 ==> self.delta() == d,
                                crate::buffer::cells_monotone(
                                    u0.buffer_view().cells_seq(),
                                    self.buffer_view().cells_seq(),
                                ),
                                forall|key: u64|
                                    u0.singletons_view().spec_contains(key)
                                        ==> self.singletons_view().spec_contains(key),
                            decreases usize::MAX - i,
                        {
                            self.delta_nanos = d;
                            let ghost pre = *self;
                            let res = self.loop_once();
                            if res.is_some() {
                                return res;
                            }
                            proof {
                                Self::lemma_tick_chain(u0, pre, *self);
                            }
                            i = i + 1;
                        }
                        Option::None
                    },
                    DeltaStrategy::RealDelta(target) => {
                        let mut last = driver.elapsed_nanos();
                        let mut i: usize = 0;
                        while i < usize::MAX
                            invariant
                                count is Forever,
                                delta == DeltaStrategy::RealDelta(target),
                                *old(self) == u0,
                                self.wf(),
                                crate::buffer::cells_monotone(
                                    u0.buffer_view().cells_seq(),
                                    self.buffer_view().cells_seq(),
                                ),
                                forall|key: u64|
                                    u0.singletons_view().spec_contains(key)
                                        ==> self.singletons_view().spec_contains(key),
                            decreases usize::MAX - i,
                        {
                            let ghost pre = *self;
                            let res = self.loop_once();
                            if res.is_some() {
                                return res;
                            }
                            proof {
                                Self::lemma_tick_chain(u0, pre, *self);
                            }
                            let now = driver.elapsed_nanos();
                            let step = real_delta_step(last, now, target);
                            if step.1 > 0 {
                                driver.sleep_nanos(step.1);
                            }
                            let now2 = driver.elapsed_nanos();
                            let full = real_delta_step(last, now2, 0);
                            self.delta_nanos = full.0;
                            last = now2;
                            i = i + 1;
                        }
                        Option::None
                    },
                }
            },
        }
    }

    /// One tick never undoes what earlier ticks established: freed cells
    /// stay freed and registered singleton keys stay registered, so both
    /// facts carry from the start of a run to its end.
    proof fn lemma_tick_chain(u0: Self, pre: Self, cur: Self)
        requires
            crate::buffer::cells_monotone(
                u0.buffer_view().cells_seq(),
                pre.buffer_view().cells_seq(),
            ),
            crate::buffer::cells_monotone(
                pre.buffer_view().cells_seq(),
                cur.buffer_view().cells_seq(),
            ),
            forall|key: u64|
                u0.singletons_view().spec_contains(key) ==> pre.singletons_view().spec_contains(
                    key,
                ),
            forall|key: u64|
                pre.singletons_view().spec_contains(key) ==> cur.singletons_view().spec_contains(
                    key,
                ),
        ensures
            crate::buffer::cells_monotone(
                u0.buffer_view().cells_seq(),
                cur.buffer_view().cells_seq(),
            ),
            forall|key: u64|
                u0.singletons_view().spec_contains(key) ==> cur.singletons_view().spec_contains(
                    key,
                ),
    {
        crate::buffer::lemma_cells_monotone_trans(
            u0.buffer_view().cells_seq(),
            pre.buffer_view().cells_seq(),
            cur.buffer_view().cells_seq(),
        );
        assert forall|key: u64|
            u0.singletons_view().spec_contains(key) implies cur.singletons_view().spec_contains(
            key,
        ) by {
            assert(pre.singletons_view().spec_contains(key));
        }
    }

    /// Stages a singleton under `key`; it replaces — never merges with —
    /// whatever is registered there, and is visible from the next tick
    /// boundary onward.
    pub fn queue_set_singleton(&mut self, key: u64, singleton: S)
        ensures
            final(self).pending_singletons_seq() == old(self).pending_singletons_seq().push(
                (key, singleton),
            ),
            final(self).buffer_view() == old(self).buffer_view(),
            final(self).singletons_view() == old(self).singletons_view(),
            final(self).delta() == old(self).delta(),
            final(self).ticks() == old(self).ticks(),
    {
        self.pending_singletons.push((key, singleton));
    }
}

/// One measured-delta step: given the clock reading at the previous
/// tick's start and now, the tick's delta is the elapsed difference, and
/// the next tick starts where this reading landed. Measuring from the
/// previous tick's start point keeps drift from accumulating: time spent
/// sleeping or processing is part of the next delta, never lost.
pub open spec fn measured_delta(last_start: u64, now: u64) -> u64 {
    if now >= last_start {
        (now - last_start) as u64
    } else {
        0
    }
}

/// How long to sleep to hold a target tick duration, given how much of
/// it the tick already used.
pub open spec fn remaining_sleep(target: u64, used: u64) -> u64 {
    if used >= target {
        0
    } else {
        (target - used) as u64
    }
}

/// Computes one measured-delta step: the delta for the tick that just
/// ran and the sleep needed to hold `target`.
pub fn real_delta_step(last_start: u64, now: u64, target: u64) -> (r: (u64, u64))
    ensures
        r.0 == measured_delta(last_start, now),
        r.1 == remaining_sleep(target, measured_delta(last_start, now)),
{
    let delta: u64 = if now >= last_start {
        now - last_start
    } else {
        0
    };
    let sleep: u64 = if delta >= target {
        0
    } else {
        target - delta
    };
    (delta, sleep)
}

} // verus!
