//! The frame-bounded, all-or-nothing locking discipline.
//!
//! User logic that needs simultaneous exclusive access to several
//! components must not hand-pick lock orders: that is how cross-frame
//! deadlocks are built. Instead, a [`LockToken`] capability — one per
//! process invocation, impossible to hold across a tick boundary — is
//! consumed to acquire a whole set of locks at once from the
//! [`LockTable`]. The acquisition is all-or-nothing: either every lock
//! in the set was free and is now held, or none of them changed and the
//! caller retries after a backoff. Releasing the [`Guard`] frees every
//! lock in the set and hands the token back, so a caller provably cannot
//! end a frame still holding anything.

use vstd::prelude::*;

verus! {

/// The capability to acquire locks; consumed by [`LockTable::lock`] and
/// [`LockTable::try_lock_set`], returned by [`LockTable::unlock`]. Its
/// scope is one process invocation.
pub struct LockToken {

}

impl LockToken {
    /// Issues the token for one process invocation.
    pub fn new() -> (t: Self) {
        LockToken {  }
    }
}

/// A held lock set: proof that every lock in `held` is taken and will
/// be released together.
pub struct Guard {
    held: Vec<usize>,
}

impl Guard {
    /// The lock indices this guard holds.
    pub closed spec fn held_seq(self) -> Seq<usize> {
        self.held@
    }

    /// The lock indices this guard holds.
    pub fn held(&self) -> (v: &Vec<usize>)
        ensures
            v@ == self.held_seq(),
    {
        &self.held
    }
}

/// One lock per component slot, by index.
pub struct LockTable {
    locked: Vec<bool>,
}

impl LockTable {
    /// Which locks are currently held.
    pub closed spec fn locks(self) -> Seq<bool> {
        self.locked@
    }

    /// Creates a table of `n` free locks.
    pub fn new(n: usize) -> (t: Self)
        ensures
            t.locks().len() == n,
            forall|i: int| 0 <= i < n ==> !#[trigger] t.locks()[i],
    {
        let mut locked: Vec<bool> = Vec::new();
        let mut i: usize = 0;
        while i < n
            invariant
                i <= n,
                locked@.len() == i,
                forall|j: int| 0 <= j < i ==> !#[trigger] locked@[j],
            decreases n - i,
        {
            locked.push(false);
            i = i + 1;
        }
        LockTable { locked }
    }

    /// How many locks the table has.
    pub fn len(&self) -> (n: usize)
        ensures
            n == self.locks().len(),
    {
        self.locked.len()
    }

    /// Whether the lock at `index` is currently held.
    pub fn is_locked(&self, index: usize) -> (r: bool)
        requires
            index < self.locks().len(),
        ensures
            r == self.locks()[index as int],
    {
        self.locked[index]
    }

    /// A direct blocking acquire of a single lock. Sequentially,
    /// blocking on a lock nobody else can release is a deadlock, so the
    /// lock must be free; the token is consumed until the guard is
    /// given back.
    pub fn lock(&mut self, token: LockToken, index: usize) -> (g: Guard)
        requires
            index < old(self).locks().len(),
            !old(self).locks()[index as int],
        ensures
            final(self).locks() == old(self).locks().update(index as int, true),
            g.held_seq() == seq![index],
    {
        set_lock(&mut self.locked, index, true);
        let mut held: Vec<usize> = Vec::new();
        held.push(index);
        proof {
            assert(held@ =~= seq![index]);
        }
        Guard { held }
    }

    /// One all-or-nothing attempt to acquire a whole set of locks: try
    /// each in turn, and at the first one already held, release
    /// everything acquired so far and report failure — the table is then
    /// exactly as it was, and the caller backs off and retries. On
    /// success every requested lock is now held by the returned guard.
    ///
    /// The indices must be distinct: a set that names one lock twice
    /// could never be acquired by anyone.
    pub fn try_lock_set(&mut self, token: LockToken, indices: Vec<usize>) -> (r: Result<
        Guard,
        LockToken,
    >)
        requires
            forall|k: int|
                0 <= k < indices@.len() ==> #[trigger] indices@[k] < old(self).locks().len(),
            forall|k1: int, k2: int|
                0 <= k1 < k2 < indices@.len() ==> #[trigger] indices@[k1] != #[trigger] indices@[k2],
        ensures
            match r {
                Result::Ok(g) => {
                    &&& g.held_seq() == indices@
                    &&& forall|k: int|
                        0 <= k < indices@.len() ==> !old(self).locks()[#[trigger] indices@[k] as int]
                    &&& forall|k: int|
                        0 <= k < indices@.len() ==> final(self).locks()[#[trigger] indices@[k] as int]
                    &&& forall|i: int|
                        0 <= i < old(self).locks().len() && !indices@.contains(i as usize)
                            ==> final(self).locks()[i] == old(self).locks()[i]
                },
                Result::Err(t) => {
                    &&& final(self).locks() == old(self).locks()
                    &&& exists|k: int|
                        0 <= k < indices@.len() && old(self).locks()[#[trigger] indices@[k] as int]
                },
            },
    {
        let table_len = self.locked.len();
        let mut acquired: usize = 0;
        while acquired < indices.len()
            invariant
                self.locks().len() == table_len as int,
                acquired <= indices@.len(),
                forall|k: int|
                    0 <= k < indices@.len() ==> #[trigger] indices@[k] < self.locks().len(),
                forall|k1: int, k2: int|
                    0 <= k1 < k2 < indices@.len() ==> #[trigger] indices@[k1]
                        != #[trigger] indices@[k2],
                self.locks().len() == old(self).locks().len(),
                forall|k: int|
                    0 <= k < acquired ==> !old(self).locks()[#[trigger] indices@[k] as int],
                forall|i: int|
                    0 <= i < self.locks().len() ==> #[trigger] self.locks()[i] == (old(
                        self,
                    ).locks()[i] || exists|k: int|
                        0 <= k < acquired && #[trigger] indices@[k] == i as usize),
            decreases indices@.len() - acquired,
        {
            let idx = indices[acquired];
            if self.locked[idx] {
                let taken_now = exists_in_prefix(&indices, acquired, idx);
                if !taken_now {
                    // the lock is held elsewhere: roll back everything
                    // acquired so far and report failure
                    let mut back: usize = 0;
                    while back < acquired
                        invariant
                            self.locks().len() == table_len as int,
                            back <= acquired,
                            acquired <= indices@.len(),
                            forall|k: int|
                                0 <= k < indices@.len() ==> #[trigger] indices@[k]
                                    < self.locks().len(),
                            forall|k1: int, k2: int|
                                0 <= k1 < k2 < indices@.len() ==> #[trigger] indices@[k1]
                                    != #[trigger] indices@[k2],
                            self.locks().len() == old(self).locks().len(),
                            forall|k: int|
                                0 <= k < acquired ==> !old(self).locks()[
                                    #[trigger] indices@[k] as int
                                ],
                            forall|i: int|
                                0 <= i < self.locks().len() ==> #[trigger] self.locks()[i] == (old(
                                    self,
                                ).locks()[i] || exists|k: int|
                                    back <= k < acquired && #[trigger] indices@[k] == i as usize),
                        decreases acquired - back,
                    {
                        set_lock(&mut self.locked, indices[back], false);
                        proof {
                            let ghost bk = back as int;
                            assert forall|i: int| 0 <= i < self.locks().len() implies
                                #[trigger] self.locks()[i] == (old(self).locks()[i] || exists|
                                k: int,
                            |
                                bk + 1 <= k < acquired && #[trigger] indices@[k] == i as usize) by {
                                if i == indices@[bk] as int {
                                    assert(!old(self).locks()[i]);
                                    assert forall|k: int| bk + 1 <= k < acquired implies
                                        #[trigger] indices@[k] != indices@[bk] by {
                                        assert(indices@[bk] != indices@[k]);
                                    }
                                    assert(!(exists|k: int|
                                        bk + 1 <= k < acquired && #[trigger] indices@[k]
                                            == i as usize));
                                } else {
                                    if exists|k: int|
                                        bk <= k < acquired && #[trigger] indices@[k] == i as usize {
                                        let k = choose|k: int|
                                            bk <= k < acquired && #[trigger] indices@[k]
                                                == i as usize;
                                        if k != bk {
                                            assert(bk + 1 <= k < acquired && indices@[k]
                                                == i as usize);
                                        } else {
                                            assert((i as usize) as int == i);
                                            assert(false);
                                        }
                                    }
                                    if exists|k: int|
                                        bk + 1 <= k < acquired && #[trigger] indices@[k]
                                            == i as usize {
                                        let k = choose|k: int|
                                            bk + 1 <= k < acquired && #[trigger] indices@[k]
                                                == i as usize;
                                        assert(bk <= k < acquired && indices@[k] == i as usize);
                                    }
                                }
                            }
                        }
                        back = back + 1;
                    }
                    proof {
                        assert(self.locks() =~= old(self).locks());
                        assert(old(self).locks()[indices@[acquired as int] as int]);
                    }
                    return Result::Err(token);
                }
                proof {
                    let k = choose|k: int|
                        0 <= k < acquired && #[trigger] indices@[k] == indices@[acquired as int];
                    assert(indices@[k] == indices@[acquired as int]);
                    assert(false);
                }
            }
            proof {
                assert(!old(self).locks()[indices@[acquired as int] as int]);
            }
            set_lock(&mut self.locked, idx, true);
            proof {
                let ghost aq = acquired as int;
                assert forall|i: int| 0 <= i < self.locks().len() implies #[trigger] self.locks()[i]
                    == (old(self).locks()[i] || exists|k: int|
                    0 <= k < aq + 1 && #[trigger] indices@[k] == i as usize) by {
                    assert((i as usize) as int == i);
                    if i == idx as int {
                        assert(indices@[aq] == i as usize);
                    } else {
                        if exists|k: int| 0 <= k < aq && #[trigger] indices@[k] == i as usize {
                            let k = choose|k: int|
                                0 <= k < aq && #[trigger] indices@[k] == i as usize;
                            assert(0 <= k < aq + 1 && indices@[k] == i as usize);
                        }
                        if exists|k: int| 0 <= k < aq + 1 && #[trigger] indices@[k] == i as usize {
                            let k = choose|k: int|
                                0 <= k < aq + 1 && #[trigger] indices@[k] == i as usize;
                            if k == aq {
                                assert(indices@[aq] == i as usize);
                                assert(i == idx as int);
                                assert(false);
                            }
                            assert(0 <= k < aq && indices@[k] == i as usize);
                        }
                    }
                }
            }
            acquired = acquired + 1;
        }
        proof {
            assert forall|k: int| 0 <= k < indices@.len() implies final(self).locks()[
                #[trigger] indices@[k] as int
            ] by {
                assert(self.locks()[indices@[k] as int]);
            }
        }
        Result::Ok(Guard { held: indices })
    }

    /// Releases every lock a guard holds and hands the token back, so
    /// the caller can lock again — or let the token expire with the
    /// frame.
    pub fn unlock(&mut self, guard: Guard) -> (t: LockToken)
        requires
            forall|k: int|
                0 <= k < guard.held_seq().len() ==> #[trigger] guard.held_seq()[k] < old(
                    self,
                ).locks().len(),
        ensures
            final(self).locks().len() == old(self).locks().len(),
            forall|i: int|
                0 <= i < final(self).locks().len() ==> #[trigger] final(self).locks()[i] == (old(
                    self,
                ).locks()[i] && !guard.held_seq().contains(i as usize)),
    {
        let held = guard.held;
        let table_len = self.locked.len();
        proof {
            assert(held@ == guard.held_seq());
            assert(held@.take(0) =~= Seq::<usize>::empty());
        }
        let mut k: usize = 0;
        while k < held.len()
            invariant
                self.locks().len() == table_len as int,
                k <= held@.len(),
                forall|j: int| 0 <= j < held@.len() ==> #[trigger] held@[j] < self.locks().len(),
                self.locks().len() == old(self).locks().len(),
                forall|i: int|
                    0 <= i < self.locks().len() ==> #[trigger] self.locks()[i] == (old(
                        self,
                    ).locks()[i] && !held@.take(k as int).contains(i as usize)),
            decreases held@.len() - k,
        {
            let ghost pre = k as int;
            set_lock(&mut self.locked, held[k], false);
            proof {
                assert forall|i: int| 0 <= i < self.locks().len() implies #[trigger] self.locks()[i]
                    == (old(self).locks()[i] && !held@.take(pre + 1).contains(i as usize)) by {
                    if i == held@[pre] as int {
                        assert(held@.take(pre + 1)[pre] == held@[pre]);
                        assert(held@.take(pre + 1).contains(i as usize));
                    } else {
                        if held@.take(pre).contains(i as usize) {
                            let j = choose|j: int|
                                0 <= j < pre && #[trigger] held@.take(pre)[j] == i as usize;
                            assert(held@.take(pre + 1)[j] == i as usize);
                            assert(held@.take(pre + 1).contains(i as usize));
                        }
                        if held@.take(pre + 1).contains(i as usize) {
                            let j = choose|j: int|
                                0 <= j <= pre && #[trigger] held@.take(pre + 1)[j] == i as usize;
                            if j < pre {
                                assert(held@.take(pre)[j] == i as usize);
                            }
                        }
                    }
                }
            }
            k = k + 1;
        }
        proof {
            assert(held@.take(held@.len() as int) =~= held@);
        }
        LockToken {  }
    }
}

/// Whether `x` occurs among the first `n` entries of `v`.
fn exists_in_prefix(v: &Vec<usize>, n: usize, x: usize) -> (r: bool)
    requires
        n <= v@.len(),
    ensures
        r == exists|k: int| 0 <= k < n && #[trigger] v@[k] == x,
{
    let mut i: usize = 0;
    while i < n
        invariant
            i <= n,
            n <= v@.len(),
            forall|k: int| 0 <= k < i ==> #[trigger] v@[k] != x,
        decreases n - i,
    {
        if v[i] == x {
            return true;
        }
        i = i + 1;
    }
    false
}

/// Overwrites one lock slot.
fn set_lock(locked: &mut Vec<bool>, i: usize, v: bool)
    requires
        i < old(locked).len(),
    ensures
        final(locked)@ == old(locked)@.update(i as int, v),
{
    let slot = &mut locked[i];
    *slot = v;
}

} // verus!
