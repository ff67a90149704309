//! A registry of values of unique kinds.
//!
//! The runtime hands every kind of collaborator — each singleton, each
//! distinct store — a small integer key, and keeps at most one value per
//! key. A [`UniqueTypeSet`] is that registry: an association from keys
//! to values in which every key occurs at most once. [`push`] refuses a
//! key that is already present and returns the value to the caller;
//! [`insert`] replaces wholesale, which is exactly the overwrite
//! lifecycle singletons have.
//!
//! [`push`]: UniqueTypeSet::push
//! [`insert`]: UniqueTypeSet::insert

use vstd::prelude::*;

verus! {

/// An association from `u64` keys to values, at most one value per key.
pub struct UniqueTypeSet<T> {
    entries: Vec<(u64, T)>,
}

impl<T> UniqueTypeSet<T> {
    /// The entries, in insertion order.
    pub closed spec fn entries_seq(self) -> Seq<(u64, T)> {
        self.entries@
    }

    /// No key occurs twice.
    pub open spec fn wf(self) -> bool {
        forall|i: int, j: int|
            0 <= i < j < self.entries_seq().len() ==> #[trigger] self.entries_seq()[i].0
                != #[trigger] self.entries_seq()[j].0
    }

    /// Whether some entry holds `key`.
    pub open spec fn spec_contains(self, key: u64) -> bool {
        exists|i: int| 0 <= i < self.entries_seq().len() && #[trigger] self.entries_seq()[i].0 == key
    }

    /// The position of the entry holding `key`.
    pub open spec fn index_of(self, key: u64) -> int
        recommends
            self.spec_contains(key),
    {
        choose|i: int| 0 <= i < self.entries_seq().len() && #[trigger] self.entries_seq()[i].0 == key
    }

    /// The value held for `key`.
    pub open spec fn spec_get(self, key: u64) -> Option<T> {
        if self.spec_contains(key) {
            Option::Some(self.entries_seq()[self.index_of(key)].1)
        } else {
            Option::None
        }
    }

    /// Creates an empty registry.
    pub fn new() -> (s: Self)
        ensures
            s.wf(),
            s.entries_seq().len() == 0,
            forall|key: u64| !s.spec_contains(key),
    {
        UniqueTypeSet { entries: Vec::new() }
    }

    /// How many entries are registered.
    pub fn len(&self) -> (n: usize)
        ensures
            n == self.entries_seq().len(),
    {
        self.entries.len()
    }

    /// The entry at a position, for walking the whole registry.
    pub fn entry_at(&self, i: usize) -> (e: &(u64, T))
        requires
            i < self.entries_seq().len(),
        ensures
            *e == self.entries_seq()[i as int],
    {
        &self.entries[i]
    }

    /// The position holding `key`, if any.
    fn find(&self, key: u64) -> (r: Option<usize>)
        ensures
            match r {
                Option::Some(i) => i < self.entries_seq().len() && self.entries_seq()[
                    i as int
                ].0 == key,
                Option::None => !self.spec_contains(key),
            },
    {
        let mut i: usize = 0;
        while i < self.entries.len()
            invariant
                i <= self.entries_seq().len(),
                forall|j: int| 0 <= j < i ==> #[trigger] self.entries_seq()[j].0 != key,
            decreases self.entries_seq().len() - i,
        {
            if self.entries[i].0 == key {
                return Option::Some(i);
            }
            i = i + 1;
        }
        Option::None
    }

    /// Whether a value is registered under `key`.
    pub fn contains(&self, key: u64) -> (r: bool)
        ensures
            r == self.spec_contains(key),
    {
        self.find(key).is_some()
    }

    /// Registers `item` under a fresh key. If the key is already taken,
    /// nothing changes and the item comes back to the caller.
    pub fn push(&mut self, key: u64, item: T) -> (r: Result<(), T>)
        requires
            old(self).wf(),
        ensures
            final(self).wf(),
            match r {
                Result::Ok(()) => {
                    &&& !old(self).spec_contains(key)
                    &&& final(self).entries_seq() == old(self).entries_seq().push((key, item))
                },
                Result::Err(back) => {
                    &&& old(self).spec_contains(key)
                    &&& back == item
                    &&& final(self).entries_seq() == old(self).entries_seq()
                },
            },
    {
        if self.contains(key) {
            Result::Err(item)
        } else {
            proof {
                assert forall|i: int| 0 <= i < self.entries_seq().len()
                    implies #[trigger] self.entries_seq()[i].0 != key by {
                    if self.entries_seq()[i].0 == key {
                        assert(self.spec_contains(key));
                    }
                }
            }
            self.entries.push((key, item));
            Result::Ok(())
        }
    }

    /// Registers `item` under `key`, replacing — not merging — whatever
    /// was there; the replaced value comes back to the caller.
    pub fn insert(&mut self, key: u64, item: T) -> (r: Option<T>)
        requires
            old(self).wf(),
        ensures
            final(self).wf(),
            match r {
                Option::Some(prev) => {
                    &&& old(self).spec_get(key) == Option::Some(prev)
                    &&& final(self).entries_seq() == old(self).entries_seq().update(
                        old(self).index_of(key),
                        (key, item),
                    )
                },
                Option::None => {
                    &&& !old(self).spec_contains(key)
                    &&& final(self).entries_seq() == old(self).entries_seq().push((key, item))
                },
            },
            final(self).spec_get(key) == Option::Some(item),
    {
        match self.find(key) {
            Option::Some(i) => {
                let ghost at = self.index_of(key);
                proof {
                    assert(self.entries_seq()[at].0 == key);
                    assert(at == i as int);
                }
                let slot = &mut self.entries[i];
                let prev = core::mem::replace(slot, (key, item));
                proof {
                    assert(final(self).spec_contains(key)) by {
                        assert(final(self).entries_seq()[i as int].0 == key);
                    }
                    assert(final(self).index_of(key) == i as int);
                }
                Option::Some(prev.1)
            },
            Option::None => {
                self.entries.push((key, item));
                proof {
                    let n = old(self).entries_seq().len() as int;
                    assert(final(self).entries_seq()[n].0 == key);
                    assert(final(self).spec_contains(key));
                    assert(final(self).index_of(key) == n);
                }
                Option::None
            },
        }
    }

    /// The value registered under `key`, if any.
    pub fn get(&self, key: u64) -> (r: Option<&T>)
        requires
            self.wf(),
        ensures
            match r {
                Option::Some(item) => self.spec_get(key) == Option::Some(*item),
                Option::None => !self.spec_contains(key),
            },
    {
        match self.find(key) {
            Option::Some(i) => {
                proof {
                    assert(self.entries_seq()[self.index_of(key)].0 == key);
                    assert(self.index_of(key) == i as int);
                }
                Option::Some(&self.entries[i].1)
            },
            Option::None => Option::None,
        }
    }

    /// Mutable access to the value at a position, for flushing every
    /// registered value in place. The key at that position is untouched.
    pub fn value_at_mut(&mut self, i: usize) -> (v: &mut T)
        requires
            i < old(self).entries_seq().len(),
        ensures
            *v == old(self).entries_seq()[i as int].1,
            final(self).entries_seq() == old(self).entries_seq().update(
                i as int,
                (old(self).entries_seq()[i as int].0, *final(v)),
            ),
    {
        let entry = &mut self.entries[i];
        &mut entry.1
    }

    /// Gives up the registry and hands back its entries.
    pub fn into_inner(self) -> (v: Vec<(u64, T)>)
        ensures
            v@ == self.entries_seq(),
    {
        self.entries
    }
}

} // verus!
