//! A bidirectional association between names and component ids.
//!
//! A store registers the name of every named component; names must be
//! unique at all times, and so must the ids they point to. A [`BiMap`]
//! keeps the pairs in one owned list and answers lookups in both
//! directions; its well-formedness says exactly that no name and no id
//! occurs twice. Names are the interned string keys the runtime's
//! collaborators hand in; to the core a name is its key.

use vstd::prelude::*;

verus! {

/// Pairs of (left, right) — (name key, component id) — unique on both
/// sides.
pub struct BiMap {
    pairs: Vec<(u64, usize)>,
}

impl BiMap {
    /// The pairs, oldest first.
    pub closed spec fn pairs_seq(self) -> Seq<(u64, usize)> {
        self.pairs@
    }

    /// No left value and no right value occurs twice.
    pub open spec fn wf(self) -> bool {
        &&& forall|i: int, j: int|
            0 <= i < j < self.pairs_seq().len() ==> #[trigger] self.pairs_seq()[i].0
                != #[trigger] self.pairs_seq()[j].0
        &&& forall|i: int, j: int|
            0 <= i < j < self.pairs_seq().len() ==> #[trigger] self.pairs_seq()[i].1
                != #[trigger] self.pairs_seq()[j].1
    }

    /// Whether some pair holds `left`.
    pub open spec fn spec_contains_left(self, left: u64) -> bool {
        exists|i: int|
            0 <= i < self.pairs_seq().len() && #[trigger] self.pairs_seq()[i].0 == left
    }

    /// Whether some pair holds `right`.
    pub open spec fn spec_contains_right(self, right: usize) -> bool {
        exists|i: int|
            0 <= i < self.pairs_seq().len() && #[trigger] self.pairs_seq()[i].1 == right
    }

    /// The position of the pair holding `left`.
    pub open spec fn left_index_of(self, left: u64) -> int {
        choose|i: int|
            0 <= i < self.pairs_seq().len() && #[trigger] self.pairs_seq()[i].0 == left
    }

    /// The position of the pair holding `right`.
    pub open spec fn right_index_of(self, right: usize) -> int {
        choose|i: int|
            0 <= i < self.pairs_seq().len() && #[trigger] self.pairs_seq()[i].1 == right
    }

    /// The right value paired with `left`, if any.
    pub open spec fn spec_get_by_left(self, left: u64) -> Option<usize> {
        if self.spec_contains_left(left) {
            Option::Some(self.pairs_seq()[self.left_index_of(left)].1)
        } else {
            Option::None
        }
    }

    /// Creates an empty map.
    pub fn new() -> (m: Self)
        ensures
            m.wf(),
            m.pairs_seq().len() == 0,
    {
        BiMap { pairs: Vec::new() }
    }

    /// How many pairs are registered.
    pub fn len(&self) -> (n: usize)
        ensures
            n == self.pairs_seq().len(),
    {
        self.pairs.len()
    }

    /// The pair at a position, for walking the whole map.
    pub fn pair_at(&self, i: usize) -> (p: (u64, usize))
        requires
            i < self.pairs_seq().len(),
        ensures
            p == self.pairs_seq()[i as int],
    {
        self.pairs[i]
    }

    /// Grows the backing storage ahead of a batch of insertions.
    pub fn reserve(&mut self, additional: usize)
        ensures
            final(self).pairs_seq() == old(self).pairs_seq(),
    {
        self.pairs.reserve(additional);
    }

    /// The position of the pair holding `left`, if any.
    fn find_left(&self, left: u64) -> (r: Option<usize>)
        ensures
            match r {
                Option::Some(i) => i < self.pairs_seq().len() && self.pairs_seq()[i as int].0
                    == left,
                Option::None => !self.spec_contains_left(left),
            },
    {
        let mut i: usize = 0;
        while i < self.pairs.len()
            invariant
                i <= self.pairs_seq().len(),
                forall|j: int| 0 <= j < i ==> #[trigger] self.pairs_seq()[j].0 != left,
            decreases self.pairs_seq().len() - i,
        {
            if self.pairs[i].0 == left {
                return Option::Some(i);
            }
            i = i + 1;
        }
        Option::None
    }

    /// The position of the pair holding `right`, if any.
    fn find_right(&self, right: usize) -> (r: Option<usize>)
        ensures
            match r {
                Option::Some(i) => i < self.pairs_seq().len() && self.pairs_seq()[i as int].1
                    == right,
                Option::None => !self.spec_contains_right(right),
            },
    {
        let mut i: usize = 0;
        while i < self.pairs.len()
            invariant
                i <= self.pairs_seq().len(),
                forall|j: int| 0 <= j < i ==> #[trigger] self.pairs_seq()[j].1 != right,
            decreases self.pairs_seq().len() - i,
        {
            if self.pairs[i].1 == right {
                return Option::Some(i);
            }
            i = i + 1;
        }
        Option::None
    }

    /// Whether `left` is registered.
    pub fn contains_left(&self, left: u64) -> (r: bool)
        ensures
            r == self.spec_contains_left(left),
    {
        self.find_left(left).is_some()
    }

    /// Whether `right` is registered.
    pub fn contains_right(&self, right: usize) -> (r: bool)
        ensures
            r == self.spec_contains_right(right),
    {
        self.find_right(right).is_some()
    }

    /// The right value paired with `left`, if any.
    pub fn get_by_left(&self, left: u64) -> (r: Option<usize>)
        requires
            self.wf(),
        ensures
            r == self.spec_get_by_left(left),
    {
        match self.find_left(left) {
            Option::Some(i) => {
                proof {
                    assert(self.pairs_seq()[self.left_index_of(left)].0 == left);
                    assert(self.left_index_of(left) == i as int);
                }
                Option::Some(self.pairs[i].1)
            },
            Option::None => Option::None,
        }
    }

    /// Registers a fresh pair. Both sides must be unused: names are
    /// unique at all times, and so are the ids they point to.
    pub fn insert(&mut self, left: u64, right: usize)
        requires
            old(self).wf(),
            !old(self).spec_contains_left(left),
            !old(self).spec_contains_right(right),
        ensures
            final(self).wf(),
            final(self).pairs_seq() == old(self).pairs_seq().push((left, right)),
    {
        proof {
            assert forall|i: int| 0 <= i < self.pairs_seq().len() implies #[trigger] self.pairs_seq()[
                i
            ].0 != left && self.pairs_seq()[i].1 != right by {
                if self.pairs_seq()[i].0 == left {
                    assert(self.spec_contains_left(left));
                }
                if self.pairs_seq()[i].1 == right {
                    assert(self.spec_contains_right(right));
                }
            }
        }
        self.pairs.push((left, right));
    }

    /// Removes the pair holding `right` and hands it back, or does
    /// nothing if no pair holds it. The last pair moves into the freed
    /// position.
    pub fn remove_by_right(&mut self, right: usize) -> (r: Option<(u64, usize)>)
        requires
            old(self).wf(),
        ensures
            final(self).wf(),
            match r {
                Option::Some(p) => {
                    &&& old(self).spec_contains_right(right)
                    &&& p == old(self).pairs_seq()[old(self).right_index_of(right)]
                    &&& final(self).pairs_seq() == old(self).pairs_seq().update(
                        old(self).right_index_of(right),
                        old(self).pairs_seq().last(),
                    ).drop_last()
                },
                Option::None => {
                    &&& !old(self).spec_contains_right(right)
                    &&& final(self).pairs_seq() == old(self).pairs_seq()
                },
            },
    {
        match self.find_right(right) {
            Option::Some(i) => {
                proof {
                    assert(self.pairs_seq()[self.right_index_of(right)].1 == right);
                    assert(self.right_index_of(right) == i as int);
                }
                let p = self.pairs.swap_remove(i);
                Option::Some(p)
            },
            Option::None => Option::None,
        }
    }

    /// Removes the pair at a position; later pairs keep their order.
    pub fn remove_at(&mut self, i: usize)
        requires
            old(self).wf(),
            i < old(self).pairs_seq().len(),
        ensures
            final(self).wf(),
            final(self).pairs_seq() == old(self).pairs_seq().remove(i as int),
    {
        self.pairs.remove(i);
        proof {
            assert forall|a: int, b: int|
                0 <= a < b < self.pairs_seq().len() implies #[trigger] self.pairs_seq()[a].0
                != #[trigger] self.pairs_seq()[b].0 by {
                assert(self.pairs_seq()[a] == if a < i as int {
                    old(self).pairs_seq()[a]
                } else {
                    old(self).pairs_seq()[a + 1]
                });
                assert(self.pairs_seq()[b] == if b < i as int {
                    old(self).pairs_seq()[b]
                } else {
                    old(self).pairs_seq()[b + 1]
                });
            }
            assert forall|a: int, b: int|
                0 <= a < b < self.pairs_seq().len() implies #[trigger] self.pairs_seq()[a].1
                != #[trigger] self.pairs_seq()[b].1 by {
                assert(self.pairs_seq()[a] == if a < i as int {
                    old(self).pairs_seq()[a]
                } else {
                    old(self).pairs_seq()[a + 1]
                });
                assert(self.pairs_seq()[b] == if b < i as int {
                    old(self).pairs_seq()[b]
                } else {
                    old(self).pairs_seq()[b + 1]
                });
            }
        }
    }
}

} // verus!
