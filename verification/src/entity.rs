//! Entities and the self-excluding component view.
//!
//! An entity is a fixed-shape value made of components. The runtime never
//! hands user code a mutable alias: during the process phase an entity is
//! read through `&self` and all mutation is staged. When one component of
//! an entity is being processed, lookups of sibling components must not
//! return the component under processing — otherwise a processor could
//! alias its own in-progress access as a sibling's. An
//! [`EntityReference`] carries the entity's slot index together with the
//! component positions and their type keys, and answers sibling queries
//! with the processing component excluded by construction.

use vstd::prelude::*;

use crate::registry::UniqueTypeSet;
use crate::universe::Effects;

verus! {

/// A fixed-shape tuple of components, stored densely by its buffer.
///
/// `S` is the singleton kind the surrounding universe registers and `X`
/// the error payload an exit request may carry. Neither method carries a
/// contract: implementations are user logic, and the runtime's own
/// guarantees never depend on what they do.
pub trait Entity<S, X>: Sized {
    /// Runs one tick of user logic for this entity. Mutation is staged
    /// through `fx`; the entity itself and the singleton registry are
    /// read-only for the whole phase.
    fn process(&self, my_index: usize, singletons: &UniqueTypeSet<S>, fx: &mut Effects<Self, S, X>);

    /// Applies this entity's own staged per-field mutations. Called once
    /// per tick during flush, before any structural change.
    fn flush(&mut self);
}

/// Something that may stand where an entity is expected; the unit type
/// stands for "no entity".
pub trait MaybeEntity {

}

impl MaybeEntity for () {

}

/// The component positions among `slot_types` that hold type `ty`,
/// leaving out the excluded position, in ascending order.
pub open spec fn matching_slots(slot_types: Seq<u64>, ty: u64, excluded: int) -> Seq<usize>
    decreases slot_types.len(),
{
    if slot_types.len() == 0 {
        Seq::empty()
    } else {
        let head = slot_types.len() - 1;
        let rest = matching_slots(slot_types.drop_last(), ty, excluded);
        if slot_types[head] == ty && head != excluded {
            rest.push(head as usize)
        } else {
            rest
        }
    }
}

/// A weak view of one entity during processing: its slot index in the
/// buffer, the type key of each of its component positions, and the
/// position whose component is currently being processed. Sibling
/// queries exclude that position by construction.
pub struct EntityReference {
    index: usize,
    slot_types: Vec<u64>,
    excluded: usize,
}

impl EntityReference {
    /// The entity's position in its buffer during this tick.
    pub closed spec fn index_spec(self) -> usize {
        self.index
    }

    /// The type key of each component position.
    pub closed spec fn types_seq(self) -> Seq<u64> {
        self.slot_types@
    }

    /// The position under processing, excluded from sibling queries.
    pub closed spec fn excluded_slot(self) -> usize {
        self.excluded
    }

    /// Creates the view handed to the component at position `excluded`.
    pub fn new(index: usize, slot_types: Vec<u64>, excluded: usize) -> (r: Self)
        ensures
            r.index_spec() == index,
            r.types_seq() == slot_types@,
            r.excluded_slot() == excluded,
    {
        EntityReference { index, slot_types, excluded }
    }

    /// The entity's position in its buffer during this tick.
    pub fn index(&self) -> (i: usize)
        ensures
            i == self.index_spec(),
    {
        self.index
    }

    /// How many component positions the entity has.
    pub fn arity(&self) -> (n: usize)
        ensures
            n == self.types_seq().len(),
    {
        self.slot_types.len()
    }

    /// The position of the sibling component of type `ty`.
    ///
    /// The first position holding `ty` decides: if it is the one under
    /// processing, the answer is empty even when a later position also
    /// holds `ty` — a processor never sees itself as its own sibling.
    pub fn get_component(&self, ty: u64) -> (r: Option<usize>)
        ensures
            match r {
                Option::Some(i) => {
                    &&& i < self.types_seq().len()
                    &&& self.types_seq()[i as int] == ty
                    &&& i as int == first_of(self.types_seq(), ty)
                    &&& i != self.excluded_slot()
                },
                Option::None => first_of(self.types_seq(), ty) == self.types_seq().len()
                    || first_of(self.types_seq(), ty) == self.excluded_slot() as int,
            },
    {
        let mut i: usize = 0;
        while i < self.slot_types.len()
            invariant
                i <= self.types_seq().len(),
                forall|j: int| 0 <= j < i ==> #[trigger] self.types_seq()[j] != ty,
            decreases self.types_seq().len() - i,
        {
            if self.slot_types[i] == ty {
                proof {
                    lemma_first_of(self.types_seq(), ty);
                }
                if i == self.excluded {
                    return Option::None;
                }
                return Option::Some(i);
            }
            i = i + 1;
        }
        proof {
            lemma_first_of(self.types_seq(), ty);
        }
        Option::None
    }

    /// Every sibling position holding type `ty`, in ascending order,
    /// with the position under processing left out.
    pub fn get_components(&self, ty: u64) -> (r: Vec<usize>)
        ensures
            r@ == matching_slots(self.types_seq(), ty, self.excluded_slot() as int),
    {
        let mut out: Vec<usize> = Vec::new();
        let mut i: usize = 0;
        while i < self.slot_types.len()
            invariant
                i <= self.types_seq().len(),
                out@ == matching_slots(self.types_seq().take(i as int), ty, self.excluded_slot() as int),
            decreases self.types_seq().len() - i,
        {
            proof {
                assert(self.types_seq().take(i + 1).drop_last() == self.types_seq().take(i as int));
                assert(self.types_seq().take(i + 1).last() == self.types_seq()[i as int]);
            }
            if self.slot_types[i] == ty && i != self.excluded {
                out.push(i);
            }
            i = i + 1;
        }
        proof {
            assert(self.types_seq().take(self.types_seq().len() as int) == self.types_seq());
        }
        out
    }
}

/// The first position among `slot_types` holding `ty`, or the length if
/// none does.
pub open spec fn first_of(slot_types: Seq<u64>, ty: u64) -> int
    decreases slot_types.len(),
{
    if slot_types.len() == 0 {
        0
    } else if slot_types[0] == ty {
        0
    } else {
        1 + first_of(slot_types.skip(1), ty)
    }
}

/// What [`first_of`] means: it points at the first occurrence of `ty`,
/// and equals the length exactly when `ty` does not occur.
pub proof fn lemma_first_of(slot_types: Seq<u64>, ty: u64)
    ensures
        0 <= first_of(slot_types, ty) <= slot_types.len(),
        first_of(slot_types, ty) < slot_types.len() ==> slot_types[first_of(slot_types, ty)] == ty,
        forall|j: int| 0 <= j < first_of(slot_types, ty) ==> #[trigger] slot_types[j] != ty,
        first_of(slot_types, ty) == slot_types.len() ==> forall|j: int|
            0 <= j < slot_types.len() ==> #[trigger] slot_types[j] != ty,
    decreases slot_types.len(),
{
    if slot_types.len() > 0 && slot_types[0] != ty {
        let rest = slot_types.skip(1);
        lemma_first_of(rest, ty);
        assert forall|j: int| 0 <= j < first_of(slot_types, ty) implies #[trigger] slot_types[j]
            != ty by {
            if j > 0 {
                assert(rest[j - 1] == slot_types[j]);
            }
        }
        if first_of(slot_types, ty) < slot_types.len() {
            assert(rest[first_of(slot_types, ty) - 1] == slot_types[first_of(slot_types, ty)]);
        } else {
            assert forall|j: int| 0 <= j < slot_types.len() implies #[trigger] slot_types[j]
                != ty by {
                if j > 0 {
                    assert(rest[j - 1] == slot_types[j]);
                }
            }
        }
    }
}

} // verus!
