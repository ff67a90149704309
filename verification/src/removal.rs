//! Specification of the compaction step shared by the dense buffers.
//!
//! A flush gathers every queued removal index, keeps the ones that are
//! valid for the current length, deduplicates them, and applies
//! swap-removals in strictly descending index order. Removing from the
//! top down means no earlier removal can invalidate an index scheduled
//! for a later one. These functions pin down that whole pipeline at the
//! specification level; [`crate::buffer`] and [`crate::store`] state
//! their flush contracts in terms of them.

use vstd::prelude::*;

verus! {

/// One swap-removal: the last element moves into slot `i`, and the
/// sequence shrinks by one. Removing the last slot is a plain pop.
pub open spec fn swap_removed<A>(s: Seq<A>, i: int) -> Seq<A>
    recommends
        0 <= i < s.len(),
{
    if i == s.len() - 1 {
        s.drop_last()
    } else {
        s.update(i, s.last()).drop_last()
    }
}

/// The queued removal indices that are valid for a buffer of length
/// `len`, deduplicated and enumerated in strictly descending order.
pub open spec fn descending_valid(queued: Seq<usize>, len: nat) -> Seq<int>
    decreases len,
{
    if len == 0 {
        Seq::empty()
    } else if queued.contains((len - 1) as usize) {
        seq![len - 1] + descending_valid(queued, (len - 1) as nat)
    } else {
        descending_valid(queued, (len - 1) as nat)
    }
}

/// Folds swap-removals over a sequence of indices, first index first.
pub open spec fn swap_remove_all<A>(s: Seq<A>, idxs: Seq<int>) -> Seq<A>
    decreases idxs.len(),
{
    if idxs.len() == 0 {
        s
    } else {
        swap_remove_all(swap_removed(s, idxs[0]), idxs.skip(1))
    }
}

/// The queued removal indices that lie in `[floor, len)`, deduplicated
/// and in strictly descending order: the part of the enumeration a
/// descending scan has handled once it has reached `floor`.
pub open spec fn descending_valid_from(queued: Seq<usize>, len: nat, floor: nat) -> Seq<int>
    decreases len,
{
    if len <= floor {
        Seq::empty()
    } else if queued.contains((len - 1) as usize) {
        seq![len - 1] + descending_valid_from(queued, (len - 1) as nat, floor)
    } else {
        descending_valid_from(queued, (len - 1) as nat, floor)
    }
}

/// A scan that has reached the bottom has handled the whole enumeration.
pub proof fn lemma_dv_from_zero(queued: Seq<usize>, len: nat)
    ensures
        descending_valid_from(queued, len, 0) == descending_valid(queued, len),
    decreases len,
{
    if len > 0 {
        lemma_dv_from_zero(queued, (len - 1) as nat);
    }
}

/// Moving the scan one index down appends that index to the handled
/// enumeration exactly when it is queued.
pub proof fn lemma_dv_from_step(queued: Seq<usize>, len: nat, floor: nat)
    requires
        floor < len,
    ensures
        descending_valid_from(queued, len, floor) == descending_valid_from(
            queued,
            len,
            (floor + 1) as nat,
        ) + (if queued.contains(floor as usize) {
            seq![floor as int]
        } else {
            Seq::<int>::empty()
        }),
    decreases len,
{
    let bit = if queued.contains(floor as usize) {
        seq![floor as int]
    } else {
        Seq::<int>::empty()
    };
    if len == floor + 1 {
        assert((len - 1) as usize == floor as usize);
        assert(descending_valid_from(queued, len, (floor + 1) as nat) == Seq::<int>::empty());
        assert(descending_valid_from(queued, (len - 1) as nat, floor) == Seq::<int>::empty());
        if queued.contains(floor as usize) {
            assert(descending_valid_from(queued, len, floor) == seq![len - 1]
                + descending_valid_from(queued, (len - 1) as nat, floor));
            assert(seq![len - 1] + Seq::<int>::empty() =~= Seq::<int>::empty() + seq![
                floor as int
            ]);
        } else {
            assert(descending_valid_from(queued, len, floor) == Seq::<int>::empty());
            assert(Seq::<int>::empty() =~= Seq::<int>::empty() + Seq::<int>::empty());
        }
    } else {
        lemma_dv_from_step(queued, (len - 1) as nat, floor);
        if queued.contains((len - 1) as usize) {
            assert(seq![len - 1] + (descending_valid_from(queued, (len - 1) as nat, (floor + 1) as nat)
                + bit) =~= (seq![len - 1] + descending_valid_from(
                queued,
                (len - 1) as nat,
                (floor + 1) as nat,
            )) + bit);
        }
    }
}

/// Shape of the partial enumeration: everything lies in `[floor, len)`,
/// strictly descending, so it holds at most `len - floor` indices.
pub proof fn lemma_dv_from_props(queued: Seq<usize>, len: nat, floor: nat)
    ensures
        forall|k: int|
            0 <= k < descending_valid_from(queued, len, floor).len() ==> floor
                <= #[trigger] descending_valid_from(queued, len, floor)[k] < len,
        forall|k: int|
            0 < k < descending_valid_from(queued, len, floor).len()
                ==> #[trigger] descending_valid_from(queued, len, floor)[k]
                < descending_valid_from(queued, len, floor)[k - 1],
        floor <= len ==> descending_valid_from(queued, len, floor).len() <= len - floor,
    decreases len,
{
    if len > floor {
        lemma_dv_from_props(queued, (len - 1) as nat, floor);
    }
}

/// The partial enumeration is step-valid: each index is in range at the
/// moment its removal runs, and the folded result is shorter by exactly
/// the enumeration's length.
pub proof fn lemma_dv_from_removes<A>(s: Seq<A>, queued: Seq<usize>, len: nat, floor: nat)
    requires
        s.len() == len,
    ensures
        forall|k: int|
            0 <= k < descending_valid_from(queued, len, floor).len()
                ==> 0 <= #[trigger] descending_valid_from(queued, len, floor)[k] < len - k,
        swap_remove_all(s, descending_valid_from(queued, len, floor)).len() == len
            - descending_valid_from(queued, len, floor).len(),
{
    lemma_dv_from_props(queued, len, floor);
    let dv = descending_valid_from(queued, len, floor);
    assert forall|k: int| 0 <= k < dv.len() implies 0 <= #[trigger] dv[k] < len - k by {
        lemma_descending_prefix_bound(dv, k);
    }
    lemma_swap_remove_all_len(s, dv);
}

/// Folding a concatenation of index sequences is folding one after the
/// other.
pub proof fn lemma_swap_remove_all_concat<A>(s: Seq<A>, a: Seq<int>, b: Seq<int>)
    ensures
        swap_remove_all(s, a + b) == swap_remove_all(swap_remove_all(s, a), b),
    decreases a.len(),
{
    if a.len() == 0 {
        assert(a + b =~= b);
    } else {
        assert((a + b)[0] == a[0]);
        assert((a + b).skip(1) =~= a.skip(1) + b);
        lemma_swap_remove_all_concat(swap_removed(s, a[0]), a.skip(1), b);
    }
}

/// The contents a flush commits: every valid queued removal applied in
/// descending order, then the staged additions appended.
pub open spec fn flushed<A>(s: Seq<A>, queued: Seq<usize>, adds: Seq<A>) -> Seq<A> {
    swap_remove_all(s, descending_valid(queued, s.len())) + adds
}

/// Every index the enumeration yields is a valid, queued one, and they
/// appear in strictly descending order.
pub proof fn lemma_descending_valid_shape(queued: Seq<usize>, len: nat)
    ensures
        forall|k: int|
            0 <= k < descending_valid(queued, len).len() ==> {
                &&& 0 <= #[trigger] descending_valid(queued, len)[k] < len
                &&& queued.contains(descending_valid(queued, len)[k] as usize)
            },
        forall|k: int|
            0 < k < descending_valid(queued, len).len()
                ==> #[trigger] descending_valid(queued, len)[k] < descending_valid(queued, len)[
                k - 1
            ],
        descending_valid(queued, len).len() <= len,
    decreases len,
{
    if len > 0 {
        lemma_descending_valid_shape(queued, (len - 1) as nat);
    }
}

/// An index is enumerated exactly when it is queued and in range: the
/// enumeration is exhaustive and free of duplicates.
pub proof fn lemma_descending_valid_membership(queued: Seq<usize>, len: nat, i: int)
    ensures
        descending_valid(queued, len).contains(i) <==> (0 <= i < len && queued.contains(
            i as usize,
        )),
    decreases len,
{
    if len > 0 {
        lemma_descending_valid_membership(queued, (len - 1) as nat, i);
        let head = seq![len - 1];
        let tail = descending_valid(queued, (len - 1) as nat);
        if queued.contains((len - 1) as usize) {
            assert(descending_valid(queued, len) == head + tail);
            assert forall|j: int| (head + tail).contains(j) implies j == len - 1 || tail.contains(
                j,
            ) by {
                let k = choose|k: int| 0 <= k < (head + tail).len() && (head + tail)[k] == j;
                if k > 0 {
                    assert(tail[k - 1] == j);
                }
            }
            if i == len - 1 {
                assert((head + tail)[0] == i);
            } else if tail.contains(i) {
                let k = choose|k: int| 0 <= k < tail.len() && tail[k] == i;
                assert((head + tail)[k + 1] == i);
            }
        }
    }
}

/// Removal is idempotent at the specification level: which indices get
/// removed depends only on which ones were queued, not on how many
/// times. Queues with the same members yield the same enumeration.
pub proof fn lemma_descending_valid_members_only(q1: Seq<usize>, q2: Seq<usize>, len: nat)
    requires
        forall|x: usize| q1.contains(x) <==> q2.contains(x),
    ensures
        descending_valid(q1, len) == descending_valid(q2, len),
    decreases len,
{
    if len > 0 {
        lemma_descending_valid_members_only(q1, q2, (len - 1) as nat);
        assert(q1.contains((len - 1) as usize) <==> q2.contains((len - 1) as usize));
    }
}

/// Applying a strictly descending, in-range index sequence removes
/// exactly one element per index.
pub proof fn lemma_swap_remove_all_len<A>(s: Seq<A>, idxs: Seq<int>)
    requires
        forall|k: int| 0 <= k < idxs.len() ==> 0 <= #[trigger] idxs[k] < s.len() - k,
    ensures
        swap_remove_all(s, idxs).len() == s.len() - idxs.len(),
    decreases idxs.len(),
{
    if idxs.len() > 0 {
        let s2 = swap_removed(s, idxs[0]);
        assert(s2.len() == s.len() - 1);
        assert forall|k: int| 0 <= k < idxs.skip(1).len() implies 0 <= #[trigger] idxs.skip(1)[k]
            < s2.len() - k by {
            assert(idxs.skip(1)[k] == idxs[k + 1]);
        }
        lemma_swap_remove_all_len(s2, idxs.skip(1));
    }
}

/// The descending enumeration satisfies the step-validity condition of
/// [`lemma_swap_remove_all_len`]: because higher indices are removed
/// first, each index is still in range when its turn comes.
pub proof fn lemma_descending_valid_in_range(queued: Seq<usize>, len: nat)
    ensures
        forall|k: int|
            0 <= k < descending_valid(queued, len).len() ==> 0 <= #[trigger] descending_valid(
                queued,
                len,
            )[k] < len - k,
    decreases len,
{
    lemma_descending_valid_shape(queued, len);
    let dv = descending_valid(queued, len);
    assert forall|k: int| 0 <= k < dv.len() implies 0 <= #[trigger] dv[k] < len - k by {
        lemma_descending_prefix_bound(dv, k);
        assert(dv[0] < len);
    }
}

/// In a strictly descending sequence, the element at position `k` is at
/// least `k` below the first element.
proof fn lemma_descending_prefix_bound(dv: Seq<int>, k: int)
    requires
        forall|j: int| 0 < j < dv.len() ==> #[trigger] dv[j] < dv[j - 1],
        0 <= k < dv.len(),
    ensures
        dv[k] <= dv[0] - k,
    decreases k,
{
    if k > 0 {
        lemma_descending_prefix_bound(dv, k - 1);
    }
}

/// The number of committed removals: how many distinct queued indices
/// are valid for length `len`. This is the cardinality by which one
/// flush shrinks the live contents.
pub open spec fn removal_count(queued: Seq<usize>, len: nat) -> nat {
    descending_valid(queued, len).len()
}

/// Conservation at the specification level: after a flush, the length
/// is the previous length, minus the distinct valid removals, plus the
/// additions.
pub proof fn lemma_flushed_len<A>(s: Seq<A>, queued: Seq<usize>, adds: Seq<A>)
    ensures
        flushed(s, queued, adds).len() == s.len() - removal_count(queued, s.len()) + adds.len(),
        removal_count(queued, s.len()) <= s.len(),
{
    lemma_descending_valid_in_range(queued, s.len());
    lemma_descending_valid_shape(queued, s.len());
    lemma_swap_remove_all_len(s, descending_valid(queued, s.len()));
}

/// A flush with nothing queued commits nothing: the contents come out
/// exactly as they went in.
pub proof fn lemma_quiescent_flush<A>(s: Seq<A>)
    ensures
        flushed(s, Seq::empty(), Seq::empty()) == s,
    decreases s.len(),
{
    lemma_descending_valid_empty(Seq::empty(), s.len());
    assert(swap_remove_all(s, Seq::empty()) == s);
    assert(s + Seq::<A>::empty() =~= s);
}

/// Nothing queued, nothing enumerated.
proof fn lemma_descending_valid_empty(queued: Seq<usize>, len: nat)
    requires
        queued.len() == 0,
    ensures
        descending_valid(queued, len) == Seq::<int>::empty(),
    decreases len,
{
    if len > 0 {
        lemma_descending_valid_empty(queued, (len - 1) as nat);
    }
}

/// Queuing an index that is already queued changes nothing about what a
/// flush commits: removal is idempotent.
pub proof fn lemma_removal_idempotent<A>(s: Seq<A>, queued: Seq<usize>, extra: usize, adds: Seq<A>)
    requires
        queued.contains(extra),
    ensures
        flushed(s, queued.push(extra), adds) == flushed(s, queued, adds),
{
    assert forall|x: usize| queued.push(extra).contains(x) <==> queued.contains(x) by {
        if queued.contains(x) {
            let k = choose|k: int| 0 <= k < queued.len() && queued[k] == x;
            assert(queued.push(extra)[k] == x);
        }
        if queued.push(extra).contains(x) {
            let k = choose|k: int| 0 <= k < queued.push(extra).len() && queued.push(extra)[k] == x;
            if k < queued.len() {
                assert(queued[k] == x);
            }
        }
    }
    lemma_descending_valid_members_only(queued.push(extra), queued, s.len());
}

} // verus!
