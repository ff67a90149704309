//! The process/flush phase gate.
//!
//! Each store separates the many small, concurrent *process* accesses
//! from the exclusive *flush* with one counter: the low bits count the
//! process holders currently inside, and one reserved high bit marks
//! that a flush is pending or active. A process entry that sees the
//! flush bit backs off; a flush first sets the bit — blocking new
//! entries — then waits until the counter shows nothing but the bit,
//! meaning every in-flight process holder has drained, and only then
//! owns the store. This is readers-versus-flusher mutual exclusion with
//! no lock around the common case.
//!
//! A [`PhaseGate`] is that counter as a verified state machine: the
//! operations are the allowed transitions, and the key exclusion fact —
//! a flush may run only when no process holder remains — is the
//! contract of [`PhaseGate::flush_ready`].

use vstd::prelude::*;

verus! {

/// Marks a pending or active flush.
pub const FLUSH_BIT: u64 = 0x8000_0000_0000_0000u64;

/// Masks out the holder tally.
pub const HOLDER_MASK: u64 = 0x7fff_ffff_ffff_ffffu64;

/// The phase-gate counter. The low 63 bits count process holders; the
/// high bit marks a pending or active flush.
pub struct PhaseGate {
    count: u64,
}

impl PhaseGate {
    /// The raw counter value.
    pub closed spec fn count(self) -> u64 {
        self.count
    }

    /// How many process holders are inside.
    pub open spec fn holders(self) -> u64 {
        self.count() & HOLDER_MASK
    }

    /// Whether a flush is pending or active.
    pub open spec fn flush_pending(self) -> bool {
        self.count() & FLUSH_BIT == FLUSH_BIT
    }

    /// The counter is exactly its two parts: the holder count and the
    /// flush bit.
    pub open spec fn wf(self) -> bool {
        self.count() == self.holders() + if self.flush_pending() {
            FLUSH_BIT
        } else {
            0
        }
    }

    /// A fresh gate: nobody inside, no flush pending.
    pub fn new() -> (g: Self)
        ensures
            g.wf(),
            g.holders() == 0,
            !g.flush_pending(),
    {
        proof {
            lemma_gate_bits(0);
        }
        PhaseGate { count: 0 }
    }

    /// One attempt to enter the process phase. It succeeds — counting
    /// one more holder — exactly when no flush is pending and the holder
    /// count has room; with a pending flush the caller must back off and
    /// retry after the flush clears the bit.
    pub fn try_enter_process(&mut self) -> (entered: bool)
        requires
            old(self).wf(),
        ensures
            final(self).wf(),
            entered == (!old(self).flush_pending() && old(self).holders() < HOLDER_MASK),
            entered ==> {
                &&& final(self).holders() == old(self).holders() + 1
                &&& !final(self).flush_pending()
            },
            !entered ==> *final(self) == *old(self),
    {
        proof {
            lemma_gate_bits(self.count);
        }
        if self.count & FLUSH_BIT == FLUSH_BIT {
            return false;
        }
        if self.count == HOLDER_MASK {
            return false;
        }
        self.count = self.count + 1;
        proof {
            lemma_gate_bits(self.count);
        }
        true
    }

    /// Leaves the process phase, giving up one holder slot.
    pub fn exit_process(&mut self)
        requires
            old(self).wf(),
            old(self).holders() > 0,
        ensures
            final(self).wf(),
            final(self).holders() == old(self).holders() - 1,
            final(self).flush_pending() == old(self).flush_pending(),
    {
        proof {
            lemma_gate_bits(self.count);
            lemma_gate_bits((self.count - 1) as u64);
        }
        self.count = self.count - 1;
    }

    /// Marks a flush as pending, blocking new process entries. Only one
    /// flush may be pending at a time; running two flushes against one
    /// store is a programming error the protocol rules out.
    pub fn request_flush(&mut self)
        requires
            old(self).wf(),
            !old(self).flush_pending(),
        ensures
            final(self).wf(),
            final(self).flush_pending(),
            final(self).holders() == old(self).holders(),
    {
        proof {
            lemma_gate_bits(self.count);
            lemma_gate_bits((self.count + FLUSH_BIT) as u64);
        }
        self.count = self.count + FLUSH_BIT;
    }

    /// Whether the pending flush may now run: true exactly when every
    /// process holder has drained, so the flush holds exclusive access.
    pub fn flush_ready(&self) -> (ready: bool)
        requires
            self.wf(),
            self.flush_pending(),
        ensures
            ready == (self.holders() == 0),
    {
        proof {
            lemma_gate_bits(self.count);
        }
        self.count == FLUSH_BIT
    }

    /// Finishes the flush, clearing the bit so process entries succeed
    /// again.
    pub fn finish_flush(&mut self)
        requires
            old(self).wf(),
            old(self).flush_pending(),
        ensures
            final(self).wf(),
            !final(self).flush_pending(),
            final(self).holders() == old(self).holders(),
    {
        proof {
            lemma_gate_bits(self.count);
            lemma_gate_bits((self.count - FLUSH_BIT) as u64);
        }
        self.count = self.count - FLUSH_BIT;
    }
}

/// How the counter splits into the flush bit and the holder count.
proof fn lemma_gate_bits(c: u64)
    ensures
        c & HOLDER_MASK == if c & FLUSH_BIT == FLUSH_BIT {
            (c - FLUSH_BIT) as u64
        } else {
            c
        },
        c & FLUSH_BIT == FLUSH_BIT || c & FLUSH_BIT == 0,
        (c & FLUSH_BIT == FLUSH_BIT) ==> c >= FLUSH_BIT,
        (c & FLUSH_BIT == 0) ==> c < FLUSH_BIT,
{
    assert(c & 0x7fff_ffff_ffff_ffffu64 == if c & 0x8000_0000_0000_0000u64
        == 0x8000_0000_0000_0000u64 {
        (c - 0x8000_0000_0000_0000u64) as u64
    } else {
        c
    }) by (bit_vector);
    assert(c & 0x8000_0000_0000_0000u64 == 0x8000_0000_0000_0000u64 || c
        & 0x8000_0000_0000_0000u64 == 0) by (bit_vector);
    assert((c & 0x8000_0000_0000_0000u64 == 0x8000_0000_0000_0000u64) ==> c
        >= 0x8000_0000_0000_0000u64) by (bit_vector);
    assert((c & 0x8000_0000_0000_0000u64 == 0) ==> c < 0x8000_0000_0000_0000u64) by (bit_vector);
}

} // verus!
