//! The watched-future protocol: polling a one-shot result by state.
//!
//! A watched future is a component that tracks one asynchronous
//! computation. Its slot moves through four states: waiting for the
//! result, holding it, failed because the sender went away, or emptied
//! because the result was taken. The transitions — what a take attempt
//! returns and leaves behind, and what each tick's flush does — are
//! verified here; the actual channel and task live with the embedding
//! application, which feeds their observations in as [`PollOutcome`]
//! values.

use vstd::prelude::*;

verus! {

/// Where a watched future stands.
pub enum FutureSlot<T> {
    /// The result has not arrived yet.
    Pending,
    /// The result arrived and waits to be taken.
    Done(T),
    /// The sender went away; no result will ever arrive.
    Failed,
    /// The result was taken; the owning entity is now disposable.
    Taken,
}

/// Why a take attempt returned no value.
#[derive(Debug)]
pub enum WatchedFutureError {
    /// The result has not arrived yet; try again next tick.
    Pending,
    /// The computation failed; no result will ever arrive.
    FutureFailed,
    /// The result was already taken.
    Taken,
}

/// What one poll of the underlying channel observed. The embedding
/// application produces this from its channel; every transition below
/// is verified for each possible observation.
pub enum PollOutcome<T> {
    /// A value arrived.
    Ready(T),
    /// Nothing yet.
    Empty,
    /// The sender is gone; nothing will ever arrive.
    Closed,
}

/// One take attempt: a held result is handed out exactly once, and
/// every other state explains itself without changing — except that
/// taking moves the slot to `Taken`, so a second attempt reports
/// [`WatchedFutureError::Taken`].
pub fn take_output<T>(slot: FutureSlot<T>) -> (r: (Result<T, WatchedFutureError>, FutureSlot<T>))
    ensures
        match slot {
            FutureSlot::Pending => r.0 matches Result::Err(e) && e is Pending && r.1 is Pending,
            FutureSlot::Done(x) => r.0 matches Result::Ok(y) && y == x && r.1 is Taken,
            FutureSlot::Failed => r.0 matches Result::Err(e) && e is FutureFailed && r.1 is Failed,
            FutureSlot::Taken => r.0 matches Result::Err(e) && e is Taken && r.1 is Taken,
        },
{
    match slot {
        FutureSlot::Pending => (Result::Err(WatchedFutureError::Pending), FutureSlot::Pending),
        FutureSlot::Done(x) => (Result::Ok(x), FutureSlot::Taken),
        FutureSlot::Failed => (Result::Err(WatchedFutureError::FutureFailed), FutureSlot::Failed),
        FutureSlot::Taken => (Result::Err(WatchedFutureError::Taken), FutureSlot::Taken),
    }
}

/// One tick's flush step for a watched future: a pending slot absorbs
/// whatever the poll observed, a taken slot asks for its entity's
/// removal, and settled slots stay put. The second component says
/// whether the owning entity should be queued for removal this tick.
pub fn flush_step<T>(slot: FutureSlot<T>, poll: PollOutcome<T>) -> (r: (FutureSlot<T>, bool))
    ensures
        match slot {
            FutureSlot::Pending => {
                &&& !r.1
                &&& match poll {
                    PollOutcome::Ready(x) => r.0 matches FutureSlot::Done(y) && y == x,
                    PollOutcome::Empty => r.0 is Pending,
                    PollOutcome::Closed => r.0 is Failed,
                }
            },
            FutureSlot::Done(x) => r.0 matches FutureSlot::Done(y) && y == x && !r.1,
            FutureSlot::Failed => r.0 is Failed && !r.1,
            FutureSlot::Taken => r.0 is Taken && r.1,
        },
{
    match slot {
        FutureSlot::Pending => match poll {
            PollOutcome::Ready(x) => (FutureSlot::Done(x), false),
            PollOutcome::Empty => (FutureSlot::Pending, false),
            PollOutcome::Closed => (FutureSlot::Failed, false),
        },
        FutureSlot::Done(x) => (FutureSlot::Done(x), false),
        FutureSlot::Failed => (FutureSlot::Failed, false),
        FutureSlot::Taken => (FutureSlot::Taken, true),
    }
}

} // verus!
