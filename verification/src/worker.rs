//! The worker protocol: message-driven tasks around one managed value.
//!
//! A worker owns a single value — a socket, a file, any slow resource —
//! and executes messages against it off the main threads. Each executed
//! message yields an [`ExecResult`], and the task loop decides from it
//! alone whether to forward a reply, keep going, or stop. That decision
//! is the verified part here; the channels and threads that carry the
//! messages belong to the embedding application.

use vstd::prelude::*;

verus! {

/// The kind of access worker tasks need to the managed value.
#[derive(PartialEq, Eq, Structural)]
pub enum MutabilityAccess {
    /// Shared access; the payload caps how many tasks may read the
    /// value at once.
    Immutable(usize),
    /// Exclusive access: exactly one task.
    Mutable,
}

/// What one executed message asks of the task loop.
pub enum ExecResult<T> {
    /// A reply to hand back to the worker's owner.
    Reply(T),
    /// Nothing to reply; keep executing messages.
    Continue,
    /// Stop one task; when several are running, each needs its own
    /// close message.
    Close,
}

/// What the task loop does after one message: forward a reply and keep
/// going, just keep going, or stop.
pub enum WorkerStep<T> {
    /// Send this reply to the owner, then wait for the next message.
    Forward(T),
    /// Wait for the next message.
    KeepGoing,
    /// End the task.
    Stop,
}

/// A message a worker task can execute against the managed value.
/// Implementations are user logic; [`MutabilityAccess`] decides which
/// of the two execution methods the task loop calls.
pub trait WorkerMessage: Sized {
    /// The value the worker's tasks manage.
    type WorkerValue;

    /// The access the tasks need to the managed value.
    fn mutability_access() -> MutabilityAccess;

    /// Executes this message against the shared value.
    fn exec(self, value: &Self::WorkerValue) -> ExecResult<Self>;

    /// Executes this message against the exclusively held value.
    fn exec_mut(self, value: &mut Self::WorkerValue) -> ExecResult<Self>;
}

/// The task loop's decision for one executed message: a reply is
/// forwarded, no reply keeps the loop running, and a close ends it.
pub fn worker_step<T>(result: ExecResult<T>) -> (step: WorkerStep<T>)
    ensures
        match result {
            ExecResult::Reply(x) => step matches WorkerStep::Forward(y) && y == x,
            ExecResult::Continue => step is KeepGoing,
            ExecResult::Close => step is Stop,
        },
{
    match result {
        ExecResult::Reply(x) => WorkerStep::Forward(x),
        ExecResult::Continue => WorkerStep::KeepGoing,
        ExecResult::Close => WorkerStep::Stop,
    }
}

} // verus!
