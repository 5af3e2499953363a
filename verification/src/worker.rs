//! Workers: the fixed consumers of the job queue.
//!
//! A worker has a stable identity in `0..N`, assigned at pool construction
//! and never reused, and is always in one of three states: waiting for a
//! job, running a job, or exited after observing the close signal on an
//! empty queue. The identity is descriptive metadata only; it has no
//! scheduling effect.

use vstd::prelude::*;

verus! {

/// What a worker is doing right now.
#[derive(Clone, Copy, Debug, PartialEq, Eq, Structural)]
pub enum WorkerState {
    /// Waiting for the next job (blocked on the queue in a threaded host).
    Idle,
    /// Executing the job with this identifier.
    Running(u64),
    /// Exited: the worker observed the queue empty and closed.
    Exited,
}

/// One worker of the pool.
#[derive(Clone, Copy, Debug, PartialEq, Eq, Structural)]
pub struct Worker {
    /// Stable identity in `0..N`.
    pub id: usize,
    /// Current state.
    pub state: WorkerState,
}

impl Worker {
    /// A fresh worker, idle from the start.
    pub fn new(id: usize) -> (w: Worker)
        ensures
            w.id == id,
            w.state == WorkerState::Idle,
    {
        Worker { id, state: WorkerState::Idle }
    }
}

} // verus!
