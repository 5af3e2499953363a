//! Errors reported by the pool.

use vstd::prelude::*;

verus! {

/// Invalid configuration: a pool was requested with zero workers.
#[derive(Clone, Copy, Debug, PartialEq, Eq, Structural)]
pub struct PoolCreationError;

impl PoolCreationError {
    /// Builds the error value reported for an invalid pool size.
    pub fn new() -> (e: PoolCreationError)
        ensures
            e == (PoolCreationError {}),
    {
        PoolCreationError {}
    }
}

/// A job was submitted after the queue was closed: the pool has begun
/// shutting down and accepts no further work.
#[derive(Clone, Copy, Debug, PartialEq, Eq, Structural)]
pub struct PoolClosed;

} // verus!
