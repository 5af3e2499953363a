//! A fixed-size worker pool, modelled and verified.
//!
//! The pool decouples submission of deferred units of work ("jobs") from
//! their execution by a fixed set of workers. Jobs travel through a FIFO
//! queue with a one-time close signal; each submitted job is delivered to
//! exactly one worker, and shutdown drains every buffered job before the
//! workers exit.
//!
//! The library captures the pool as a state machine over plain values: a
//! job is represented by its identifier, and running a job is recorded in
//! a completion log. A threaded host drives the same transitions with OS
//! threads and a real channel; the contracts here state what any such
//! schedule must preserve.

pub mod errors;
pub mod pool;
pub mod queue;
pub mod worker;
