//! The job queue: FIFO transport of job identifiers from producers to the
//! worker group, with a one-time close signal.
//!
//! The queue is unbounded. Submission appends at the tail and fails once
//! the queue is closed; removal takes the head. Closing is idempotent and
//! discards nothing: every job submitted before the close is still handed
//! out before `Dequeued::Closed` is ever reported. In a threaded host the
//! consumer blocks on an empty open queue; this model reports that case as
//! `Dequeued::Pending` and leaves the queue unchanged.

use std::collections::VecDeque;
use vstd::prelude::*;

use crate::errors::PoolClosed;

verus! {

/// The outcome of one attempt to remove the head job.
#[derive(Clone, Copy, Debug, PartialEq, Eq, Structural)]
pub enum Dequeued {
    /// The head job, removed from the queue.
    Job(u64),
    /// The queue is empty but still open: the caller would block until a
    /// job arrives or the queue closes.
    Pending,
    /// The queue is empty and closed: no job will ever arrive again.
    Closed,
}

/// A FIFO queue of job identifiers with a monotonic closed flag.
pub struct JobQueue {
    jobs: VecDeque<u64>,
    closed: bool,
}

impl View for JobQueue {
    type V = Seq<u64>;

    /// The pending jobs, head first.
    closed spec fn view(&self) -> Seq<u64> {
        self.jobs@
    }
}

impl JobQueue {
    /// Whether the close signal has been given.
    pub closed spec fn is_closed(&self) -> bool {
        self.closed
    }

    /// An empty, open queue.
    pub fn new() -> (q: JobQueue)
        ensures
            q@ == Seq::<u64>::empty(),
            !q.is_closed(),
    {
        JobQueue { jobs: VecDeque::new(), closed: false }
    }

    /// Appends `job` at the tail; fails, changing nothing, if and only if
    /// the queue has been closed.
    pub fn submit(&mut self, job: u64) -> (r: Result<(), PoolClosed>)
        ensures
            final(self).is_closed() == old(self).is_closed(),
            old(self).is_closed() ==> r is Err && final(self)@ == old(self)@,
            !old(self).is_closed() ==> r is Ok && final(self)@ == old(self)@.push(job),
    {
        if self.closed {
            Err(PoolClosed)
        } else {
            self.jobs.push_back(job);
            Ok(())
        }
    }

    /// Removes and returns the head job when one is buffered; otherwise
    /// reports `Closed` after the close signal and `Pending` before it.
    pub fn dequeue(&mut self) -> (r: Dequeued)
        ensures
            final(self).is_closed() == old(self).is_closed(),
            old(self)@.len() > 0 ==> r == Dequeued::Job(old(self)@[0])
                && final(self)@ == old(self)@.drop_first(),
            old(self)@.len() == 0 ==> final(self)@ == old(self)@,
            old(self)@.len() == 0 && old(self).is_closed() ==> r == Dequeued::Closed,
            old(self)@.len() == 0 && !old(self).is_closed() ==> r == Dequeued::Pending,
    {
        match self.jobs.pop_front() {
            Some(job) => {
                proof {
                    assert(self.jobs@ =~= old(self)@.drop_first());
                }
                Dequeued::Job(job)
            },
            None => {
                if self.closed {
                    Dequeued::Closed
                } else {
                    Dequeued::Pending
                }
            },
        }
    }

    /// Marks the queue closed. Idempotent; buffered jobs are kept.
    pub fn close(&mut self)
        ensures
            final(self)@ == old(self)@,
            final(self).is_closed(),
    {
        self.closed = true;
    }

    /// Whether the close signal has been given.
    pub fn is_closed_now(&self) -> (b: bool)
        ensures
            b == self.is_closed(),
    {
        self.closed
    }

    /// The number of buffered jobs.
    pub fn len(&self) -> (n: usize)
        ensures
            n == self@.len(),
    {
        self.jobs.len()
    }
}

} // verus!
