//! The pool: a fixed set of workers around one shared job queue.
//!
//! A job is represented by its identifier; running a job is recorded by
//! appending that identifier to the completion log. The pool's methods are
//! the transitions of the state machine that a threaded host drives:
//! `execute` submits, `worker_poll` and `worker_finish` are the two halves
//! of one worker's loop turn (the consumption lock is held only across the
//! dequeue, never across execution, so polls and finishes of different
//! workers interleave freely), and `shutdown` closes the queue, drains it
//! and retires every worker.
//!
//! The well-formedness invariant `wf` carries the central bookkeeping law:
//! the multiset of submitted identifiers always equals the completed ones
//! plus the in-flight ones plus the buffered ones. Every transition
//! preserves it, whatever the schedule; once all workers have exited it
//! collapses to "completed equals submitted" — each job ran exactly once.

use vstd::assert_multisets_equal;
use vstd::assert_sets_equal;
use vstd::multiset::Multiset;
use vstd::prelude::*;

use crate::errors::{PoolClosed, PoolCreationError};
use crate::queue::{Dequeued, JobQueue};
use crate::worker::{Worker, WorkerState};

verus! {

broadcast use vstd::seq_lib::group_to_multiset_ensures, vstd::multiset::group_multiset_axioms;

/// The job a worker holds, as a multiset: one identifier while it runs a
/// job, nothing otherwise.
pub open spec fn held_jobs(w: Worker) -> Multiset<u64> {
    match w.state {
        WorkerState::Running(job) => Multiset::singleton(job),
        _ => Multiset::empty(),
    }
}

/// The job a worker holds, as a sequence (used for the single-worker
/// ordering invariant).
pub open spec fn held_seq(w: Worker) -> Seq<u64> {
    match w.state {
        WorkerState::Running(job) => seq![job],
        _ => Seq::empty(),
    }
}

/// All jobs currently being run by the given workers.
pub open spec fn in_flight(ws: Seq<Worker>) -> Multiset<u64>
    decreases ws.len(),
{
    if ws.len() == 0 {
        Multiset::empty()
    } else {
        in_flight(ws.drop_last()).add(held_jobs(ws.last()))
    }
}

/// Every worker has exited.
pub open spec fn all_exited(ws: Seq<Worker>) -> bool {
    forall|i: int| 0 <= i < ws.len() ==> (#[trigger] ws[i]).state is Exited
}

/// The weight of one worker in the shutdown drain's termination measure.
pub open spec fn drive_weight(s: WorkerState) -> int {
    match s {
        WorkerState::Running(_) => 2,
        WorkerState::Idle => 1,
        WorkerState::Exited => 0,
    }
}

/// Workers running no job contribute nothing to the in-flight multiset.
pub proof fn lemma_in_flight_none_running(ws: Seq<Worker>)
    requires
        forall|i: int| 0 <= i < ws.len() ==> !((#[trigger] ws[i]).state is Running),
    ensures
        in_flight(ws) == Multiset::<u64>::empty(),
    decreases ws.len(),
{
    if ws.len() > 0 {
        lemma_in_flight_none_running(ws.drop_last());
        assert(!(ws[ws.len() - 1].state is Running));
        assert(in_flight(ws) =~= Multiset::<u64>::empty());
    }
}

/// Replacing one worker exchanges exactly its held jobs in the in-flight
/// multiset.
pub proof fn lemma_in_flight_update(ws: Seq<Worker>, i: int, w2: Worker)
    requires
        0 <= i < ws.len(),
    ensures
        in_flight(ws.update(i, w2)).add(held_jobs(ws[i])) == in_flight(ws).add(held_jobs(w2)),
    decreases ws.len(),
{
    let ws2 = ws.update(i, w2);
    if i == ws.len() - 1 {
        assert(ws2.drop_last() =~= ws.drop_last());
        assert(ws2.last() == w2);
        assert(ws[i] == ws.last());
        assert(in_flight(ws2) == in_flight(ws.drop_last()).add(held_jobs(w2)));
        assert(in_flight(ws) == in_flight(ws.drop_last()).add(held_jobs(ws.last())));
        assert_multisets_equal!(
            in_flight(ws2).add(held_jobs(ws[i])),
            in_flight(ws).add(held_jobs(w2)),
            v => {
                assert(in_flight(ws2).add(held_jobs(ws[i])).count(v) == in_flight(
                    ws.drop_last(),
                ).count(v) + held_jobs(w2).count(v) + held_jobs(ws.last()).count(v));
                assert(in_flight(ws).add(held_jobs(w2)).count(v) == in_flight(
                    ws.drop_last(),
                ).count(v) + held_jobs(ws.last()).count(v) + held_jobs(w2).count(v));
            }
        );
    } else {
        lemma_in_flight_update(ws.drop_last(), i, w2);
        assert(ws2.drop_last() =~= ws.drop_last().update(i, w2));
        assert(ws2.last() == ws.last());
        assert(ws[i] == ws.drop_last()[i]);
        assert_multisets_equal!(
            in_flight(ws2).add(held_jobs(ws[i])),
            in_flight(ws).add(held_jobs(w2)),
            v => {
                assert(in_flight(ws2).count(v) == in_flight(
                    ws.drop_last().update(i, w2),
                ).count(v) + held_jobs(ws.last()).count(v));
                assert(in_flight(ws.drop_last().update(i, w2)).add(held_jobs(
                    ws.drop_last()[i],
                )).count(v) == in_flight(ws.drop_last()).add(held_jobs(w2)).count(v));
                assert(in_flight(ws.drop_last().update(i, w2)).count(v) + held_jobs(
                    ws.drop_last()[i],
                ).count(v) == in_flight(ws.drop_last()).count(v) + held_jobs(w2).count(v));
                assert(in_flight(ws).count(v) == in_flight(ws.drop_last()).count(v)
                    + held_jobs(ws.last()).count(v));
            }
        );
    }
}

/// A fixed-size worker pool over one shared FIFO job queue.
pub struct ThreadPool {
    workers: Vec<Worker>,
    queue: JobQueue,
    log: Vec<u64>,
    joined: bool,
    history: Ghost<Seq<u64>>,
}

impl ThreadPool {
    /// The workers, indexed by their identity.
    pub closed spec fn workers_seq(&self) -> Seq<Worker> {
        self.workers@
    }

    /// The number of workers, fixed at construction.
    pub open spec fn size(&self) -> nat {
        self.workers_seq().len()
    }

    /// The buffered job identifiers, head first.
    pub closed spec fn pending(&self) -> Seq<u64> {
        self.queue@
    }

    /// The identifiers of executed jobs, in completion order.
    pub closed spec fn completed(&self) -> Seq<u64> {
        self.log@
    }

    /// The identifiers of all jobs ever accepted, in submission order.
    pub closed spec fn submitted(&self) -> Seq<u64> {
        self.history@
    }

    /// Whether the queue's one-time close signal has been given.
    pub closed spec fn is_closed(&self) -> bool {
        self.queue.is_closed()
    }

    /// Whether shutdown has completed: every worker exited and was joined.
    pub closed spec fn is_stopped(&self) -> bool {
        self.joined
    }

    /// Well-formedness: the invariant every transition preserves.
    ///
    /// - there is at least one worker, and worker `i` carries identity `i`;
    /// - bookkeeping: submitted = completed + in-flight + buffered, as
    ///   multisets of identifiers (each accepted job is in exactly one
    ///   place, and none is lost or duplicated);
    /// - a worker exits only after the close signal, and only once the
    ///   queue is empty for good;
    /// - with a single worker the equation holds as ordered sequences, so
    ///   jobs complete in strict submission order;
    /// - once stopped, the pool is closed and every worker has exited.
    pub open spec fn wf(&self) -> bool {
        &&& self.size() > 0
        &&& forall|i: int|
            0 <= i < self.size() ==> (#[trigger] self.workers_seq()[i]).id == i
        &&& self.submitted().to_multiset() == self.completed().to_multiset().add(
            in_flight(self.workers_seq()),
        ).add(self.pending().to_multiset())
        &&& forall|i: int|
            0 <= i < self.size() && (#[trigger] self.workers_seq()[i]).state is Exited
                ==> self.is_closed() && self.pending().len() == 0
        &&& (self.size() == 1 ==> self.submitted() == self.completed()
            + held_seq(self.workers_seq()[0]) + self.pending())
        &&& (self.is_stopped() ==> self.is_closed() && all_exited(self.workers_seq()))
    }

    /// Builds a pool of `size` workers, all initially idle, around a fresh
    /// open queue. Rejected, creating nothing, if and only if `size` is
    /// zero.
    pub fn new(size: usize) -> (r: Result<ThreadPool, PoolCreationError>)
        ensures
            r is Err <==> size == 0,
            r matches Ok(p) ==> {
                &&& p.wf()
                &&& p.size() == size
                &&& forall|i: int|
                    0 <= i < p.size() ==> (#[trigger] p.workers_seq()[i]).state is Idle
                &&& p.pending() == Seq::<u64>::empty()
                &&& p.completed() == Seq::<u64>::empty()
                &&& p.submitted() == Seq::<u64>::empty()
                &&& !p.is_closed()
                &&& !p.is_stopped()
            },
    {
        if size == 0 {
            return Err(PoolCreationError::new());
        }
        let mut workers: Vec<Worker> = Vec::new();
        let mut i: usize = 0;
        while i < size
            invariant
                i <= size,
                workers@.len() == i,
                forall|k: int|
                    0 <= k < i ==> (#[trigger] workers@[k]).id == k && workers@[k].state
                        is Idle,
            decreases size - i,
        {
            workers.push(Worker::new(i));
            i += 1;
        }
        let pool = ThreadPool {
            workers,
            queue: JobQueue::new(),
            log: Vec::new(),
            joined: false,
            history: Ghost(Seq::empty()),
        };
        proof {
            lemma_in_flight_none_running(pool.workers@);
            assert(pool.submitted().to_multiset() =~= pool.completed().to_multiset().add(
                in_flight(pool.workers_seq()),
            ).add(pool.pending().to_multiset()));
            if pool.workers@.len() == 1 {
                assert(pool.submitted() =~= pool.completed() + held_seq(pool.workers_seq()[0])
                    + pool.pending());
            }
        }
        Ok(pool)
    }

    /// Taking the head job preserves well-formedness: the job moves from
    /// the buffer into the polling worker's hands.
    proof fn lemma_poll_job_preserves_wf(&self, prev: ThreadPool, w: usize, job: u64)
        requires
            prev.wf(),
            w < prev.size(),
            prev.workers_seq()[w as int].state is Idle,
            prev.pending().len() > 0,
            job == prev.pending()[0],
            self.workers_seq() == prev.workers_seq().update(
                w as int,
                (Worker { id: w, state: WorkerState::Running(job) }),
            ),
            self.pending() == prev.pending().drop_first(),
            self.completed() == prev.completed(),
            self.submitted() == prev.submitted(),
            self.is_closed() == prev.is_closed(),
            self.is_stopped() == prev.is_stopped(),
        ensures
            self.wf(),
    {
        let ws = prev.workers_seq();
        let neww = Worker { id: w, state: WorkerState::Running(job) };
        if prev.is_stopped() {
            assert(ws[w as int].state is Exited);
        }
        lemma_in_flight_update(ws, w as int, neww);
        assert(prev.pending().drop_first() =~= prev.pending().remove(0));
        assert(prev.pending().contains(job)) by {
            assert(prev.pending()[0] == job);
        }
        assert_multisets_equal!(
            self.submitted().to_multiset(),
            self.completed().to_multiset().add(in_flight(self.workers_seq())).add(
                self.pending().to_multiset(),
            ),
            v => {
                assert(in_flight(self.workers_seq()).add(held_jobs(ws[w as int])).count(v)
                    == in_flight(ws).add(held_jobs(neww)).count(v));
                assert(self.pending().to_multiset() =~= prev.pending().to_multiset().remove(
                    job,
                ));
                assert(prev.pending().to_multiset().count(job) > 0);
            }
        );
        assert forall|i: int|
            0 <= i < self.size() && (#[trigger] self.workers_seq()[i]).state is Exited
                implies self.is_closed() && self.pending().len() == 0 by {
            assert(ws[i].state is Exited);
            assert(prev.pending().len() == 0);
        }
        if self.size() == 1 {
            assert(self.submitted() =~= self.completed() + held_seq(self.workers_seq()[0])
                + self.pending());
        }
    }

    /// Observing the close signal on an empty queue preserves
    /// well-formedness: the worker exits and nothing else moves.
    proof fn lemma_poll_closed_preserves_wf(&self, prev: ThreadPool, w: usize)
        requires
            prev.wf(),
            w < prev.size(),
            prev.workers_seq()[w as int].state is Idle,
            prev.pending().len() == 0,
            prev.is_closed(),
            self.workers_seq() == prev.workers_seq().update(
                w as int,
                (Worker { id: w, state: WorkerState::Exited }),
            ),
            self.pending() == prev.pending(),
            self.completed() == prev.completed(),
            self.submitted() == prev.submitted(),
            self.is_closed() == prev.is_closed(),
            self.is_stopped() == prev.is_stopped(),
        ensures
            self.wf(),
    {
        let ws = prev.workers_seq();
        let neww = Worker { id: w, state: WorkerState::Exited };
        if prev.is_stopped() {
            assert(ws[w as int].state is Exited);
        }
        lemma_in_flight_update(ws, w as int, neww);
        assert_multisets_equal!(
            self.submitted().to_multiset(),
            self.completed().to_multiset().add(in_flight(self.workers_seq())).add(
                self.pending().to_multiset(),
            ),
            v => {
                assert(in_flight(self.workers_seq()).add(held_jobs(ws[w as int])).count(v)
                    == in_flight(ws).add(held_jobs(neww)).count(v));
            }
        );
        if self.size() == 1 {
            assert(self.submitted() =~= self.completed() + held_seq(self.workers_seq()[0])
                + self.pending());
        }
    }

    /// Completing the running job preserves well-formedness: the job moves
    /// from the worker's hands to the completion log.
    proof fn lemma_finish_preserves_wf(&self, prev: ThreadPool, w: usize, job: u64)
        requires
            prev.wf(),
            w < prev.size(),
            prev.workers_seq()[w as int].state == WorkerState::Running(job),
            self.workers_seq() == prev.workers_seq().update(
                w as int,
                (Worker { id: w, state: WorkerState::Idle }),
            ),
            self.pending() == prev.pending(),
            self.completed() == prev.completed().push(job),
            self.submitted() == prev.submitted(),
            self.is_closed() == prev.is_closed(),
            self.is_stopped() == prev.is_stopped(),
        ensures
            self.wf(),
    {
        let ws = prev.workers_seq();
        let neww = Worker { id: w, state: WorkerState::Idle };
        if prev.is_stopped() {
            assert(ws[w as int].state is Exited);
        }
        lemma_in_flight_update(ws, w as int, neww);
        assert_multisets_equal!(
            self.submitted().to_multiset(),
            self.completed().to_multiset().add(in_flight(self.workers_seq())).add(
                self.pending().to_multiset(),
            ),
            v => {
                assert(in_flight(self.workers_seq()).add(held_jobs(ws[w as int])).count(v)
                    == in_flight(ws).add(held_jobs(neww)).count(v));
                assert(self.completed().to_multiset() =~= prev.completed().to_multiset().insert(
                    job,
                ));
            }
        );
        assert forall|i: int|
            0 <= i < self.size() && (#[trigger] self.workers_seq()[i]).state is Exited
                implies self.is_closed() && self.pending().len() == 0 by {
            assert(ws[i].state is Exited);
        }
        if self.size() == 1 {
            assert(self.submitted() =~= self.completed() + held_seq(self.workers_seq()[0])
                + self.pending());
        }
    }

    /// Submits the job with identifier `job`: fire-and-forget, the call
    /// returns without waiting for execution. Accepted and buffered at the
    /// queue's tail while the pool is open; once shutdown has begun it
    /// fails with `PoolClosed` and has no effect at all.
    pub fn execute(&mut self, job: u64) -> (r: Result<(), PoolClosed>)
        requires
            old(self).wf(),
        ensures
            final(self).wf(),
            final(self).workers_seq() == old(self).workers_seq(),
            final(self).completed() == old(self).completed(),
            final(self).is_closed() == old(self).is_closed(),
            final(self).is_stopped() == old(self).is_stopped(),
            r is Err <==> old(self).is_closed(),
            old(self).is_closed() ==> final(self).pending() == old(self).pending()
                && final(self).submitted() == old(self).submitted(),
            !old(self).is_closed() ==> final(self).pending() == old(self).pending().push(job)
                && final(self).submitted() == old(self).submitted().push(job),
    {
        let r = self.queue.submit(job);
        match r {
            Ok(()) => {
                proof {
                    self.history@ = self.history@.push(job);
                    assert_multisets_equal!(
                        self.submitted().to_multiset(),
                        self.completed().to_multiset().add(in_flight(self.workers_seq())).add(
                            self.pending().to_multiset(),
                        ),
                        v => {
                            assert(self.submitted().to_multiset() =~= old(
                                self,
                            ).submitted().to_multiset().insert(job));
                            assert(self.pending().to_multiset() =~= old(
                                self,
                            ).pending().to_multiset().insert(job));
                        }
                    );
                    assert forall|i: int|
                        0 <= i < self.size() && (#[trigger] self.workers_seq()[i]).state
                            is Exited implies self.is_closed() && self.pending().len()
                        == 0 by {
                        assert(old(self).workers_seq()[i].state is Exited);
                    }
                    if self.workers@.len() == 1 {
                        assert(self.submitted() =~= self.completed() + held_seq(
                            self.workers_seq()[0],
                        ) + self.pending());
                    }
                }
                Ok(())
            },
            Err(e) => Err(e),
        }
    }

    /// One worker's turn at the queue: worker `w`, currently idle, tries
    /// to take the head job. With a job buffered it starts running that
    /// job; on an empty closed queue it exits for good; on an empty open
    /// queue nothing changes (a threaded host blocks here instead).
    pub fn worker_poll(&mut self, w: usize) -> (r: Dequeued)
        requires
            old(self).wf(),
            w < old(self).size(),
            old(self).workers_seq()[w as int].state is Idle,
        ensures
            final(self).wf(),
            final(self).submitted() == old(self).submitted(),
            final(self).completed() == old(self).completed(),
            final(self).is_closed() == old(self).is_closed(),
            final(self).is_stopped() == old(self).is_stopped(),
            old(self).pending().len() > 0 ==> r == Dequeued::Job(old(self).pending()[0])
                && final(self).pending() == old(self).pending().drop_first()
                && final(self).workers_seq() == old(self).workers_seq().update(
                w as int,
                (Worker { id: w, state: WorkerState::Running(old(self).pending()[0]) }),
            ),
            old(self).pending().len() == 0 && old(self).is_closed() ==> r == Dequeued::Closed
                && final(self).pending() == old(self).pending()
                && final(self).workers_seq() == old(self).workers_seq().update(
                w as int,
                (Worker { id: w, state: WorkerState::Exited }),
            ),
            old(self).pending().len() == 0 && !old(self).is_closed() ==> r == Dequeued::Pending
                && final(self).pending() == old(self).pending()
                && final(self).workers_seq() == old(self).workers_seq(),
    {
        proof {
            if old(self).is_stopped() {
                assert(old(self).workers_seq()[w as int].state is Exited);
            }
        }
        let r = self.queue.dequeue();
        match r {
            Dequeued::Job(job) => {
                self.workers[w] = Worker { id: w, state: WorkerState::Running(job) };
                proof {
                    self.lemma_poll_job_preserves_wf(*old(self), w, job);
                }
                Dequeued::Job(job)
            },
            Dequeued::Closed => {
                self.workers[w] = Worker { id: w, state: WorkerState::Exited };
                proof {
                    self.lemma_poll_closed_preserves_wf(*old(self), w);
                }
                Dequeued::Closed
            },
            Dequeued::Pending => Dequeued::Pending,
        }
    }

    /// Worker `w` finishes the job it was running: the job's identifier is
    /// appended to the completion log and the worker goes back to waiting.
    pub fn worker_finish(&mut self, w: usize)
        requires
            old(self).wf(),
            w < old(self).size(),
            old(self).workers_seq()[w as int].state is Running,
        ensures
            final(self).wf(),
            final(self).pending() == old(self).pending(),
            final(self).submitted() == old(self).submitted(),
            final(self).is_closed() == old(self).is_closed(),
            final(self).is_stopped() == old(self).is_stopped(),
            old(self).workers_seq()[w as int].state matches WorkerState::Running(job)
                ==> final(self).completed() == old(self).completed().push(job)
                && final(self).workers_seq() == old(self).workers_seq().update(
                w as int,
                (Worker { id: w, state: WorkerState::Idle }),
            ),
    {
        proof {
            if old(self).is_stopped() {
                assert(old(self).workers_seq()[w as int].state is Exited);
            }
        }
        let st = self.workers[w].state;
        if let WorkerState::Running(job) = st {
            self.log.push(job);
            self.workers[w] = Worker { id: w, state: WorkerState::Idle };
            proof {
                self.lemma_finish_preserves_wf(*old(self), w, job);
            }
        }
    }

    /// Shuts the pool down: closes the queue exactly once, drains every
    /// buffered job, and retires the workers in ascending identity order —
    /// worker `w + 1` is joined only after worker `w` has exited. On a
    /// pool that is already stopped this is a no-op. Afterwards the pool
    /// is terminal: every accepted job has been executed exactly once.
    pub fn shutdown(&mut self)
        requires
            old(self).wf(),
        ensures
            final(self).wf(),
            final(self).is_stopped(),
            final(self).is_closed(),
            final(self).size() == old(self).size(),
            final(self).submitted() == old(self).submitted(),
            all_exited(final(self).workers_seq()),
            final(self).pending().len() == 0,
            final(self).completed().to_multiset() == final(self).submitted().to_multiset(),
            final(self).completed().to_set() == final(self).submitted().to_set(),
            final(self).completed().len() == final(self).submitted().len(),
            final(self).size() == 1 ==> final(self).completed() == final(self).submitted(),
            old(self).completed().is_prefix_of(final(self).completed()),
            old(self).is_stopped() ==> final(self).completed() == old(self).completed()
                && final(self).workers_seq() == old(self).workers_seq()
                && final(self).pending() == old(self).pending(),
    {
        if self.joined {
            proof {
                lemma_drained_pool_ran_every_job(self);
                assert(self.completed().subrange(0, self.completed().len() as int) =~= self
                    .completed());
            }
            return;
        }
        self.queue.close();
        let n = self.workers.len();
        let mut w: usize = 0;
        while w < n
            invariant
                self.wf(),
                self.is_closed(),
                !self.is_stopped(),
                n == self.size(),
                w <= n,
                self.submitted() == old(self).submitted(),
                forall|k: int|
                    0 <= k < w ==> (#[trigger] self.workers_seq()[k]).state is Exited,
                old(self).completed().is_prefix_of(self.completed()),
            decreases n - w,
        {
            while !self.worker_exited(w)
                invariant
                    self.wf(),
                    self.is_closed(),
                    !self.is_stopped(),
                    n == self.size(),
                    w < n,
                    self.submitted() == old(self).submitted(),
                    forall|k: int|
                        0 <= k < w ==> (#[trigger] self.workers_seq()[k]).state is Exited,
                    old(self).completed().is_prefix_of(self.completed()),
                decreases 3 * self.pending().len() + drive_weight(
                    self.workers_seq()[w as int].state,
                ),
            {
                let ghost prev_log = self.completed();
                let st = self.workers[w].state;
                match st {
                    WorkerState::Exited => {
                        // Ruled out by the loop condition.
                        proof {
                            assert(false);
                        }
                    },
                    WorkerState::Running(_) => {
                        self.worker_finish(w);
                    },
                    WorkerState::Idle => {
                        let _ = self.worker_poll(w);
                    },
                }
                proof {
                    assert(self.completed().subrange(0, prev_log.len() as int) =~= prev_log);
                    assert(self.completed().subrange(0, old(self).completed().len() as int)
                        =~= old(self).completed());
                }
            }
            w += 1;
        }
        self.joined = true;
        proof {
            lemma_drained_pool_ran_every_job(self);
        }
    }

    /// The number of workers, fixed at construction.
    pub fn worker_count(&self) -> (n: usize)
        ensures
            n == self.size(),
    {
        self.workers.len()
    }

    /// The current state of worker `w`.
    pub fn worker_state(&self, w: usize) -> (s: WorkerState)
        requires
            w < self.size(),
        ensures
            s == self.workers_seq()[w as int].state,
    {
        self.workers[w].state
    }

    /// Whether worker `w` has exited.
    pub fn worker_exited(&self, w: usize) -> (b: bool)
        requires
            w < self.size(),
        ensures
            b == (self.workers_seq()[w as int].state is Exited),
    {
        match self.workers[w].state {
            WorkerState::Exited => true,
            _ => false,
        }
    }

    /// The identifiers of the executed jobs, in completion order.
    pub fn completed_jobs(&self) -> (l: &Vec<u64>)
        ensures
            l@ == self.completed(),
    {
        &self.log
    }

    /// The number of jobs buffered and not yet taken by a worker.
    pub fn pending_count(&self) -> (n: usize)
        ensures
            n == self.pending().len(),
    {
        self.queue.len()
    }

    /// Whether the pool still accepts submissions.
    pub fn is_open(&self) -> (b: bool)
        ensures
            b == !self.is_closed(),
    {
        !self.queue.is_closed_now()
    }

    /// Whether shutdown has completed.
    pub fn is_shut_down(&self) -> (b: bool)
        ensures
            b == self.is_stopped(),
    {
        self.joined
    }
}

/// The single-worker ordering law: with one worker the completion log is,
/// at every well-formed state, the first stretch of the submission order —
/// jobs execute in strict submission order, and what is still held or
/// buffered follows it.
pub proof fn lemma_single_worker_fifo(p: &ThreadPool)
    requires
        p.wf(),
        p.size() == 1,
    ensures
        p.completed().is_prefix_of(p.submitted()),
        p.submitted() == p.completed() + held_seq(p.workers_seq()[0]) + p.pending(),
{
    assert(p.submitted().subrange(0, p.completed().len() as int) =~= p.completed());
}

/// The exactly-once law: in any well-formed pool whose workers have all
/// exited — however the polls, completions and submissions interleaved —
/// the queue is empty and the completion log holds exactly the multiset of
/// submitted identifiers: no job was dropped, none ran twice. With a
/// single worker the log is the submission sequence itself: jobs ran in
/// strict submission order.
pub proof fn lemma_drained_pool_ran_every_job(p: &ThreadPool)
    requires
        p.wf(),
        all_exited(p.workers_seq()),
    ensures
        p.pending().len() == 0,
        p.is_closed(),
        p.completed().to_multiset() == p.submitted().to_multiset(),
        p.completed().to_set() == p.submitted().to_set(),
        p.completed().len() == p.submitted().len(),
        p.size() == 1 ==> p.completed() == p.submitted(),
{
    assert(p.workers_seq()[0].state is Exited);
    lemma_in_flight_none_running(p.workers_seq());
    assert(p.pending() =~= Seq::<u64>::empty());
    assert_multisets_equal!(
        p.completed().to_multiset(),
        p.submitted().to_multiset(),
        v => {
            assert(p.pending().to_multiset().count(v) == 0);
        }
    );
    assert_sets_equal!(
        p.completed().to_set(),
        p.submitted().to_set(),
        v => {
            assert(p.completed().contains(v) <==> p.completed().to_multiset().count(v) > 0);
            assert(p.submitted().contains(v) <==> p.submitted().to_multiset().count(v) > 0);
        }
    );
    assert(p.completed().to_multiset().len() == p.submitted().to_multiset().len());
    if p.size() == 1 {
        assert(p.submitted() =~= p.completed());
    }
}

} // verus!

