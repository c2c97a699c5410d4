//! The shared work queue of the worker pool: jobs leave in the order they
//! came, and once the queue is closed it takes no more work and tells idle
//! workers to stop only after every pending job has been handed out.
use vstd::prelude::*;

use crate::error::Error;
use std::collections::VecDeque;

verus! {

/// What a worker does next.
pub enum Next<T> {
    /// Run this job.
    Run(T),
    /// Nothing to do yet: wait for work or for the queue to close.
    Wait,
    /// The queue is closed and empty: stop.
    Exit,
}

/// What a worker is told, and what stays pending, given the pending jobs and
/// whether the queue is closed.
pub open spec fn next_step<T>(pending: Seq<T>, closed: bool) -> (Next<T>, Seq<T>) {
    if pending.len() > 0 {
        (Next::Run(pending[0]), pending.drop_first())
    } else if closed {
        (Next::Exit, pending)
    } else {
        (Next::Wait, pending)
    }
}

/// What `k` successive requests for work are told.
pub open spec fn drain<T>(pending: Seq<T>, closed: bool, k: nat) -> Seq<Next<T>>
    decreases k,
{
    if k == 0 {
        Seq::empty()
    } else {
        let (n, rest) = next_step(pending, closed);
        seq![n] + drain(rest, closed, (k - 1) as nat)
    }
}

/// The number of workers a pool is built with: at least one, else a
/// `ConstructionError`.
pub fn pool_size(size: usize) -> (r: Result<usize, Error>)
    ensures
        size > 0 ==> r == Ok::<usize, Error>(size),
        size == 0 ==> r == Err::<usize, Error>(Error::ConstructionError),
{
    if size == 0 {
        Err(Error::ConstructionError)
    } else {
        Ok(size)
    }
}

/// A queue of jobs shared by the workers of a pool.
pub struct WorkQueue<T> {
    jobs: VecDeque<T>,
    closed: bool,
}

impl<T> WorkQueue<T> {
    /// The jobs waiting to be handed out, oldest first.
    pub closed spec fn pending(&self) -> Seq<T> {
        self.jobs@
    }

    /// Whether the queue has been closed.
    pub closed spec fn is_closed(&self) -> bool {
        self.closed
    }

    /// An open, empty queue.
    pub fn new() -> (r: WorkQueue<T>)
        ensures
            r.pending() == Seq::<T>::empty(),
            !r.is_closed(),
    {
        WorkQueue { jobs: VecDeque::new(), closed: false }
    }

    /// Queues a job behind the pending ones; a closed queue hands it back.
    pub fn submit(&mut self, job: T) -> (r: Result<(), T>)
        ensures
            old(self).is_closed() ==> r == Err::<(), T>(job) && final(self).pending() == old(self).pending(),
            !old(self).is_closed() ==> r is Ok && final(self).pending() == old(self).pending().push(job),
            final(self).is_closed() == old(self).is_closed(),
    {
        if self.closed {
            return Err(job);
        }
        self.jobs.push_back(job);
        Ok(())
    }

    /// Closes the queue: no job is taken after this.
    pub fn close(&mut self)
        ensures
            final(self).pending() == old(self).pending(),
            final(self).is_closed(),
    {
        self.closed = true;
    }

    /// What a worker asking for work is told: the oldest pending job; else
    /// to stop if the queue is closed, or to wait.
    pub fn next(&mut self) -> (n: Next<T>)
        ensures
            (n, final(self).pending()) == next_step(old(self).pending(), old(self).is_closed()),
            final(self).is_closed() == old(self).is_closed(),
    {
        match self.jobs.pop_front() {
            Some(job) => {
                assert(self.jobs@ =~= old(self).jobs@.drop_first());
                Next::Run(job)
            },
            None => if self.closed {
                Next::Exit
            } else {
                Next::Wait
            },
        }
    }

    /// How many jobs are pending.
    pub fn len(&self) -> (r: usize)
        ensures
            r == self.pending().len(),
    {
        self.jobs.len()
    }
}

/// Shutting down after submitting work: once the queue is closed with jobs
/// pending, the workers are handed every one of them, in the order they were
/// submitted, before any worker is told to stop.
pub proof fn lemma_closed_queue_drains<T>(pending: Seq<T>)
    ensures
        drain(pending, true, pending.len() + 1) == pending.map_values(|j: T| Next::Run(j)).push(
            Next::<T>::Exit,
        ),
    decreases pending.len(),
{
    if pending.len() == 0 {
        assert(drain(pending, true, 0) == Seq::<Next<T>>::empty());
        assert(drain(pending, true, 1) =~= seq![Next::<T>::Exit]);
        assert(pending.map_values(|j: T| Next::Run(j)) =~= Seq::<Next<T>>::empty());
    } else {
        let rest = pending.drop_first();
        lemma_closed_queue_drains(rest);
        assert(pending.map_values(|j: T| Next::Run(j)) =~= seq![Next::Run(pending[0])] + rest.map_values(|j: T| Next::Run(j)));
        assert(drain(pending, true, pending.len() + 1) =~= seq![Next::Run(pending[0])] + drain(rest, true, rest.len() + 1));
    }
}

} // verus!
