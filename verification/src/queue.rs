//! The job queue: an unbounded FIFO transport with a send side that can be
//! closed.

use std::collections::VecDeque;
use vstd::prelude::*;

verus! {

/// What one receive attempt on the queue yields.
#[derive(Debug, PartialEq, Eq)]
pub enum Received<J> {
    /// The oldest pending job; it has left the queue.
    Job(J),
    /// Nothing is pending, but the send side is still open: the receiver
    /// has to wait.
    Empty,
    /// Nothing is pending and the send side is closed: nothing will ever
    /// arrive.
    Disconnected,
}

/// The mathematical content of a [`JobQueue`].
pub ghost struct QueueView<J> {
    /// The pending jobs, oldest first.
    pub jobs: Seq<J>,
    /// Whether the send side is still open.
    pub open: bool,
}

impl<J> QueueView<J> {
    /// A fresh queue: nothing pending, send side open.
    pub open spec fn init() -> Self {
        QueueView { jobs: Seq::empty(), open: true }
    }

    /// The queue after `job` was accepted.
    pub open spec fn send(self, job: J) -> Self {
        QueueView { jobs: self.jobs.push(job), ..self }
    }

    /// The queue after its send side was dropped.
    pub open spec fn close(self) -> Self {
        QueueView { open: false, ..self }
    }

    /// The outcome of one receive attempt.
    pub open spec fn message(self) -> Received<J> {
        if self.jobs.len() > 0 {
            Received::Job(self.jobs[0])
        } else if self.open {
            Received::Empty
        } else {
            Received::Disconnected
        }
    }

    /// The queue after one receive attempt.
    pub open spec fn recv(self) -> Self {
        if self.jobs.len() > 0 {
            QueueView { jobs: self.jobs.skip(1), ..self }
        } else {
            self
        }
    }
}

/// An unbounded FIFO queue of jobs.
///
/// Jobs leave in the order in which they were accepted, each exactly once.
/// Once the send side is closed no job is accepted any more, and a receive
/// attempt on the drained queue reports [`Received::Disconnected`].
pub struct JobQueue<J> {
    jobs: VecDeque<J>,
    open: bool,
}

impl<J> View for JobQueue<J> {
    type V = QueueView<J>;

    closed spec fn view(&self) -> QueueView<J> {
        QueueView { jobs: self.jobs@, open: self.open }
    }
}

impl<J> JobQueue<J> {
    /// Creates an empty queue with an open send side.
    pub fn new() -> (queue: Self)
        ensures
            queue@ == QueueView::<J>::init(),
    {
        JobQueue { jobs: VecDeque::new(), open: true }
    }

    /// Hands `job` to the queue.
    ///
    /// An open queue accepts it behind all pending jobs.  A closed queue
    /// accepts nothing: the job comes back to the caller untouched.
    pub fn send(&mut self, job: J) -> (result: Result<(), J>)
        ensures
            old(self)@.open ==> result is Ok && final(self)@ == old(self)@.send(job),
            !old(self)@.open ==> result == Err::<(), J>(job) && final(self)@ == old(self)@,
    {
        if self.open {
            self.jobs.push_back(job);
            Ok(())
        } else {
            Err(job)
        }
    }

    /// Drops the send side.  Pending jobs stay; closing twice changes nothing.
    pub fn close(&mut self)
        ensures
            final(self)@ == old(self)@.close(),
    {
        self.open = false;
    }

    /// Makes one receive attempt: takes the oldest pending job, if there is
    /// one, and otherwise tells an open queue from a closed one.
    pub fn recv(&mut self) -> (message: Received<J>)
        ensures
            message == old(self)@.message(),
            final(self)@ == old(self)@.recv(),
    {
        match self.jobs.pop_front() {
            Some(job) => Received::Job(job),
            None => {
                if self.open {
                    Received::Empty
                } else {
                    Received::Disconnected
                }
            },
        }
    }

    /// The number of pending jobs.
    pub fn len(&self) -> (n: usize)
        ensures
            n == self@.jobs.len(),
    {
        self.jobs.len()
    }

    /// Whether no job is pending.
    pub fn is_empty(&self) -> (b: bool)
        ensures
            b == (self@.jobs.len() == 0),
    {
        self.jobs.len() == 0
    }

    /// Whether the send side is still open.
    pub fn is_open(&self) -> (b: bool)
        ensures
            b == self@.open,
    {
        self.open
    }
}

} // verus!
