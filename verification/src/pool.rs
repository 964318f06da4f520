//! The pool: a fixed set of workers around one job queue, from construction
//! to the last join.

use crate::queue::{JobQueue, QueueView};
use crate::worker::{Action, Worker, WorkerState, WorkerView};
use vstd::prelude::*;

verus! {

/// How a joined worker had ended.
#[derive(Clone, Copy, Debug, PartialEq, Eq, Structural)]
pub enum Joined {
    /// The worker had left its loop after the queue reported closure.
    Clean,
    /// The worker had ended abnormally.  This is reported, and the shutdown
    /// goes on with the workers that are left.
    Faulted,
}

/// The mathematical content of a [`ThreadPool`].
pub ghost struct PoolView<J> {
    /// The workers, in the order of their creation.
    pub workers: Seq<WorkerView>,
    /// The job queue.
    pub queue: QueueView<J>,
    /// How many workers the shutdown has joined so far.
    pub joined: nat,
}

impl<J> PoolView<J> {
    /// A fresh pool of `size` workers.
    pub open spec fn init(size: nat) -> Self {
        PoolView {
            workers: Seq::new(size, |i: int| WorkerView::init(i)),
            queue: QueueView::init(),
            joined: 0,
        }
    }

    /// The number of workers.
    pub open spec fn size(self) -> nat {
        self.workers.len()
    }

    /// Whether `worker` names a worker of this pool.
    pub open spec fn has_worker(self, worker: int) -> bool {
        0 <= worker < self.workers.len()
    }

    /// The invariant of every pool.
    ///
    /// There is at least one worker, and worker `i` has the identifier `i`.
    /// Workers are joined in the order of their creation, only after the
    /// queue was closed and only once they have terminated.  A worker that
    /// left its loop cleanly saw the queue closed and drained, and so it
    /// stays.
    pub open spec fn wf(self) -> bool {
        &&& self.workers.len() > 0
        &&& forall|i: int| 0 <= i < self.workers.len() ==> (#[trigger] self.workers[i]).id == i
        &&& self.joined <= self.workers.len()
        &&& self.joined > 0 ==> !self.queue.open
        &&& forall|i: int|
            0 <= i < self.joined ==> (#[trigger] self.workers[i]).state is Terminated
        &&& forall|i: int|
            0 <= i < self.workers.len() && (#[trigger] self.workers[i]).state.has_exited() ==> {
                &&& !self.queue.open
                &&& self.queue.jobs.len() == 0
            }
    }

    /// The pool after `job` was submitted.
    pub open spec fn submit(self, job: J) -> Self {
        PoolView { queue: self.queue.send(job), ..self }
    }

    /// What the worker that receives next is told to do.
    pub open spec fn action(self) -> Action<J> {
        WorkerView::action(self.queue.message())
    }

    /// The pool after `worker` made a receive attempt.
    pub open spec fn receive(self, worker: int) -> Self {
        PoolView {
            workers: self.workers.update(
                worker,
                self.workers[worker].receive(self.queue.message()),
            ),
            queue: self.queue.recv(),
            ..self
        }
    }

    /// The pool after `worker` completed its job.
    pub open spec fn finish(self, worker: int) -> Self {
        PoolView { workers: self.workers.update(worker, self.workers[worker].finish()), ..self }
    }

    /// The pool after `worker` ended abnormally.
    pub open spec fn fail(self, worker: int) -> Self {
        PoolView { workers: self.workers.update(worker, self.workers[worker].fail()), ..self }
    }

    /// The pool after it dropped its send handle.
    pub open spec fn close(self) -> Self {
        PoolView { queue: self.queue.close(), ..self }
    }

    /// The worker the shutdown has to wait for next, if any: the first one
    /// not yet joined, once the queue is closed.
    pub open spec fn next_join(self) -> Option<int> {
        if !self.queue.open && self.joined < self.workers.len() {
            Some(self.joined as int)
        } else {
            None
        }
    }

    /// Whether the shutdown may join `worker` now.
    pub open spec fn can_join(self, worker: int) -> bool {
        &&& self.next_join() == Some(worker)
        &&& self.workers[worker].state is Terminated
    }

    /// The pool after the next worker was joined.
    pub open spec fn join(self) -> Self {
        PoolView { joined: self.joined + 1, ..self }
    }

    /// Whether the shutdown is complete: the queue is closed and every worker
    /// has been joined.
    pub open spec fn released(self) -> bool {
        !self.queue.open && self.joined == self.workers.len()
    }
}

/// A pool of a fixed number of workers that share one job queue.
///
/// The type parameter `J` is the job.  The pool never looks into a job: it
/// takes it in [`ThreadPool::execute`] and hands it to exactly one worker in
/// [`ThreadPool::next_job`].
pub struct ThreadPool<J> {
    workers: Vec<Worker>,
    queue: JobQueue<J>,
    joined: usize,
}

impl<J> View for ThreadPool<J> {
    type V = PoolView<J>;

    closed spec fn view(&self) -> PoolView<J> {
        PoolView {
            workers: self.workers@.map_values(|w: Worker| w@),
            queue: self.queue@,
            joined: self.joined as nat,
        }
    }
}

impl<J> ThreadPool<J> {
    /// Creates a pool of `size` workers with the identifiers `0..size`, all
    /// running, around an empty open queue.
    pub fn new(size: usize) -> (pool: Self)
        requires
            size > 0,
        ensures
            pool@ == PoolView::<J>::init(size as nat),
            pool@.size() == size,
            pool@.wf(),
    {
        let mut workers: Vec<Worker> = Vec::with_capacity(size);
        for i in 0..size
            invariant
                workers@.len() == i,
                forall|k: int| 0 <= k < i ==> (#[trigger] workers@[k])@ == WorkerView::init(k),
        {
            workers.push(Worker::new(i));
        }
        let pool = ThreadPool { workers, queue: JobQueue::new(), joined: 0 };
        assert(pool@.workers =~= PoolView::<J>::init(size as nat).workers);
        pool
    }

    /// The number of workers.
    pub fn size(&self) -> (size: usize)
        ensures
            size == self@.size(),
    {
        self.workers.len()
    }

    /// Whether the pool still holds its send handle.
    pub fn is_open(&self) -> (open: bool)
        ensures
            open == self@.queue.open,
    {
        self.queue.is_open()
    }

    /// The number of jobs that wait in the queue.
    pub fn pending(&self) -> (n: usize)
        ensures
            n == self@.queue.jobs.len(),
    {
        self.queue.len()
    }

    /// The state of `worker`.
    pub fn worker_state(&self, worker: usize) -> (state: WorkerState)
        requires
            self@.has_worker(worker as int),
        ensures
            state == self@.workers[worker as int].state,
    {
        self.workers[worker].state()
    }

    /// Submits `job`: it is queued behind all pending jobs, for whichever
    /// worker receives next.  The call does not wait for the job to run.
    ///
    /// The pool must still hold its send handle.
    pub fn execute(&mut self, job: J)
        requires
            old(self)@.wf(),
            old(self)@.queue.open,
        ensures
            final(self)@ == old(self)@.submit(job),
            final(self)@.wf(),
    {
        let sent = self.queue.send(job);
        assert(sent is Ok);
    }

    /// One receive attempt of `worker`, made under exclusive access to the
    /// queue.
    ///
    /// The worker gets the oldest pending job and becomes busy; or it is told
    /// to wait, when nothing is pending and the queue is open; or it
    /// terminates, when the queue is closed and drained.
    pub fn next_job(&mut self, worker: usize) -> (action: Action<J>)
        requires
            old(self)@.wf(),
            old(self)@.has_worker(worker as int),
            old(self)@.workers[worker as int].state.is_idle(),
        ensures
            action == old(self)@.action(),
            final(self)@ == old(self)@.receive(worker as int),
            final(self)@.wf(),
    {
        let message = self.queue.recv();
        let action = self.workers[worker].receive(message);
        assert(self@.workers =~= old(self)@.receive(worker as int).workers);
        action
    }

    /// `worker` ran the job it was handed to completion.
    pub fn job_done(&mut self, worker: usize)
        requires
            old(self)@.wf(),
            old(self)@.has_worker(worker as int),
            old(self)@.workers[worker as int].state.is_busy(),
        ensures
            final(self)@ == old(self)@.finish(worker as int),
            final(self)@.wf(),
    {
        self.workers[worker].finish();
        assert(self@.workers =~= old(self)@.finish(worker as int).workers);
    }

    /// `worker` ended abnormally.  Only that worker is affected: the others
    /// go on, and the shutdown can still join it.
    pub fn worker_failed(&mut self, worker: usize)
        requires
            old(self)@.wf(),
            old(self)@.has_worker(worker as int),
            old(self)@.workers[worker as int].state is Running,
        ensures
            final(self)@ == old(self)@.fail(worker as int),
            final(self)@.wf(),
    {
        self.workers[worker].fail();
        assert(self@.workers =~= old(self)@.fail(worker as int).workers);
    }

    /// Begins the shutdown: drops the send handle, so that no job is accepted
    /// any more and idle workers terminate once the queue is drained.
    pub fn close(&mut self)
        requires
            old(self)@.wf(),
        ensures
            final(self)@ == old(self)@.close(),
            final(self)@.wf(),
    {
        self.queue.close();
    }

    /// The worker the shutdown has to wait for next: the first one in the
    /// order of creation that is not yet joined.  `None` before the queue is
    /// closed and after the last join.
    pub fn next_join(&self) -> (next: Option<usize>)
        ensures
            match next {
                Some(worker) => self@.next_join() == Some(worker as int),
                None => self@.next_join() is None,
            },
    {
        if !self.queue.is_open() && self.joined < self.workers.len() {
            Some(self.joined)
        } else {
            None
        }
    }

    /// Joins `worker`, which must be the next in turn and must have
    /// terminated, and reports how it had ended.
    pub fn join(&mut self, worker: usize) -> (report: Joined)
        requires
            old(self)@.wf(),
            old(self)@.can_join(worker as int),
        ensures
            report == Joined::Clean <==> old(self)@.workers[worker as int].state.has_exited(),
            final(self)@ == old(self)@.join(),
            final(self)@.wf(),
    {
        let report = match self.workers[worker].state() {
            WorkerState::Terminated { clean: true } => Joined::Clean,
            _ => Joined::Faulted,
        };
        assert(self.joined < self.workers.len()) by {
            assert(self@.workers.len() == self.workers@.len());
        }
        self.joined = self.joined + 1;
        report
    }

    /// Whether the shutdown is complete.
    pub fn is_released(&self) -> (released: bool)
        ensures
            released == self@.released(),
    {
        !self.queue.is_open() && self.joined == self.workers.len()
    }
}

} // verus!
