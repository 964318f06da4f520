//! The worker: a two-state machine driven by what it receives from the queue.

use crate::queue::Received;
use vstd::prelude::*;

verus! {

/// The state of a worker.
///
/// A worker starts `Running` and stays so until a receive attempt reports
/// that the queue is closed, or until it ends abnormally.  `Terminated` has
/// no way out.
#[derive(Clone, Copy, Debug, PartialEq, Eq, Structural)]
pub enum WorkerState {
    /// The worker is in its loop.  While `busy` it executes a job and does
    /// not hold the receive endpoint; otherwise it is about to receive.
    Running { busy: bool },
    /// The worker has left its loop: `clean` after the queue reported
    /// closure, not `clean` after an abnormal end.
    Terminated { clean: bool },
}

impl WorkerState {
    /// Running and about to receive.
    pub open spec fn is_idle(self) -> bool {
        self == (WorkerState::Running { busy: false })
    }

    /// Running and executing a job.
    pub open spec fn is_busy(self) -> bool {
        self == (WorkerState::Running { busy: true })
    }

    /// Terminated after the queue reported closure.
    pub open spec fn has_exited(self) -> bool {
        self == (WorkerState::Terminated { clean: true })
    }

    /// Terminated abnormally.
    pub open spec fn has_failed(self) -> bool {
        self == (WorkerState::Terminated { clean: false })
    }
}

/// What a worker does after a receive attempt.
#[derive(Debug, PartialEq, Eq)]
pub enum Action<J> {
    /// Execute this job, outside the critical section, then report back.
    Run(J),
    /// Nothing to do yet: wait for the queue to change and try again.
    Wait,
    /// Leave the loop: the worker has terminated.
    Exit,
}

/// The mathematical content of a [`Worker`].
pub ghost struct WorkerView {
    /// The worker's identifier.
    pub id: int,
    /// The worker's state.
    pub state: WorkerState,
}

impl WorkerView {
    /// A worker that has just started.
    pub open spec fn init(id: int) -> Self {
        WorkerView { id, state: WorkerState::Running { busy: false } }
    }

    /// The action an idle worker takes on `message`.
    pub open spec fn action<J>(message: Received<J>) -> Action<J> {
        match message {
            Received::Job(job) => Action::Run(job),
            Received::Empty => Action::Wait,
            Received::Disconnected => Action::Exit,
        }
    }

    /// The worker after an idle worker took `message`.
    pub open spec fn receive<J>(self, message: Received<J>) -> Self {
        match message {
            Received::Job(_) => WorkerView { state: WorkerState::Running { busy: true }, ..self },
            Received::Empty => self,
            Received::Disconnected => WorkerView {
                state: WorkerState::Terminated { clean: true },
                ..self
            },
        }
    }

    /// The worker after its job ran to completion.
    pub open spec fn finish(self) -> Self {
        WorkerView { state: WorkerState::Running { busy: false }, ..self }
    }

    /// The worker after an abnormal end.
    pub open spec fn fail(self) -> Self {
        WorkerView { state: WorkerState::Terminated { clean: false }, ..self }
    }
}

/// One worker of a pool: an identifier and a state.
pub struct Worker {
    id: usize,
    state: WorkerState,
}

impl View for Worker {
    type V = WorkerView;

    closed spec fn view(&self) -> WorkerView {
        WorkerView { id: self.id as int, state: self.state }
    }
}

impl Worker {
    /// Creates the worker `id`, running and about to receive.
    pub fn new(id: usize) -> (worker: Self)
        ensures
            worker@ == WorkerView::init(id as int),
    {
        Worker { id, state: WorkerState::Running { busy: false } }
    }

    /// The worker's identifier.
    pub fn id(&self) -> (id: usize)
        ensures
            id == self@.id,
    {
        self.id
    }

    /// The worker's state.
    pub fn state(&self) -> (state: WorkerState)
        ensures
            state == self@.state,
    {
        self.state
    }

    /// One turn of the worker's loop, after the receive attempt.
    ///
    /// A job makes the worker busy and is handed on to be executed; an empty
    /// open queue leaves the worker as it is; a closed, drained queue
    /// terminates it.
    pub fn receive<J>(&mut self, message: Received<J>) -> (action: Action<J>)
        requires
            old(self)@.state.is_idle(),
        ensures
            action == WorkerView::action(message),
            final(self)@ == old(self)@.receive(message),
    {
        match message {
            Received::Job(job) => {
                self.state = WorkerState::Running { busy: true };
                Action::Run(job)
            },
            Received::Empty => Action::Wait,
            Received::Disconnected => {
                self.state = WorkerState::Terminated { clean: true };
                Action::Exit
            },
        }
    }

    /// The job handed out by [`Worker::receive`] ran to completion: the
    /// worker is about to receive again.
    pub fn finish(&mut self)
        requires
            old(self)@.state.is_busy(),
        ensures
            final(self)@ == old(self)@.finish(),
    {
        self.state = WorkerState::Running { busy: false };
    }

    /// The worker ended abnormally, while executing a job or while trying to
    /// receive.
    pub fn fail(&mut self)
        requires
            old(self)@.state is Running,
        ensures
            final(self)@ == old(self)@.fail(),
    {
        self.state = WorkerState::Terminated { clean: false };
    }
}

} // verus!
