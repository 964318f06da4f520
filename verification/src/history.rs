//! Runs of a pool, and what holds of every run.
//!
//! A run is a sequence of events, each applied to the pool that the events
//! before it left behind.  Alongside the pool a [`History`] keeps book: which
//! jobs were submitted, which worker took which job, and which jobs ran to
//! completion.  The theorems at the end of this file speak of all runs.

use crate::pool::PoolView;
use crate::worker::Action;
use vstd::prelude::*;

verus! {

/// One event in the life of a pool.  Each stands for one call on a
/// [`crate::pool::ThreadPool`]; a worker is named by its identifier.
pub enum Event<J> {
    /// `execute(job)`.
    Submit(J),
    /// `next_job(worker)`.
    Receive(int),
    /// `job_done(worker)`.
    Finish(int),
    /// `worker_failed(worker)`.
    Fail(int),
    /// `close()`.
    Close,
    /// `join(worker)`.
    Join(int),
}

impl<J> PoolView<J> {
    /// Whether `event` may happen now: what the matching call requires.
    pub open spec fn enabled(self, event: Event<J>) -> bool {
        match event {
            Event::Submit(_) => self.queue.open,
            Event::Receive(w) => self.has_worker(w) && self.workers[w].state.is_idle(),
            Event::Finish(w) => self.has_worker(w) && self.workers[w].state.is_busy(),
            Event::Fail(w) => self.has_worker(w) && self.workers[w].state is Running,
            Event::Close => true,
            Event::Join(w) => self.can_join(w),
        }
    }

    /// The pool after `event`: what the matching call ensures.
    pub open spec fn step(self, event: Event<J>) -> Self {
        match event {
            Event::Submit(job) => self.submit(job),
            Event::Receive(w) => self.receive(w),
            Event::Finish(w) => self.finish(w),
            Event::Fail(w) => self.fail(w),
            Event::Close => self.close(),
            Event::Join(_) => self.join(),
        }
    }

    /// Whether no worker has ended abnormally.
    pub open spec fn fault_free(self) -> bool {
        forall|w: int| 0 <= w < self.workers.len() ==> !(#[trigger] self.workers[w]).state.has_failed()
    }
}

/// A pool together with the record of its run.
///
/// Jobs are told apart by their ticket: the `k`-th accepted job, counting
/// from zero, has the ticket `k`, and it is `submitted[k]`.
pub ghost struct History<J> {
    /// The pool as it is now.
    pub pool: PoolView<J>,
    /// Every job that was accepted, in the order of submission.
    pub submitted: Seq<J>,
    /// For each worker, the ticket of the job it took and has not completed:
    /// the job it is executing, or the one it was executing when it failed.
    pub taken: Seq<Option<int>>,
    /// The tickets of the jobs that ran to completion, in that order.
    pub finished: Seq<int>,
}

impl<J> History<J> {
    /// The record of a fresh pool of `size` workers.
    pub open spec fn init(size: nat) -> Self {
        History {
            pool: PoolView::init(size),
            submitted: Seq::empty(),
            taken: Seq::new(size, |w: int| None),
            finished: Seq::empty(),
        }
    }

    /// How many jobs have left the queue.  The next job to leave has this
    /// ticket.
    pub open spec fn started(self) -> int {
        self.submitted.len() - self.pool.queue.jobs.len()
    }

    /// The jobs that ran to completion, in that order.
    pub open spec fn executed(self) -> Seq<J> {
        Seq::new(self.finished.len(), |i: int| self.submitted[self.finished[i]])
    }

    /// How often the job with the ticket `k` ran to completion.
    pub open spec fn times_executed(self, k: int) -> nat {
        self.finished.to_multiset().count(k)
    }

    /// The record after `event`.
    pub open spec fn after(self, event: Event<J>) -> Self {
        let pool = self.pool.step(event);
        match event {
            Event::Submit(job) => History { pool, submitted: self.submitted.push(job), ..self },
            Event::Receive(w) => if self.pool.queue.jobs.len() > 0 {
                History { pool, taken: self.taken.update(w, Some(self.started())), ..self }
            } else {
                History { pool, ..self }
            },
            Event::Finish(w) => History {
                pool,
                taken: self.taken.update(w, None),
                finished: self.finished.push(self.taken[w].unwrap()),
                ..self
            },
            Event::Fail(_) => History { pool, ..self },
            Event::Close => History { pool, ..self },
            Event::Join(_) => History { pool, ..self },
        }
    }

    /// Whether the job with the ticket `k` is held by a worker.
    pub open spec fn held(self, k: int) -> bool {
        exists|w: int| 0 <= w < self.taken.len() && #[trigger] self.taken[w] == Some(k)
    }

    /// The queue holds exactly the submitted jobs that have not left it, in
    /// the order of submission.
    spec fn queue_in_order(self) -> bool {
        &&& 0 <= self.started()
        &&& self.pool.queue.jobs =~= self.submitted.skip(self.started())
    }

    /// A worker holds a ticket if it is busy, and only if it is busy or has
    /// failed.  Every ticket on record has left the queue, and none is held
    /// by two workers, finished twice, or both held and finished.
    spec fn tickets_apart(self) -> bool {
        &&& forall|w: int|
            0 <= w < self.taken.len() && (#[trigger] self.pool.workers[w]).state.is_busy()
                ==> self.taken[w] is Some
        &&& forall|w: int|
            0 <= w < self.taken.len() && (#[trigger] self.taken[w]) is Some ==> {
                &&& self.pool.workers[w].state.is_busy() || self.pool.workers[w].state.has_failed()
                &&& 0 <= self.taken[w].unwrap() < self.started()
            }
        &&& forall|v: int, w: int|
            0 <= v < w < self.taken.len() && (#[trigger] self.taken[v]) is Some ==> self.taken[v]
                != #[trigger] self.taken[w]
        &&& forall|i: int|
            0 <= i < self.finished.len() ==> 0 <= (#[trigger] self.finished[i]) < self.started()
        &&& forall|i: int, j: int|
            0 <= i < j < self.finished.len() ==> (#[trigger] self.finished[i])
                != #[trigger] self.finished[j]
        &&& forall|i: int, w: int|
            0 <= i < self.finished.len() && 0 <= w < self.taken.len() ==> Some(
                #[trigger] self.finished[i],
            ) != #[trigger] self.taken[w]
    }

    /// Every ticket that has left the queue is either held or finished.
    spec fn all_accounted(self) -> bool {
        forall|k: int|
            0 <= k < self.started() ==> self.finished.contains(k) || #[trigger] self.held(k)
    }

    /// With a single worker the tickets finish in their own order, and the
    /// one that is held is the next to finish.
    spec fn single_file(self) -> bool {
        self.pool.workers.len() == 1 ==> {
            &&& forall|i: int| 0 <= i < self.finished.len() ==> (#[trigger] self.finished[i]) == i
            &&& self.taken[0] is Some ==> {
                &&& self.taken[0] == Some(self.finished.len() as int)
                &&& self.started() == self.finished.len() + 1
            }
            &&& self.taken[0] is None ==> self.started() == self.finished.len()
        }
    }

    /// What the book-keeping maintains, beyond the pool's own invariant.
    spec fn inv(self) -> bool {
        &&& self.pool.wf()
        &&& self.taken.len() == self.pool.workers.len()
        &&& self.queue_in_order()
        &&& self.tickets_apart()
        &&& self.all_accounted()
        &&& self.single_file()
    }
}

/// The record after the events of `events` happened, one after the other, to
/// a fresh pool of `size` workers.
pub open spec fn run<J>(size: nat, events: Seq<Event<J>>) -> History<J>
    decreases events.len(),
{
    if events.len() == 0 {
        History::init(size)
    } else {
        run(size, events.drop_last()).after(events.last())
    }
}

/// Whether each event of `events` may happen when its turn comes.
pub open spec fn admissible<J>(size: nat, events: Seq<Event<J>>) -> bool
    decreases events.len(),
{
    events.len() > 0 ==> {
        &&& admissible(size, events.drop_last())
        &&& run(size, events.drop_last()).pool.enabled(events.last())
    }
}

/// A fresh pool's record is in order.
proof fn lemma_init_inv<J>(size: nat)
    requires
        size > 0,
    ensures
        History::<J>::init(size).inv(),
        History::<J>::init(size).pool.workers.len() == size,
{
    let h = History::<J>::init(size);
    assert(h.pool.queue.jobs =~= h.submitted.skip(h.started()));
}

/// Where the tickets are as before, they are accounted for as before.
proof fn lemma_same_tickets<J>(h: History<J>, g: History<J>)
    requires
        h.all_accounted(),
        g.taken == h.taken,
        g.finished == h.finished,
        g.started() == h.started(),
    ensures
        g.all_accounted(),
{
    assert forall|k: int| 0 <= k < g.started() implies g.finished.contains(k) || #[trigger] g.held(
        k,
    ) by {
        assert(h.finished.contains(k) || h.held(k));
    }
}

/// An enabled event keeps the record in order and the number of workers as
/// it is.
proof fn lemma_after_inv<J>(h: History<J>, event: Event<J>)
    requires
        h.inv(),
        h.pool.enabled(event),
    ensures
        h.after(event).inv(),
        h.after(event).pool.workers.len() == h.pool.workers.len(),
{
    let g = h.after(event);
    match event {
        Event::Receive(w) if h.pool.queue.jobs.len() > 0 => {
            // The oldest pending job leaves the queue under a fresh ticket.
            let t = h.started();
            assert(g.taken[w] == Some(t));
            assert forall|k: int| 0 <= k < g.started() implies g.finished.contains(k)
                || #[trigger] g.held(k) by {
                if k == t {
                    assert(g.held(k));
                } else if !h.finished.contains(k) {
                    assert(h.held(k));
                    let v = choose|v: int| 0 <= v < h.taken.len() && #[trigger] h.taken[v] == Some(k);
                    assert(g.taken[v] == Some(k));
                }
            }
        },
        Event::Finish(w) => {
            // The ticket held by `w` moves to the finished ones.
            let t = h.taken[w].unwrap();
            assert(g.finished[h.finished.len() as int] == t);
            assert forall|k: int| 0 <= k < g.started() implies g.finished.contains(k)
                || #[trigger] g.held(k) by {
                if k == t {
                    assert(g.finished[h.finished.len() as int] == k);
                } else if h.finished.contains(k) {
                    let i = choose|i: int| 0 <= i < h.finished.len() && h.finished[i] == k;
                    assert(g.finished[i] == k);
                } else {
                    assert(h.held(k));
                    let v = choose|v: int| 0 <= v < h.taken.len() && #[trigger] h.taken[v] == Some(k);
                    assert(g.taken[v] == Some(k));
                }
            }
        },
        _ => {
            lemma_same_tickets(h, g);
        },
    }
}

/// Every admissible run leaves a record that is in order, over a pool of the
/// size it began with.
proof fn lemma_run_inv<J>(size: nat, events: Seq<Event<J>>)
    requires
        size > 0,
        admissible(size, events),
    ensures
        run(size, events).inv(),
        run(size, events).pool.workers.len() == size,
    decreases events.len(),
{
    if events.len() == 0 {
        lemma_init_inv::<J>(size);
    } else {
        lemma_run_inv(size, events.drop_last());
        lemma_after_inv(run(size, events.drop_last()), events.last());
    }
}

/// Every pool that a run can reach is well formed and has the number of
/// workers it was created with.
pub proof fn reachable_pools_are_well_formed<J>(size: nat, events: Seq<Event<J>>)
    requires
        size > 0,
        admissible(size, events),
    ensures
        run(size, events).pool.wf(),
        run(size, events).pool.size() == size,
        run(size, events).taken.len() == size,
{
    lemma_run_inv(size, events);
}

/// Jobs leave the queue in the order of their submission: at every point of
/// a run the queue holds exactly the submitted jobs that have not left it,
/// oldest first, and a worker that receives now is handed the oldest of them.
pub proof fn jobs_leave_in_submission_order<J>(size: nat, events: Seq<Event<J>>)
    requires
        size > 0,
        admissible(size, events),
    ensures
        ({
            let h = run(size, events);
            &&& 0 <= h.started() <= h.submitted.len()
            &&& h.pool.queue.jobs == h.submitted.skip(h.started())
            &&& h.started() < h.submitted.len() ==> h.pool.action() == Action::Run(h.submitted[h.started()])
            &&& h.started() == h.submitted.len() ==> !(h.pool.action() is Run)
        }),
{
    lemma_run_inv(size, events);
}

/// No job runs twice, and only jobs that were handed to a worker run at all:
/// at every point of a run each ticket has completed at most once, and a
/// ticket that has completed had left the queue before.
pub proof fn no_job_runs_twice<J>(size: nat, events: Seq<Event<J>>)
    requires
        size > 0,
        admissible(size, events),
    ensures
        ({
            let h = run(size, events);
            &&& forall|k: int| #[trigger] h.times_executed(k) <= 1
            &&& forall|k: int| #[trigger] h.times_executed(k) == 1 ==> 0 <= k < h.started()
        }),
{
    lemma_run_inv(size, events);
    let h = run(size, events);
    h.finished.lemma_multiset_has_no_duplicates();
    assert forall|k: int| #[trigger] h.times_executed(k) == 1 implies 0 <= k < h.started() by {
        h.finished.to_multiset_ensures();
        assert(h.finished.contains(k));
    }
}

/// No job is lost on the way: at every point of a run, a job that has left
/// the queue has either completed, exactly once, or is held by a worker that
/// is executing it or that failed while executing it.
pub proof fn no_job_is_dropped<J>(size: nat, events: Seq<Event<J>>)
    requires
        size > 0,
        admissible(size, events),
    ensures
        ({
            let h = run(size, events);
            &&& forall|k: int| 0 <= k < h.started() ==> h.times_executed(k) == 1 || #[trigger] h.held(k)
            &&& forall|k: int| #[trigger] h.held(k) ==> h.times_executed(k) == 0
            &&& forall|w: int|
                0 <= w < size && (#[trigger] h.taken[w]) is Some ==> h.pool.workers[w].state.is_busy()
                    || h.pool.workers[w].state.has_failed()
        }),
{
    lemma_run_inv(size, events);
    let h = run(size, events);
    h.finished.lemma_multiset_has_no_duplicates();
    h.finished.to_multiset_ensures();
    assert forall|k: int| #[trigger] h.held(k) implies h.times_executed(k) == 0 by {
        if h.finished.contains(k) {
            let i = choose|i: int| 0 <= i < h.finished.len() && h.finished[i] == k;
            let w = choose|w: int| 0 <= w < h.taken.len() && #[trigger] h.taken[w] == Some(k);
            assert(Some(h.finished[i]) != h.taken[w]);
        }
    }
}

/// Releasing the pool waits for the work: once the queue is closed and every
/// worker has been joined, no worker is executing anything.  If moreover no
/// worker failed, the queue is drained and every submitted job has run to
/// completion exactly once, whatever the number of jobs and of workers.
pub proof fn release_waits_for_every_job<J>(size: nat, events: Seq<Event<J>>)
    requires
        size > 0,
        admissible(size, events),
        run(size, events).pool.released(),
    ensures
        ({
            let h = run(size, events);
            &&& forall|w: int| 0 <= w < size ==> (#[trigger] h.pool.workers[w]).state is Terminated
            &&& h.pool.fault_free() ==> {
                &&& h.pool.queue.jobs.len() == 0
                &&& h.finished.len() == h.submitted.len()
                &&& forall|k: int| 0 <= k < h.submitted.len() ==> #[trigger] h.times_executed(k) == 1
                &&& h.executed().to_multiset() == h.submitted.to_multiset()
            }
        }),
{
    lemma_run_inv(size, events);
    let h = run(size, events);
    if h.pool.fault_free() {
        assert(h.pool.workers[0].state.has_exited());
        assert forall|k: int| 0 <= k < h.submitted.len() implies h.finished.contains(k) by {
            if h.held(k) {
                let w = choose|w: int| 0 <= w < h.taken.len() && #[trigger] h.taken[w] == Some(k);
                assert(h.pool.workers[w].state is Terminated);
            }
        }
        h.finished.lemma_multiset_has_no_duplicates();
        h.finished.to_multiset_ensures();
        assert forall|k: int| 0 <= k < h.submitted.len() implies #[trigger] h.times_executed(k)
            == 1 by {
            assert(h.finished.contains(k));
        }
        lemma_tickets_fill_range(h.finished, h.submitted.len());
        lemma_rearranged_jobs(h.finished, h.submitted);
    }
}

/// A duplicate-free sequence that holds exactly the numbers below `n` has the
/// length `n`.
proof fn lemma_tickets_fill_range(s: Seq<int>, n: nat)
    requires
        s.no_duplicates(),
        forall|i: int| 0 <= i < s.len() ==> 0 <= #[trigger] s[i] < n,
        forall|k: int| 0 <= k < n ==> s.contains(k),
    ensures
        s.len() == n,
{
    s.unique_seq_to_set();
    vstd::set_lib::lemma_int_range(0, n as int);
    assert(s.to_set() =~= vstd::set_lib::set_int_range(0, n as int));
}

/// Picking the items of `jobs` in the order of `tickets`, a duplicate-free
/// sequence that holds exactly the indices of `jobs`, rearranges them: the
/// same items come out, each as often as it is in `jobs`.
proof fn lemma_rearranged_jobs<J>(tickets: Seq<int>, jobs: Seq<J>)
    requires
        tickets.len() == jobs.len(),
        tickets.no_duplicates(),
        forall|i: int| 0 <= i < tickets.len() ==> 0 <= #[trigger] tickets[i] < jobs.len(),
        forall|k: int| 0 <= k < jobs.len() ==> tickets.contains(k),
    ensures
        Seq::new(tickets.len(), |i: int| jobs[tickets[i]]).to_multiset() == jobs.to_multiset(),
    decreases jobs.len(),
{
    let picked = Seq::new(tickets.len(), |i: int| jobs[tickets[i]]);
    if jobs.len() == 0 {
        assert(picked =~= jobs);
    } else {
        let last = jobs.len() - 1;
        assert(tickets.contains(last));
        let p = choose|p: int| 0 <= p < tickets.len() && tickets[p] == last;
        let rest_tickets = tickets.remove(p);
        let rest_jobs = jobs.drop_last();
        let rest_picked = Seq::new(rest_tickets.len(), |i: int| rest_jobs[rest_tickets[i]]);
        assert forall|i: int| 0 <= i < rest_tickets.len() implies 0 <= #[trigger] rest_tickets[i]
            < rest_jobs.len() by {
            let j = if i < p { i } else { i + 1 };
            assert(rest_tickets[i] == tickets[j]);
            assert(tickets[j] != tickets[p]);
        }
        assert(rest_tickets.no_duplicates()) by {
            assert forall|i: int, j: int|
                0 <= i < rest_tickets.len() && 0 <= j < rest_tickets.len() && i != j implies rest_tickets[i]
                != rest_tickets[j] by {
                let a = if i < p { i } else { i + 1 };
                let b = if j < p { j } else { j + 1 };
                assert(rest_tickets[i] == tickets[a]);
                assert(rest_tickets[j] == tickets[b]);
            }
        }
        assert forall|k: int| 0 <= k < rest_jobs.len() implies rest_tickets.contains(k) by {
            assert(tickets.contains(k));
            let j = choose|j: int| 0 <= j < tickets.len() && tickets[j] == k;
            let i = if j < p { j } else { j - 1 };
            assert(rest_tickets[i] == k);
        }
        lemma_rearranged_jobs(rest_tickets, rest_jobs);
        assert(rest_picked =~= picked.remove(p)) by {
            assert forall|i: int| 0 <= i < rest_picked.len() implies rest_picked[i]
                == picked.remove(p)[i] by {
                let j = if i < p { i } else { i + 1 };
                assert(rest_tickets[i] == tickets[j]);
                assert(tickets[j] != tickets[p]);
            }
        }
        picked.to_multiset_ensures();
        rest_jobs.to_multiset_ensures();
        assert(rest_jobs.push(jobs.last()) =~= jobs);
        assert(picked[p] == jobs.last());
        assert(picked.to_multiset() =~= picked.remove(p).to_multiset().insert(picked[p]));
    }
}

/// A pool of one worker runs the jobs in the very order of their submission:
/// at every point of a run the completed jobs are the first of the submitted
/// ones, in that order.
pub proof fn single_worker_runs_in_order<J>(events: Seq<Event<J>>)
    requires
        admissible(1, events),
    ensures
        ({
            let h = run(1, events);
            &&& h.finished.len() <= h.submitted.len()
            &&& forall|i: int| 0 <= i < h.finished.len() ==> #[trigger] h.finished[i] == i
            &&& h.executed() == h.submitted.take(h.finished.len() as int)
        }),
{
    lemma_run_inv(1, events);
    let h = run(1, events);
    assert(h.executed() =~= h.submitted.take(h.finished.len() as int));
}

/// Once the pool has dropped its send handle, it stays closed and accepts
/// nothing: if the queue was closed after the first `n` events of a run, it
/// is closed at the end, no submission is enabled then, and the submitted
/// jobs are those that had been submitted by then.
pub proof fn nothing_is_accepted_after_close<J>(size: nat, events: Seq<Event<J>>, n: int)
    requires
        size > 0,
        admissible(size, events),
        0 <= n <= events.len(),
        !run(size, events.take(n)).pool.queue.open,
    ensures
        !run(size, events).pool.queue.open,
        forall|job: J| !run(size, events).pool.enabled(Event::Submit(job)),
        run(size, events).submitted == run(size, events.take(n)).submitted,
    decreases events.len(),
{
    if n == events.len() {
        assert(events.take(n) =~= events);
    } else {
        assert(events.drop_last().take(n) =~= events.take(n));
        nothing_is_accepted_after_close(size, events.drop_last(), n);
    }
}

/// A worker that executes a job keeps no other worker from receiving: if two
/// workers are both about to receive and one of them does, the other still
/// can, and it is handed the job that is then the oldest.
pub proof fn busy_worker_blocks_nobody<J>(pool: PoolView<J>, v: int, w: int)
    requires
        pool.wf(),
        v != w,
        pool.enabled(Event::Receive(v)),
        pool.enabled(Event::Receive(w)),
    ensures
        pool.step(Event::Receive(v)).enabled(Event::Receive(w)),
        pool.queue.jobs.len() >= 2 ==> {
            &&& pool.step(Event::Receive(v)).workers[v].state.is_busy()
            &&& pool.step(Event::Receive(v)).action() == Action::Run(pool.queue.jobs[1])
            &&& pool.step(Event::Receive(v)).step(Event::Receive(w)).workers[v].state.is_busy()
            &&& pool.step(Event::Receive(v)).step(Event::Receive(w)).workers[w].state.is_busy()
        },
{
}

} // verus!
