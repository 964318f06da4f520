//! A fixed-size worker pool, stated as a verified state machine.
//!
//! The pool owns a FIFO job queue and a fixed set of workers.  Every decision
//! of the pool's life cycle (construction, submission, the worker's receive
//! step, and the close-then-join shutdown) is a function of this crate with a
//! contract over a mathematical view of the pool.  Threads, locks and waiting
//! are left to the caller: it performs the action a function returns and hands
//! back the next event.

pub mod queue;
pub mod worker;
pub mod pool;
pub mod history;
