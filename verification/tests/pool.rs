use thread_pool::pool::{Joined, ThreadPool};
use thread_pool::worker::{Action, WorkerState};

const IDLE: WorkerState = WorkerState::Running { busy: false };
const BUSY: WorkerState = WorkerState::Running { busy: true };
const EXITED: WorkerState = WorkerState::Terminated { clean: true };
const FAILED: WorkerState = WorkerState::Terminated { clean: false };

#[test]
fn pool_of_one_has_one_worker() {
    let pool: ThreadPool<u32> = ThreadPool::new(1);
    assert_eq!(pool.size(), 1);
    assert_eq!(pool.worker_state(0), IDLE);
    assert!(pool.is_open());
    assert_eq!(pool.pending(), 0);
    assert_eq!(pool.next_join(), None);
    assert!(!pool.is_released());
}

#[test]
fn pool_has_as_many_workers_as_asked() {
    for size in 1..=64usize {
        let pool: ThreadPool<u32> = ThreadPool::new(size);
        assert_eq!(pool.size(), size);
        for worker in 0..size {
            assert_eq!(pool.worker_state(worker), IDLE);
        }
        assert!(pool.is_open());
        assert_eq!(pool.pending(), 0);
    }
}

#[test]
fn large_pool_can_be_built() {
    let pool: ThreadPool<u8> = ThreadPool::new(5000);
    assert_eq!(pool.size(), 5000);
    assert_eq!(pool.worker_state(4999), IDLE);
}

#[test]
fn execute_queues_jobs_without_running_them() {
    let mut pool: ThreadPool<u32> = ThreadPool::new(2);
    pool.execute(1);
    pool.execute(2);
    pool.execute(3);
    assert_eq!(pool.pending(), 3);
    assert_eq!(pool.worker_state(0), IDLE);
    assert_eq!(pool.worker_state(1), IDLE);
    assert!(pool.is_open());
}

#[test]
fn workers_are_handed_jobs_in_submission_order() {
    let mut pool: ThreadPool<u32> = ThreadPool::new(3);
    pool.execute(10);
    pool.execute(20);
    pool.execute(30);
    assert_eq!(pool.next_job(2), Action::Run(10));
    assert_eq!(pool.next_job(0), Action::Run(20));
    assert_eq!(pool.next_job(1), Action::Run(30));
    assert_eq!(pool.pending(), 0);
    assert_eq!(pool.worker_state(0), BUSY);
    assert_eq!(pool.worker_state(1), BUSY);
    assert_eq!(pool.worker_state(2), BUSY);
}

#[test]
fn each_job_goes_to_one_worker_only() {
    let mut pool: ThreadPool<u32> = ThreadPool::new(2);
    pool.execute(99);
    assert_eq!(pool.next_job(0), Action::Run(99));
    assert_eq!(pool.next_job(1), Action::Wait);
    assert_eq!(pool.worker_state(0), BUSY);
    assert_eq!(pool.worker_state(1), IDLE);
}

#[test]
fn idle_worker_waits_while_the_queue_is_open() {
    let mut pool: ThreadPool<u32> = ThreadPool::new(1);
    assert_eq!(pool.next_job(0), Action::Wait);
    assert_eq!(pool.worker_state(0), IDLE);
    pool.execute(4);
    assert_eq!(pool.next_job(0), Action::Run(4));
}

#[test]
fn job_done_makes_the_worker_receive_again() {
    let mut pool: ThreadPool<u32> = ThreadPool::new(1);
    pool.execute(1);
    pool.execute(2);
    assert_eq!(pool.next_job(0), Action::Run(1));
    pool.job_done(0);
    assert_eq!(pool.worker_state(0), IDLE);
    assert_eq!(pool.next_job(0), Action::Run(2));
    pool.job_done(0);
    assert_eq!(pool.next_job(0), Action::Wait);
}

#[test]
fn close_drops_the_send_handle_only() {
    let mut pool: ThreadPool<u32> = ThreadPool::new(2);
    pool.execute(1);
    pool.close();
    assert!(!pool.is_open());
    assert_eq!(pool.pending(), 1);
    assert_eq!(pool.worker_state(0), IDLE);
    assert_eq!(pool.worker_state(1), IDLE);
    assert!(!pool.is_released());
}

#[test]
fn worker_exits_once_the_closed_queue_is_drained() {
    let mut pool: ThreadPool<u32> = ThreadPool::new(1);
    pool.execute(8);
    pool.close();
    assert_eq!(pool.next_job(0), Action::Run(8));
    pool.job_done(0);
    assert_eq!(pool.next_job(0), Action::Exit);
    assert_eq!(pool.worker_state(0), EXITED);
}

#[test]
fn workers_are_joined_in_the_order_of_creation() {
    let mut pool: ThreadPool<u32> = ThreadPool::new(3);
    assert_eq!(pool.next_join(), None);
    pool.close();
    assert_eq!(pool.next_join(), Some(0));
    assert_eq!(pool.next_job(2), Action::Exit);
    assert_eq!(pool.next_job(1), Action::Exit);
    assert_eq!(pool.next_job(0), Action::Exit);
    assert_eq!(pool.next_join(), Some(0));
    assert_eq!(pool.join(0), Joined::Clean);
    assert_eq!(pool.next_join(), Some(1));
    assert!(!pool.is_released());
    assert_eq!(pool.join(1), Joined::Clean);
    assert_eq!(pool.next_join(), Some(2));
    assert_eq!(pool.join(2), Joined::Clean);
    assert_eq!(pool.next_join(), None);
    assert!(pool.is_released());
}

#[test]
fn failed_worker_is_reported_and_the_shutdown_goes_on() {
    let mut pool: ThreadPool<u32> = ThreadPool::new(3);
    pool.execute(1);
    pool.execute(2);
    assert_eq!(pool.next_job(1), Action::Run(1));
    pool.worker_failed(1);
    assert_eq!(pool.worker_state(1), FAILED);
    assert_eq!(pool.worker_state(0), IDLE);
    assert_eq!(pool.worker_state(2), IDLE);
    assert_eq!(pool.next_job(0), Action::Run(2));
    pool.job_done(0);
    pool.close();
    assert_eq!(pool.next_job(0), Action::Exit);
    assert_eq!(pool.next_job(2), Action::Exit);
    assert_eq!(pool.join(0), Joined::Clean);
    assert_eq!(pool.next_join(), Some(1));
    assert_eq!(pool.join(1), Joined::Faulted);
    assert_eq!(pool.next_join(), Some(2));
    assert_eq!(pool.join(2), Joined::Clean);
    assert!(pool.is_released());
}

#[test]
fn idle_worker_can_fail_too() {
    let mut pool: ThreadPool<u32> = ThreadPool::new(2);
    pool.worker_failed(0);
    assert_eq!(pool.worker_state(0), FAILED);
    pool.execute(3);
    assert_eq!(pool.next_job(1), Action::Run(3));
    pool.job_done(1);
    pool.close();
    assert_eq!(pool.join(0), Joined::Faulted);
    assert_eq!(pool.next_job(1), Action::Exit);
    assert_eq!(pool.join(1), Joined::Clean);
    assert!(pool.is_released());
}

#[test]
fn closed_pool_does_not_take_jobs() {
    let mut pool: ThreadPool<u32> = ThreadPool::new(1);
    pool.execute(1);
    assert!(pool.is_open());
    pool.close();
    assert!(!pool.is_open());
    assert_eq!(pool.pending(), 1);
    assert_eq!(pool.next_job(0), Action::Run(1));
    pool.job_done(0);
    assert_eq!(pool.next_job(0), Action::Exit);
    assert_eq!(pool.join(0), Joined::Clean);
    assert!(pool.is_released());
    assert!(!pool.is_open());
}
