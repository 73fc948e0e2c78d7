use evcast::pool::{PoolError, WorkerPool, WorkerStep};

#[test]
fn new_pool_has_free_workers_and_takes_tasks() {
    let pool = WorkerPool::new(10);
    assert_eq!(pool.size(), 10);
    assert_eq!(pool.queued(), 0);
    assert!(pool.is_accepting());
    assert!(!pool.is_drained());
    for worker in 0..10usize {
        assert_eq!(pool.running(worker), None);
    }
    assert_eq!(pool.running(10), None);
}

#[test]
fn tasks_are_handed_out_first_in_first_out() {
    let mut pool = WorkerPool::new(2);
    for task in [5u64, 3, 9] {
        assert_eq!(pool.execute(task), Ok(()));
    }
    assert_eq!(pool.queued(), 3);
    assert_eq!(pool.next_step(0), WorkerStep::Run(5));
    assert_eq!(pool.next_step(1), WorkerStep::Run(3));
    assert_eq!(pool.running(0), Some(5));
    assert_eq!(pool.running(1), Some(3));
    assert_eq!(pool.queued(), 1);
    assert_eq!(pool.next_step(1), WorkerStep::Run(9));
    assert_eq!(pool.running(1), Some(9));
    assert_eq!(pool.next_step(0), WorkerStep::Wait);
    assert_eq!(pool.running(0), None);
}

#[test]
fn tasks_queue_while_all_workers_are_busy() {
    let mut pool = WorkerPool::new(1);
    assert_eq!(pool.execute(1), Ok(()));
    assert_eq!(pool.next_step(0), WorkerStep::Run(1));
    for task in 2..=1000u64 {
        assert_eq!(pool.execute(task), Ok(()));
    }
    assert_eq!(pool.queued(), 999);
    assert_eq!(pool.next_step(0), WorkerStep::Run(2));
}

#[test]
fn free_worker_waits_for_a_task() {
    let mut pool = WorkerPool::new(3);
    assert_eq!(pool.next_step(2), WorkerStep::Wait);
    assert_eq!(pool.execute(4), Ok(()));
    assert_eq!(pool.next_step(2), WorkerStep::Run(4));
}

#[test]
fn shut_down_pool_takes_no_task_and_drains() {
    let mut pool = WorkerPool::new(2);
    assert_eq!(pool.execute(1), Ok(()));
    assert_eq!(pool.execute(2), Ok(()));
    assert_eq!(pool.next_step(0), WorkerStep::Run(1));
    pool.shutdown();
    assert!(!pool.is_accepting());
    assert_eq!(pool.execute(3), Err(PoolError::ShutDown));
    assert_eq!(pool.queued(), 1);
    assert!(!pool.is_drained());
    assert_eq!(pool.next_step(1), WorkerStep::Run(2));
    assert!(!pool.is_drained());
    assert_eq!(pool.next_step(0), WorkerStep::Exit);
    assert!(!pool.is_drained());
    assert_eq!(pool.next_step(1), WorkerStep::Exit);
    assert!(pool.is_drained());
}

#[test]
fn unknown_worker_is_told_to_leave() {
    let mut pool = WorkerPool::new(2);
    assert_eq!(pool.execute(1), Ok(()));
    assert_eq!(pool.next_step(2), WorkerStep::Exit);
    assert_eq!(pool.queued(), 1);
}

#[test]
fn pool_without_workers_only_queues() {
    let mut pool = WorkerPool::new(0);
    assert_eq!(pool.size(), 0);
    assert_eq!(pool.execute(1), Ok(()));
    assert_eq!(pool.next_step(0), WorkerStep::Exit);
    assert_eq!(pool.queued(), 1);
    pool.shutdown();
    assert!(!pool.is_drained());
}
