use glote::{Executor, JobOutcome, Task, WorkerPool};

#[test]
fn pool_starts_with_live_numbered_workers() {
    let pool = WorkerPool::new(3);
    assert!(pool.is_accepting());
    assert_eq!(pool.worker_count(), 3);
    for i in 0..3 {
        let (id, alive) = pool.worker_at(i);
        assert_eq!(id, i);
        assert!(alive);
    }
    assert_eq!(pool.queue_len(), 0);
}

#[test]
fn faulting_job_does_not_block_the_next_one() {
    let mut pool = WorkerPool::new(2);
    pool.execute(1);
    pool.run_next(0, JobOutcome::Killed);
    let (id, alive) = pool.worker_at(0);
    assert_eq!(id, 0);
    assert!(!alive);
    pool.watchdog_scan();
    let (id2, alive2) = pool.worker_at(0);
    assert_eq!(id2, 0);
    assert!(alive2);
    pool.execute(2);
    pool.run_next(0, JobOutcome::Done);
    assert_eq!(pool.faulted(), &vec![1u64]);
    assert_eq!(pool.completed(), &vec![2u64]);
}

#[test]
fn caught_fault_leaves_the_worker_alive() {
    let mut pool = WorkerPool::new(1);
    pool.execute(5);
    pool.run_next(0, JobOutcome::Caught);
    let (_, alive) = pool.worker_at(0);
    assert!(alive);
    assert_eq!(pool.faulted(), &vec![5u64]);
}

#[test]
fn watchdog_spares_live_workers() {
    let mut pool = WorkerPool::new(2);
    pool.watchdog_scan();
    for i in 0..2 {
        let (id, alive) = pool.worker_at(i);
        assert_eq!(id, i);
        assert!(alive);
    }
}

#[test]
fn no_job_is_accepted_after_shutdown_begins() {
    let mut pool = WorkerPool::new(1);
    pool.execute(1);
    pool.begin_shutdown();
    pool.execute(2);
    assert!(!pool.is_accepting());
    assert_eq!(pool.queue_len(), 1);
    assert_eq!(pool.rejected(), &vec![2u64]);
}

#[test]
fn shutdown_drains_queue_and_joins_workers() {
    let mut pool = WorkerPool::new(2);
    pool.execute(1);
    pool.execute(2);
    pool.shutdown();
    assert!(!pool.is_accepting());
    assert_eq!(pool.queue_len(), 0);
    assert_eq!(pool.completed(), &vec![1u64, 2u64]);
    for i in 0..2 {
        let (id, alive) = pool.worker_at(i);
        assert_eq!(id, i);
        assert!(!alive);
    }
    pool.execute(3);
    assert_eq!(pool.queue_len(), 0);
    assert_eq!(pool.rejected(), &vec![3u64]);
}

#[test]
fn executor_polls_tasks_in_spawn_order() {
    let mut ex = Executor::new();
    ex.spawn(Task::new(10));
    ex.spawn(Task::new(20));
    ex.spawn(Task::new(30));
    ex.run();
    assert_eq!(ex.tasks.len(), 0);
    let ids: Vec<u64> = ex.done.iter().map(|t| t.id).collect();
    assert_eq!(ids, vec![10, 20, 30]);
    assert!(ex.done.iter().all(|t| t.polled));
}

#[test]
fn executor_run_on_empty_queue_does_nothing() {
    let mut ex = Executor::new();
    ex.run();
    assert_eq!(ex.done.len(), 0);
}

#[test]
fn task_poll_marks_it_polled() {
    let mut t = Task::new(1);
    assert!(!t.polled);
    t.poll();
    assert!(t.polled);
    assert_eq!(t.id, 1);
}
