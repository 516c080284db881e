use cluster_pool::runtime::{
    is_running, launch_count, next_worker_action, run_step, WorkerAction, WorkerPhase,
};
use cluster_pool::{Cluster, Spawn, ThreadPool};

#[test]
fn new_runtime_is_stopped_and_sized() {
    let pool = ThreadPool::<bool, u32>::new(4, 16);
    assert_eq!(pool.cluster_count, 4);
    assert_eq!(pool.cluster_capacity, 16);
    assert_eq!(pool.shared.len(), 4);
    assert!(!is_running(&pool.run_handle));
}

#[test]
fn start_asks_for_the_workers_once() {
    let mut pool = ThreadPool::<bool, u32>::new(3, 2);
    assert_eq!(pool.start(), 3);
    assert!(is_running(&pool.run_handle));
    assert_eq!(pool.start(), 0);
    assert_eq!(pool.start(), 0);
    assert!(is_running(&pool.run_handle));
    assert_eq!(pool.shared.len(), 3);
    assert_eq!(pool.cluster_count, 3);
}

#[test]
fn stop_then_start_asks_for_the_workers_again() {
    let mut pool = ThreadPool::<bool, u32>::new(2, 2);
    assert_eq!(pool.start(), 2);
    pool.stop();
    assert!(!is_running(&pool.run_handle));
    assert_eq!(pool.start(), 2);
    pool.stop();
    pool.stop();
    assert!(!is_running(&pool.run_handle));
}

#[test]
fn stop_reaches_every_holder_of_the_flag() {
    let mut pool = ThreadPool::<bool, u32>::new(1, 1);
    let seen_by_worker = std::sync::Arc::clone(&pool.run_handle);
    pool.start();
    assert!(is_running(&seen_by_worker));
    pool.stop();
    assert!(!is_running(&seen_by_worker));
}

#[test]
fn launch_count_follows_the_flag() {
    assert_eq!(launch_count(false, 10), 10);
    assert_eq!(launch_count(true, 10), 0);
    assert_eq!(launch_count(false, 0), 0);
}

#[test]
fn worker_runs_setup_then_updates_then_exits() {
    assert_eq!(
        next_worker_action(WorkerPhase::Fresh, true),
        (WorkerPhase::Looping, WorkerAction::Setup)
    );
    assert_eq!(
        next_worker_action(WorkerPhase::Fresh, false),
        (WorkerPhase::Looping, WorkerAction::Setup)
    );
    assert_eq!(
        next_worker_action(WorkerPhase::Looping, true),
        (WorkerPhase::Looping, WorkerAction::Update)
    );
    assert_eq!(
        next_worker_action(WorkerPhase::Looping, false),
        (WorkerPhase::Done, WorkerAction::Exit)
    );
    assert_eq!(
        next_worker_action(WorkerPhase::Done, true),
        (WorkerPhase::Done, WorkerAction::Exit)
    );
    assert_eq!(
        next_worker_action(WorkerPhase::Done, false),
        (WorkerPhase::Done, WorkerAction::Exit)
    );
}

#[test]
fn run_step_sets_the_flag_on_start_and_clears_it_on_stop() {
    assert_eq!(run_step(false, true, 4), (true, 4));
    assert_eq!(run_step(true, true, 4), (true, 0));
    assert_eq!(run_step(true, false, 4), (false, 0));
    assert_eq!(run_step(false, false, 4), (false, 0));
}

#[test]
fn worker_clusters_are_fresh_and_share_the_runtime() {
    let mut pool = ThreadPool::<u32, u32>::new(2, 3);
    let mut first: Cluster<u32, u32> = pool.worker_cluster(0);
    let mut second: Cluster<u32, u32> = pool.worker_cluster(1);
    assert_eq!(*first.thread_id(), 0);
    assert_eq!(*second.thread_id(), 1);
    assert_eq!(first.capacity(), 3);
    assert_eq!(first.count(), 0);

    first.shared.write(1, |d| *d = 7);
    assert_eq!(pool.shared.unlinked(1), 7);
    assert_eq!(second.shared.unlinked(1), 7);

    let a = first.spawn().unwrap();
    let b = second.spawn().unwrap();
    assert_eq!(a, Spawn { id: 0, self_index: 0, pool_index: 0 });
    assert_eq!(b, Spawn { id: 1, self_index: 0, pool_index: 0 });

    pool.stop();
    let mut anew: Cluster<u32, u32> = pool.worker_cluster(0);
    assert_eq!(anew.fetch(&a), None);
    assert_eq!(anew.spawn(), Some(Spawn { id: 2, self_index: 0, pool_index: 0 }));
}
