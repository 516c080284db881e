use cluster_pool::{Cluster, DataManager, ObjectPool, Spawn};

#[test]
fn clusters_can_spawn_objects() {
    let mut cluster = Cluster::<bool, bool>::new(0, 2, DataManager::new(1));

    assert_eq!(cluster.count(), 0);

    let spawn_1 = cluster.spawn();
    assert_eq!(spawn_1, Some(Spawn { id: 0, self_index: 0, pool_index: 0 }));
    assert_eq!(cluster.count(), 1);

    let spawn_2 = cluster.spawn();
    assert_eq!(spawn_2, Some(Spawn { id: 1, self_index: 1, pool_index: 1 }));
    assert_eq!(cluster.count(), 2);

    let spawn_3 = cluster.spawn();
    assert_eq!(spawn_3, None);
    assert_eq!(cluster.count(), 2);
}

#[test]
fn clusters_can_destroy_objects() {
    let mut cluster = Cluster::<bool, bool>::new(0, 2, DataManager::new(1));

    let spawn_1 = cluster.spawn().unwrap();
    let spawn_2 = cluster.spawn().unwrap();
    assert_eq!(cluster.count(), 2);

    cluster.destroy(spawn_2);
    assert_eq!(cluster.count(), 1);

    cluster.destroy(spawn_1.clone());
    assert_eq!(cluster.count(), 0);

    let spawn_3 = cluster.spawn().unwrap();
    assert_ne!(spawn_1, spawn_3);
    assert_eq!(spawn_3, Spawn { id: 2, self_index: 0, pool_index: 0 });
}

#[test]
fn clusters_can_iter_over_objects() {
    let mut cluster = Cluster::<bool, bool>::new(0, 2, DataManager::new(1));

    let spawn_1 = cluster.spawn().unwrap();
    let spawn_2 = cluster.spawn().unwrap();

    assert_eq!(cluster.fetch(&spawn_1), Some(&mut false));
    assert_eq!(cluster.fetch(&spawn_2), Some(&mut false));

    cluster.iter(|pool, _params| {
        *pool.target() = true;
    });

    assert_eq!(cluster.fetch(&spawn_1), Some(&mut true));
    assert_eq!(cluster.fetch(&spawn_2), Some(&mut true));
}

#[test]
fn clusters_have_factories_for_spawning_specific_types() {
    let mut cluster = Cluster::<bool, bool>::new(0, 2, DataManager::new(1));
    cluster.set_build_factory("t-factory", |x| {
        println!("factory called");
        *x = true;
    });

    let spawn_1 = cluster.spawn().unwrap();
    assert_eq!(cluster.fetch(&spawn_1), Some(&mut false));

    let spawn_2 = cluster.build("t-factory").unwrap();

    assert_eq!(cluster.fetch(&spawn_1), Some(&mut false));
    assert_eq!(cluster.fetch(&spawn_2), Some(&mut true));
}

#[test]
fn new_cluster_knows_its_worker_and_capacity() {
    let mut cluster = Cluster::<u32, bool>::new(7, 3, DataManager::new(1));
    assert_eq!(*cluster.thread_id(), 7);
    assert_eq!(cluster.capacity(), 3);
    assert_eq!(cluster.count(), 0);
    assert_eq!(cluster.fetch(&Spawn { id: 0, self_index: 0, pool_index: 0 }), None);
}

#[test]
fn build_with_unknown_tag_changes_nothing() {
    let mut cluster = Cluster::<u32, bool>::new(0, 2, DataManager::new(1));
    cluster.set_build_factory("seven", |x| *x = 7);

    assert_eq!(cluster.build("eight"), None);
    assert_eq!(cluster.build("seve"), None);
    assert_eq!(cluster.build("sevens"), None);
    assert_eq!(cluster.count(), 0);

    assert_eq!(cluster.spawn(), Some(Spawn { id: 0, self_index: 0, pool_index: 0 }));
}

#[test]
fn build_on_full_arena_changes_nothing() {
    let mut cluster = Cluster::<u32, bool>::new(0, 1, DataManager::new(1));
    cluster.set_build_factory("seven", |x| *x = 7);

    let first = cluster.build("seven").unwrap();
    assert_eq!(first, Spawn { id: 0, self_index: 0, pool_index: 0 });
    assert_eq!(cluster.build("seven"), None);
    assert_eq!(cluster.count(), 1);
    assert_eq!(cluster.fetch(&first), Some(&mut 7));

    cluster.destroy(first);
    assert_eq!(cluster.build("seven"), Some(Spawn { id: 1, self_index: 0, pool_index: 0 }));
}

#[test]
fn first_registration_of_a_tag_wins() {
    let mut cluster = Cluster::<u32, bool>::new(0, 4, DataManager::new(1));
    cluster.set_build_factory("a", |x| *x = 1);
    cluster.set_build_factory("b", |x| *x = 2);
    cluster.set_build_factory("a", |x| *x = 3);

    let a = cluster.build("a").unwrap();
    let b = cluster.build("b").unwrap();
    assert_eq!(cluster.fetch(&a), Some(&mut 1));
    assert_eq!(cluster.fetch(&b), Some(&mut 2));
}

#[test]
fn fetch_raw_reaches_the_slot_of_a_handle() {
    let mut cluster = Cluster::<u32, bool>::new(0, 2, DataManager::new(1));
    let a = cluster.spawn().unwrap();
    let b = cluster.spawn().unwrap();
    *cluster.fetch_raw(b.pool_index) = 11;
    assert_eq!(cluster.fetch(&a), Some(&mut 0));
    assert_eq!(cluster.fetch(&b), Some(&mut 11));
}

#[test]
fn iter_visits_each_live_item_once() {
    let mut cluster = Cluster::<u32, bool>::new(0, 4, DataManager::new(1));
    let a = cluster.spawn().unwrap();
    let b = cluster.spawn().unwrap();
    let c = cluster.spawn().unwrap();
    cluster.destroy(b);

    cluster.iter(|pool: &mut ObjectPool<u32>, _shared| {
        *pool.target() += 1;
    });

    assert_eq!(cluster.fetch(&a), Some(&mut 1));
    assert_eq!(cluster.fetch(&c), Some(&mut 1));
    assert_eq!(cluster.fetch(&b), None);
    assert_eq!(*cluster.fetch_raw(b.pool_index), 0);
    assert_eq!(cluster.count(), 2);
}

#[test]
fn iter_handler_sees_the_handle_of_its_item() {
    let mut cluster = Cluster::<u128, bool>::new(0, 3, DataManager::new(1));
    let a = cluster.spawn().unwrap();
    let b = cluster.spawn().unwrap();
    cluster.destroy(a);
    let c = cluster.spawn().unwrap();

    cluster.iter(|pool, _shared| {
        let handle = *pool.target_spawn();
        *pool.target() = handle.id + 100;
    });

    assert_eq!(cluster.fetch(&b), Some(&mut 101));
    assert_eq!(cluster.fetch(&c), Some(&mut 102));
}

#[test]
fn iter_handler_reaches_the_shared_cells() {
    let mut cluster = Cluster::<u32, u32>::new(1, 3, DataManager::new(2));
    cluster.spawn().unwrap();
    cluster.spawn().unwrap();
    cluster.spawn().unwrap();

    cluster.iter(|_pool, shared| {
        shared.write(1, |d| *d += 1);
    });

    assert_eq!(cluster.shared.unlinked(1), 3);
    assert_eq!(cluster.shared.unlinked(0), 0);
}

#[test]
fn iter_over_no_items_calls_nothing() {
    let mut cluster = Cluster::<u32, u32>::new(0, 3, DataManager::new(1));
    cluster.iter(|_pool, shared| {
        shared.write(0, |d| *d += 1);
    });
    assert_eq!(cluster.shared.unlinked(0), 0);
}

#[test]
fn a_new_cluster_knows_no_handle_of_an_earlier_one() {
    let shared = DataManager::<bool>::new(1);
    let mut earlier = Cluster::<u32, bool>::new(0, 2, shared.clone());
    let a = earlier.spawn().unwrap();
    let b = earlier.spawn().unwrap();
    *earlier.fetch(&a).unwrap() = 4;

    let mut later = Cluster::<u32, bool>::new(0, 2, shared.clone());
    assert_eq!(later.count(), 0);
    assert_eq!(later.fetch(&a), None);
    assert_eq!(later.fetch(&b), None);
    assert_eq!(*later.fetch_raw(a.pool_index), 0);
}

#[test]
fn iter_handler_may_release_the_item_it_stands_on() {
    let mut cluster = Cluster::<u32, bool>::new(0, 3, DataManager::new(1));
    let a = cluster.spawn().unwrap();
    let b = cluster.spawn().unwrap();
    let c = cluster.spawn().unwrap();

    cluster.iter(|pool, _shared| {
        let handle = *pool.target_spawn();
        pool.destroy(handle);
    });

    assert_eq!(cluster.count(), 1);
    assert_eq!(cluster.fetch(&a), None);
    assert!(cluster.fetch(&b).is_some());
    assert_eq!(cluster.fetch(&c), None);
    assert_eq!(cluster.spawn(), Some(Spawn { id: 3, self_index: 2, pool_index: 2 }));
}

#[test]
fn clusters_of_one_manager_never_share_a_handle() {
    let shared = DataManager::<bool>::new(2);
    let mut first = Cluster::<u32, bool>::new(0, 2, shared.clone());
    let mut second = Cluster::<u32, bool>::new(1, 2, shared.clone());

    let a = first.spawn().unwrap();
    let b = second.spawn().unwrap();
    assert_eq!(a, Spawn { id: 0, self_index: 0, pool_index: 0 });
    assert_eq!(b, Spawn { id: 1, self_index: 0, pool_index: 0 });

    second.destroy(a);
    assert_eq!(second.count(), 1);
    assert_eq!(second.fetch(&a), None);
    assert!(second.fetch(&b).is_some());

    first.set_build_factory("nine", |x| *x = 9);
    let c = first.build("nine").unwrap();
    assert_eq!(c.id, 2);
    assert_eq!(first.build("nine"), None);
    assert_eq!(second.spawn(), Some(Spawn { id: 3, self_index: 1, pool_index: 1 }));
}

#[test]
fn iter_handler_may_allocate_through_the_shared_handle() {
    let mut cluster = Cluster::<u32, bool>::new(0, 3, DataManager::new(1));
    let a = cluster.spawn().unwrap();

    cluster.iter(|pool, shared| {
        if pool.count() < 2 {
            let fresh = shared.spawn_in(pool).unwrap();
            *pool.fetch(&fresh).unwrap() = 5;
        }
    });

    assert_eq!(cluster.count(), 2);
    assert_eq!(cluster.fetch(&a), Some(&mut 0));
    assert_eq!(cluster.fetch(&Spawn { id: 1, self_index: 1, pool_index: 1 }), Some(&mut 5));
}
