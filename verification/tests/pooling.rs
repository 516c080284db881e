use cluster_pool::{Generations, ObjectPool, Spawn};

#[test]
fn fresh_pool_is_empty() {
    let pool = ObjectPool::<u32>::new(5);
    assert_eq!(pool.capacity(), 5);
    assert_eq!(pool.count(), 0);
    assert_eq!(pool.position(), 0);
}

#[test]
fn pool_of_no_slots_never_spawns() {
    let mut pool = ObjectPool::<u32>::new(0);
    let mut source = Generations::new();
    assert_eq!(pool.capacity(), 0);
    assert_eq!(pool.spawn(&mut source), None);
    assert_eq!(pool.count(), 0);
}

#[test]
fn spawn_fills_up_to_capacity_and_no_further() {
    let mut pool = ObjectPool::<u32>::new(3);
    let mut source = Generations::new();
    assert_eq!(pool.spawn(&mut source), Some(Spawn { id: 0, self_index: 0, pool_index: 0 }));
    assert_eq!(pool.spawn(&mut source), Some(Spawn { id: 1, self_index: 1, pool_index: 1 }));
    assert_eq!(pool.spawn(&mut source), Some(Spawn { id: 2, self_index: 2, pool_index: 2 }));
    assert_eq!(pool.spawn(&mut source), None);
    assert_eq!(pool.spawn(&mut source), None);
    assert_eq!(pool.count(), 3);
}

#[test]
fn destroy_makes_room_for_one_more() {
    let mut pool = ObjectPool::<u32>::new(2);
    let mut source = Generations::new();
    let a = pool.spawn(&mut source).unwrap();
    let _b = pool.spawn(&mut source).unwrap();
    assert_eq!(pool.spawn(&mut source), None);
    pool.destroy(a);
    assert!(pool.spawn(&mut source).is_some());
    assert_eq!(pool.spawn(&mut source), None);
}

#[test]
fn capacity_two_scenario() {
    let mut pool = ObjectPool::<u32>::new(2);
    let mut source = Generations::new();
    let first = pool.spawn(&mut source).unwrap();
    let second = pool.spawn(&mut source).unwrap();
    assert_ne!(first, second);
    assert_eq!(pool.spawn(&mut source), None);

    pool.destroy(first);
    assert_eq!(pool.count(), 1);

    let third = pool.spawn(&mut source).unwrap();
    assert_eq!(third, Spawn { id: 2, self_index: 0, pool_index: 0 });
    assert_eq!(third.pool_index, first.pool_index);
    assert_ne!(third.id, first.id);
    assert!(pool.fetch(&second).is_some());
}

#[test]
fn fetch_follows_the_life_of_a_handle() {
    let mut pool = ObjectPool::<u32>::new(2);
    let mut source = Generations::new();
    let a = pool.spawn(&mut source).unwrap();
    *pool.fetch(&a).unwrap() = 5;
    assert_eq!(pool.fetch(&a), Some(&mut 5));

    let b = pool.spawn(&mut source).unwrap();
    assert_eq!(pool.fetch(&a), Some(&mut 5));

    pool.destroy(a);
    assert_eq!(pool.fetch(&a), None);
    assert_eq!(pool.fetch(&b), Some(&mut 0));

    let c = pool.spawn(&mut source).unwrap();
    assert_eq!(c.pool_index, a.pool_index);
    assert_eq!(pool.fetch(&a), None);
    assert!(pool.fetch(&c).is_some());
}

#[test]
fn a_live_handle_survives_the_reuse_of_other_slots() {
    let mut pool = ObjectPool::<u32>::new(3);
    let mut source = Generations::new();
    let a = pool.spawn(&mut source).unwrap();
    let b = pool.spawn(&mut source).unwrap();
    *pool.fetch(&b).unwrap() = 9;
    pool.destroy(a);
    let c = pool.spawn(&mut source).unwrap();
    assert_eq!(c, Spawn { id: 2, self_index: 0, pool_index: 0 });
    assert_eq!(pool.fetch(&b), Some(&mut 9));
    assert_eq!(pool.count(), 2);
}

#[test]
fn destroy_twice_is_a_no_op() {
    let mut pool = ObjectPool::<u32>::new(2);
    let mut source = Generations::new();
    let a = pool.spawn(&mut source).unwrap();
    let b = pool.spawn(&mut source).unwrap();
    pool.destroy(a);
    assert_eq!(pool.count(), 1);
    pool.destroy(a);
    assert_eq!(pool.count(), 1);
    assert!(pool.fetch(&b).is_some());
    pool.destroy(b);
    pool.destroy(b);
    pool.destroy(a);
    assert_eq!(pool.count(), 0);
    assert_eq!(pool.spawn(&mut source), Some(Spawn { id: 2, self_index: 1, pool_index: 1 }));
}

#[test]
fn destroy_of_a_foreign_handle_is_a_no_op() {
    let mut source = Generations::new();
    let mut pool = ObjectPool::<u32>::new(2);
    let mut other = ObjectPool::<u32>::new(2);
    let foreign = other.spawn(&mut source).unwrap();
    let a = pool.spawn(&mut source).unwrap();
    assert_eq!(foreign, Spawn { id: 0, self_index: 0, pool_index: 0 });
    assert_eq!(a, Spawn { id: 1, self_index: 0, pool_index: 0 });

    pool.destroy(foreign);
    assert_eq!(pool.count(), 1);
    assert_eq!(pool.fetch(&foreign), None);
    assert!(pool.fetch(&a).is_some());

    other.destroy(a);
    assert_eq!(other.count(), 1);
    assert!(other.fetch(&foreign).is_some());

    pool.destroy(Spawn { id: 1, self_index: 9, pool_index: 0 });
    pool.destroy(Spawn { id: 5, self_index: 0, pool_index: 0 });
    pool.destroy(Spawn { id: 1, self_index: 0, pool_index: 1 });
    pool.destroy(Spawn { id: 1, self_index: 1, pool_index: 1 });
    assert_eq!(pool.count(), 1);
    assert_eq!(pool.fetch(&Spawn { id: 1, self_index: 9, pool_index: 0 }), None);
}

#[test]
fn generations_are_handed_out_once_among_arenas() {
    let mut source = Generations::new();
    let mut first = ObjectPool::<u32>::new(2);
    let mut second = ObjectPool::<u32>::new(2);
    let a = first.spawn(&mut source).unwrap();
    let b = second.spawn(&mut source).unwrap();
    let c = first.spawn(&mut source).unwrap();
    assert_eq!((a.id, b.id, c.id), (0, 1, 2));
    assert_ne!(a, b);
    assert_eq!(source.peek(), 3);

    let mut late = ObjectPool::<u32>::new(1);
    let d = late.spawn(&mut source).unwrap();
    assert_eq!(d, Spawn { id: 3, self_index: 0, pool_index: 0 });
    assert_eq!(first.fetch(&d), None);
    assert_eq!(second.fetch(&d), None);
}

#[test]
fn refused_spawn_draws_no_generation() {
    let mut source = Generations::new();
    let mut pool = ObjectPool::<u32>::new(1);
    assert!(pool.spawn(&mut source).is_some());
    assert_eq!(pool.spawn(&mut source), None);
    assert_eq!(source.peek(), 1);
}

#[test]
fn source_that_fell_behind_is_brought_up() {
    let mut source = Generations::new();
    let mut pool = ObjectPool::<u32>::new(1);
    let a = pool.spawn(&mut source).unwrap();
    pool.destroy(a);
    let b = pool.spawn(&mut source).unwrap();
    pool.destroy(b);
    assert_eq!(b.id, 1);

    let mut young = Generations::new();
    let c = pool.spawn(&mut young).unwrap();
    assert_eq!(c, Spawn { id: 2, self_index: 0, pool_index: 0 });
    assert_eq!(young.peek(), 3);
    assert_eq!(pool.fetch(&a), None);
    assert_eq!(pool.fetch(&b), None);
}

#[test]
fn handle_of_a_fresh_pool_is_not_valid() {
    let mut pool = ObjectPool::<u32>::new(2);
    let mut source = Generations::new();
    assert_eq!(pool.fetch(&Spawn { id: 0, self_index: 0, pool_index: 0 }), None);
    pool.destroy(Spawn { id: 0, self_index: 0, pool_index: 0 });
    assert_eq!(pool.count(), 0);
    assert_eq!(pool.spawn(&mut source), Some(Spawn { id: 0, self_index: 0, pool_index: 0 }));
}

#[test]
fn generations_only_grow() {
    let mut pool = ObjectPool::<u32>::new(2);
    let mut source = Generations::new();
    let mut last: Option<u128> = None;
    for _ in 0..20 {
        let a = pool.spawn(&mut source).unwrap();
        if let Some(before) = last {
            assert!(a.id > before);
        }
        last = Some(a.id);
        pool.destroy(a);
    }
    assert_eq!(last, Some(19));
}

#[test]
fn destroy_keeps_the_order_of_the_others() {
    let mut pool = ObjectPool::<u32>::new(4);
    let mut source = Generations::new();
    let a = pool.spawn(&mut source).unwrap();
    let b = pool.spawn(&mut source).unwrap();
    let c = pool.spawn(&mut source).unwrap();
    let d = pool.spawn(&mut source).unwrap();
    pool.destroy(b);

    assert_eq!(pool.position(), 0);
    assert_eq!(*pool.target_spawn(), a);
    *pool.target() = 1;
    assert_eq!(pool.fetch(&a), Some(&mut 1));
    assert_eq!(pool.fetch(&c), Some(&mut 0));
    assert_eq!(pool.fetch(&d), Some(&mut 0));
}

#[test]
fn item_keeps_what_was_written_until_its_slot_is_written_again() {
    let mut pool = ObjectPool::<u32>::new(1);
    let mut source = Generations::new();
    let a = pool.spawn(&mut source).unwrap();
    *pool.fetch_raw(a.pool_index) = 3;
    assert_eq!(pool.fetch(&a), Some(&mut 3));
    pool.destroy(a);
    let b = pool.spawn(&mut source).unwrap();
    assert_eq!(*pool.fetch_raw(b.pool_index), 3);
}
