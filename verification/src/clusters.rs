use vstd::prelude::*;
use std::fmt::Debug;
use crate::model::ArenaView;
use crate::pooling::{ObjectPool, Spawn};
use crate::shared::DataManager;

verus! {

/// `str`'s `==`: whether two strings hold the same characters.
#[verifier::external_body]
fn same_tag(left: &str, right: &str) -> (same: bool)
    ensures
        same == (left@ == right@),
{
    left == right
}

/// Whether `at` is the first position of `tag` in `tags`.
pub open spec fn first_match(tags: Seq<Seq<char>>, tag: Seq<char>, at: int) -> bool {
    &&& 0 <= at < tags.len()
    &&& tags[at] == tag
    &&& forall|j: int| 0 <= j < at ==> tags[j] != tag
}

/// Whether `result` is the handle that `arena` hands out to a build whose
/// tag is `known` or not, when the source of generations stands at
/// `source`: none for an unknown tag or a refused allocation, and the
/// arena's next handle otherwise.
pub open spec fn allocates<ItemType>(
    arena: ArenaView<ItemType>,
    known: bool,
    source: u128,
    result: Option<Spawn>,
) -> bool {
    result == (if known {
        arena.spawn_result(source)
    } else {
        None
    })
}

/// One worker's unit of work: an arena of its own, the constructors that
/// were registered under tags, and a handle on what all workers share: the
/// cells, and the source of generations that the arena allocates from.
#[verifier::reject_recursive_types(ItemType)]
#[verifier::reject_recursive_types(LocalData)]
#[verifier::reject_recursive_types(Factory)]
pub struct Cluster<ItemType, LocalData, Factory = fn(&mut ItemType)> where
    ItemType: Default + Clone + Send,
    LocalData: Default + Clone + Debug,
    Factory: Fn(&mut ItemType),
 {
    thread_id: usize,
    pool: ObjectPool<ItemType>,
    factories: Vec<(&'static str, Factory)>,
    pub shared: DataManager<LocalData>,
}

impl<ItemType, LocalData, Factory> Cluster<ItemType, LocalData, Factory> where
    ItemType: Default + Clone + Send,
    LocalData: Default + Clone + Debug,
    Factory: Fn(&mut ItemType),
 {
    /// The arena of this cluster.
    pub closed spec fn arena(&self) -> ArenaView<ItemType> {
        self.pool@
    }

    /// The tags of the registered constructors, in the order of registration.
    pub closed spec fn tags(&self) -> Seq<Seq<char>> {
        Seq::new(self.factories@.len(), |i: int| self.factories@[i].0@)
    }

    /// The registered constructors, in the order of registration.
    pub closed spec fn constructors(&self) -> Seq<Factory> {
        Seq::new(self.factories@.len(), |i: int| self.factories@[i].1)
    }

    /// The handle on the cells of all workers, the field `shared`.
    pub closed spec fn manager(&self) -> DataManager<LocalData> {
        self.shared
    }

    /// The identifier of the worker that owns this cluster.
    pub closed spec fn worker(&self) -> usize {
        self.thread_id
    }

    /// The arena is well-formed, and every registered constructor accepts
    /// every item.
    pub closed spec fn wf(&self) -> bool {
        &&& self.pool.wf()
        &&& forall|i: int, item: &mut ItemType|
            0 <= i < self.factories@.len() ==> #[trigger] call_requires(
                self.factories@[i].1,
                (item,),
            )
    }

    /// The arena of a well-formed cluster is consistent.
    pub proof fn lemma_wf_arena(&self)
        requires
            self.wf(),
        ensures
            self.arena().consistent(),
            self.tags().len() == self.constructors().len(),
    {
    }

    /// A cluster for worker `id` with an arena of `capacity` free slots, no
    /// constructor, and `shared_data_clone` as its handle on the cells and
    /// on the source of generations.
    pub fn new(id: usize, capacity: u32, shared_data_clone: DataManager<LocalData>) -> (cluster:
        Self)
        ensures
            cluster.wf(),
            cluster.worker() == id,
            cluster.manager() == shared_data_clone,
            cluster.tags() == Seq::<Seq<char>>::empty(),
            cluster.constructors() == Seq::<Factory>::empty(),
            cluster.arena().is_fresh(capacity as nat),
            forall|i: int|
                0 <= i < capacity ==> ItemType::default.ensures(
                    (),
                    #[trigger] cluster.arena().items[i],
                ),
            forall|spawn: Spawn| !cluster.arena().holds(spawn),
    {
        let cluster = Cluster {
            thread_id: id,
            pool: ObjectPool::new(capacity),
            factories: Vec::new(),
            shared: shared_data_clone,
        };
        assert(cluster.tags() =~= Seq::<Seq<char>>::empty());
        assert(cluster.constructors() =~= Seq::<Factory>::empty());
        cluster
    }

    /// The identifier of the worker that owns this cluster.
    pub fn thread_id(&self) -> (id: &usize)
        ensures
            *id == self.worker(),
    {
        &self.thread_id
    }

    /// Registers `factory_callback` under `tag`, behind what was registered
    /// before: an earlier constructor of the same tag keeps answering.
    pub fn set_build_factory(&mut self, tag: &'static str, factory_callback: Factory)
        requires
            old(self).wf(),
            forall|item: &mut ItemType| call_requires(factory_callback, (item,)),
        ensures
            final(self).wf(),
            final(self).tags() == old(self).tags().push(tag@),
            final(self).constructors() == old(self).constructors().push(factory_callback),
            final(self).arena() == old(self).arena(),
            final(self).worker() == old(self).worker(),
            final(self).manager() == old(self).manager(),
    {
        self.factories.push((tag, factory_callback));
        proof {
            assert(self.tags() =~= old(self).tags().push(tag@));
            assert(self.constructors() =~= old(self).constructors().push(factory_callback));
            assert forall|i: int, item: &mut ItemType|
                0 <= i < self.factories@.len() implies #[trigger] call_requires(
                self.factories@[i].1,
                (item,),
            ) by {
                if i < old(self).factories@.len() {
                    assert(self.factories@[i] == old(self).factories@[i]);
                }
            }
        }
    }

    /// The first position at which `tag` is registered.
    fn find_factory(&self, tag: &str) -> (found: Option<usize>)
        ensures
            match found {
                Some(at) => first_match(self.tags(), tag@, at as int),
                None => !self.tags().contains(tag@),
            },
    {
        let mut at: usize = 0;
        while at < self.factories.len()
            invariant
                at <= self.factories@.len(),
                forall|j: int| 0 <= j < at ==> self.tags()[j] != tag@,
            decreases self.factories@.len() - at,
        {
            if same_tag(self.factories[at].0, tag) {
                return Some(at);
            }
            at += 1;
        }
        None
    }

    /// Allocates an item, under a generation drawn from the shared source,
    /// and runs on it the first constructor registered under `tag`. `None`,
    /// and nothing changes, when no constructor has that tag, no slot is
    /// free, or no generation is left. `source` is the value that the shared
    /// source was found at.
    pub fn build(&mut self, tag: &'static str) -> (result: Option<Spawn>)
        requires
            old(self).wf(),
        ensures
            final(self).wf(),
            final(self).tags() == old(self).tags(),
            final(self).constructors() == old(self).constructors(),
            final(self).worker() == old(self).worker(),
            final(self).manager() == old(self).manager(),
            !old(self).tags().contains(tag@) || old(self).arena().full() ==> result.is_none(),
            result.is_none() ==> final(self).arena() == old(self).arena(),
            exists|source: u128|
                #[trigger] allocates(old(self).arena(), old(self).tags().contains(tag@), source, result),
            result matches Some(spawn) ==> final(self).arena().holds(spawn),
            result matches Some(spawn) ==> {
                exists|at: int, item: &mut ItemType|
                    {
                        &&& first_match(old(self).tags(), tag@, at)
                        &&& *item == old(self).arena().items[spawn.pool_index as int]
                        &&& #[trigger] call_ensures(old(self).constructors()[at], (item,), ())
                        &&& final(self).arena() == old(self).arena().claimed(spawn).after_store(
                            spawn.pool_index as int,
                            *final(item),
                        )
                    }
            },
    {
        let ghost mut drawn: u128 = 0;
        let result = match self.find_factory(tag) {
            Some(f_index) => {
                let spawned = self.shared.spawn_in(&mut self.pool);
                proof {
                    drawn = choose|source: u128|
                        spawned == #[trigger] old(self).pool@.spawn_result(source) && self.pool@ == old(self).pool@.after_spawn(source);
                    assert(old(self).tags().contains(tag@)) by {
                        assert(old(self).tags()[f_index as int] == tag@);
                    }
                }
                let ghost spawned_arena = self.pool@;
                match spawned {
                    Some(spawn) => {
                        proof {
                            old(self).pool@.lemma_spawn_consistent(drawn);
                            let k = self.pool@.live.index_of(spawn);
                            assert(self.pool@.live[k] == spawn);
                        }
                        let item = self.pool.fetch_raw(spawn.pool_index);
                        (self.factories[f_index].1)(item);
                        proof {
                            assert(spawned_arena == old(self).arena().claimed(spawn));
                            assert(old(self).constructors()[f_index as int] == self.factories@[f_index
                                as int].1);
                            assert(spawned_arena.items[spawn.pool_index as int] == old(self).arena().items[spawn.pool_index as int]);
                        }
                        Some(spawn)
                    },
                    None => None,
                }
            },
            None => None,
        };
        proof {
            assert(allocates(old(self).arena(), old(self).tags().contains(tag@), drawn, result));
        }
        result
    }

    /// The item that `spawn` names, or `None` when it names no live item.
    pub fn fetch(&mut self, spawn: &Spawn) -> (result: Option<&mut ItemType>)
        requires
            old(self).wf(),
        ensures
            result.is_some() <==> old(self).arena().holds(*spawn),
            match result {
                Some(item) => {
                    &&& *item == old(self).arena().items[spawn.pool_index as int]
                    &&& final(self).arena() == old(self).arena().after_store(
                        spawn.pool_index as int,
                        *final(item),
                    )
                },
                None => final(self).arena() == old(self).arena(),
            },
            final(self).wf(),
            final(self).tags() == old(self).tags(),
            final(self).constructors() == old(self).constructors(),
            final(self).worker() == old(self).worker(),
            final(self).manager() == old(self).manager(),
    {
        self.pool.fetch(spawn)
    }

    /// The item in storage slot `pool_index`, with no check that it is live.
    pub fn fetch_raw(&mut self, pool_index: usize) -> (item: &mut ItemType)
        requires
            old(self).wf(),
            pool_index < old(self).arena().items.len(),
        ensures
            *item == old(self).arena().items[pool_index as int],
            final(self).arena() == old(self).arena().after_store(pool_index as int, *final(item)),
            final(self).wf(),
            final(self).tags() == old(self).tags(),
            final(self).constructors() == old(self).constructors(),
            final(self).worker() == old(self).worker(),
            final(self).manager() == old(self).manager(),
    {
        self.pool.fetch_raw(pool_index)
    }

    /// Allocates an item under a generation drawn from the shared source:
    /// the result and the arena are those of `ObjectPool::spawn` for the
    /// value that the source was found at. `None`, and nothing changes, when
    /// no slot is free or no generation is left.
    pub fn spawn(&mut self) -> (result: Option<Spawn>)
        requires
            old(self).wf(),
        ensures
            final(self).wf(),
            exists|source: u128|
                {
                    &&& result == #[trigger] old(self).arena().spawn_result(source)
                    &&& final(self).arena() == old(self).arena().after_spawn(source)
                },
            old(self).arena().full() ==> result.is_none(),
            result.is_none() ==> final(self).arena() == old(self).arena(),
            result matches Some(spawn) ==> {
                &&& final(self).arena().holds(spawn)
                &&& !old(self).arena().holds(spawn)
                &&& spawn.id >= old(self).arena().next_id
            },
            forall|other: Spawn| old(self).arena().holds(other) ==> final(self).arena().holds(other),
            final(self).tags() == old(self).tags(),
            final(self).constructors() == old(self).constructors(),
            final(self).worker() == old(self).worker(),
            final(self).manager() == old(self).manager(),
    {
        let result = self.shared.spawn_in(&mut self.pool);
        proof {
            let source = choose|source: u128|
                result == #[trigger] old(self).pool@.spawn_result(source) && self.pool@ == old(self).pool@.after_spawn(source);
            assert(result == old(self).arena().spawn_result(source));
            assert forall|other: Spawn| old(self).arena().holds(other) implies self.arena().holds(
                other,
            ) by {
                assert(old(self).pool.is_valid(other));
            }
        }
        result
    }

    /// Releases the item that `spawn` names; nothing changes when it names
    /// no live item.
    pub fn destroy(&mut self, spawn: Spawn)
        requires
            old(self).wf(),
        ensures
            final(self).wf(),
            final(self).arena() == old(self).arena().after_destroy(spawn),
            !final(self).arena().holds(spawn),
            final(self).tags() == old(self).tags(),
            final(self).constructors() == old(self).constructors(),
            final(self).worker() == old(self).worker(),
            final(self).manager() == old(self).manager(),
    {
        self.pool.destroy(spawn)
    }

    /// One pass over the live items: `handler` runs once with the cursor on
    /// position 0, then on position 1, and so on, each time on the arena and
    /// on the cluster's handle on the cells as the run before left them,
    /// until the cursor has passed the last live item. `visits` lists the
    /// arena, and `hands` the handle, before the first run and after each.
    /// A handler that leaves the live items alone finds the same live items
    /// at every run, and is thus run once for each of them, in their order,
    /// with that item under the cursor.
    pub fn iter<Handler: Fn(&mut ObjectPool<ItemType>, &mut DataManager<LocalData>)>(
        &mut self,
        handler: Handler,
    )
        requires
            old(self).wf(),
            forall|pool: &mut ObjectPool<ItemType>, shared: &mut DataManager<LocalData>|
                pool.wf() && pool@.cursor < pool@.live.len() ==> call_requires(
                    handler,
                    (pool, shared),
                ),
            forall|pool: &mut ObjectPool<ItemType>, shared: &mut DataManager<LocalData>|
                pool.wf() && #[trigger] call_ensures(handler, (pool, shared), ()) ==> {
                    &&& final(pool).wf()
                    &&& final(pool)@.cursor == pool@.cursor
                    &&& final(pool)@.items.len() == pool@.items.len()
                },
        ensures
            final(self).wf(),
            final(self).tags() == old(self).tags(),
            final(self).constructors() == old(self).constructors(),
            final(self).worker() == old(self).worker(),
            final(self).arena().items.len() == old(self).arena().items.len(),
            final(self).arena().cursor >= final(self).arena().live.len(),
            exists|visits: Seq<ArenaView<ItemType>>, hands: Seq<DataManager<LocalData>>|
                {
                    &&& visits.len() == final(self).arena().cursor + 1
                    &&& visits[0] == old(self).arena().with_cursor(0)
                    &&& visits.last() == final(self).arena()
                    &&& hands.len() == visits.len()
                    &&& hands[0] == old(self).manager()
                    &&& hands.last() == final(self).manager()
                    &&& (forall|pool: &mut ObjectPool<ItemType>, shared: &mut DataManager<LocalData>|
                        pool.wf() && #[trigger] call_ensures(handler, (pool, shared), ()) ==> final(pool)@.live
                            == pool@.live) ==> forall|k: int|
                        0 <= k < visits.len() ==> (#[trigger] visits[k]).live == old(self).arena().live
                    &&& forall|k: int|
                        0 <= k < visits.len() - 1 ==> {
                            &&& (#[trigger] visits[k]).cursor == k
                            &&& k < visits[k].live.len()
                            &&& exists|pool: &mut ObjectPool<ItemType>, shared: &mut DataManager<LocalData>|
                                {
                                    &&& pool@ == visits[k]
                                    &&& *shared == hands[k]
                                    &&& #[trigger] call_ensures(handler, (pool, shared), ())
                                    &&& final(pool)@.with_cursor((k + 1) as usize) == visits[k + 1]
                                    &&& *final(shared) == hands[k + 1]
                                }
                        }
                },
            (forall|pool: &mut ObjectPool<ItemType>, shared: &mut DataManager<LocalData>|
                pool.wf() && #[trigger] call_ensures(handler, (pool, shared), ()) ==> final(pool)@.live
                    == pool@.live) ==> {
                &&& final(self).arena().live == old(self).arena().live
                &&& final(self).arena().cursor == old(self).arena().live.len()
            },
            (forall|pool: &mut ObjectPool<ItemType>, shared: &mut DataManager<LocalData>|
                pool.wf() && #[trigger] call_ensures(handler, (pool, shared), ()) ==> final(shared).cells()
                    == shared.cells()) ==> final(self).manager().cells() == old(self).manager().cells(),
    {
        self.pool.rewind();
        let ghost mut visits: Seq<ArenaView<ItemType>> = seq![self.pool@];
        let ghost mut hands: Seq<DataManager<LocalData>> = seq![self.shared];
        let ghost quiet = forall|pool: &mut ObjectPool<ItemType>, shared: &mut DataManager<LocalData>|
            pool.wf() && #[trigger] call_ensures(handler, (pool, shared), ()) ==> final(pool)@.live
                == pool@.live;
        let ghost calm = forall|pool: &mut ObjectPool<ItemType>, shared: &mut DataManager<LocalData>|
            pool.wf() && #[trigger] call_ensures(handler, (pool, shared), ()) ==> final(shared).cells()
                == shared.cells();
        while self.pool.position() < self.pool.count()
            invariant
                self.pool.wf(),
                self.factories == old(self).factories,
                self.thread_id == old(self).thread_id,
                self.pool@.items.len() == old(self).pool@.items.len(),
                self.pool@.cursor <= self.pool@.items.len(),
                forall|pool: &mut ObjectPool<ItemType>, shared: &mut DataManager<LocalData>|
                    pool.wf() && pool@.cursor < pool@.live.len() ==> call_requires(
                        handler,
                        (pool, shared),
                    ),
                forall|pool: &mut ObjectPool<ItemType>, shared: &mut DataManager<LocalData>|
                    pool.wf() && #[trigger] call_ensures(handler, (pool, shared), ()) ==> {
                        &&& final(pool).wf()
                        &&& final(pool)@.cursor == pool@.cursor
                        &&& final(pool)@.items.len() == pool@.items.len()
                    },
                quiet == (forall|pool: &mut ObjectPool<ItemType>, shared: &mut DataManager<LocalData>|
                    pool.wf() && #[trigger] call_ensures(handler, (pool, shared), ()) ==> final(pool)@.live
                        == pool@.live),
                calm == (forall|pool: &mut ObjectPool<ItemType>, shared: &mut DataManager<LocalData>|
                    pool.wf() && #[trigger] call_ensures(handler, (pool, shared), ()) ==> final(shared).cells() == shared.cells()),
                calm ==> self.shared.cells() == old(self).shared.cells(),
                quiet ==> self.pool@.live == old(self).pool@.live,
                quiet ==> self.pool@.cursor <= self.pool@.live.len(),
                visits.len() == self.pool@.cursor + 1,
                visits[0] == old(self).pool@.with_cursor(0),
                visits.last() == self.pool@,
                quiet ==> forall|k: int|
                    0 <= k < visits.len() ==> (#[trigger] visits[k]).live == old(self).pool@.live,
                hands.len() == visits.len(),
                hands[0] == old(self).shared,
                hands.last() == self.shared,
                forall|k: int|
                    0 <= k < visits.len() - 1 ==> {
                        &&& (#[trigger] visits[k]).cursor == k
                        &&& k < visits[k].live.len()
                        &&& exists|pool: &mut ObjectPool<ItemType>, shared: &mut DataManager<LocalData>|
                            {
                                &&& pool@ == visits[k]
                                &&& *shared == hands[k]
                                &&& #[trigger] call_ensures(handler, (pool, shared), ())
                                &&& final(pool)@.with_cursor((k + 1) as usize) == visits[k + 1]
                                &&& *final(shared) == hands[k + 1]
                            }
                    },
            decreases self.pool@.items.len() - self.pool@.cursor,
        {
            let ghost before = visits;
            let ghost held = hands;
            proof {
                self.pool@.lemma_live_within_capacity();
            }
            handler(&mut self.pool, &mut self.shared);
            self.pool.advance();
            proof {
                visits = visits.push(self.pool@);
                hands = hands.push(self.shared);
                if quiet {
                    assert forall|k: int| 0 <= k < visits.len() implies (#[trigger] visits[k]).live
                        == old(self).pool@.live by {
                        if k < before.len() {
                            assert(visits[k] == before[k]);
                        }
                    }
                }
                assert forall|k: int| 0 <= k < visits.len() - 1 implies {
                    &&& (#[trigger] visits[k]).cursor == k
                    &&& k < visits[k].live.len()
                    &&& exists|pool: &mut ObjectPool<ItemType>, shared: &mut DataManager<LocalData>|
                        {
                            &&& pool@ == visits[k]
                            &&& *shared == hands[k]
                            &&& #[trigger] call_ensures(handler, (pool, shared), ())
                            &&& final(pool)@.with_cursor((k + 1) as usize) == visits[k + 1]
                            &&& *final(shared) == hands[k + 1]
                        }
                } by {
                    if k < before.len() - 1 {
                        assert(visits[k] == before[k]);
                        assert(visits[k + 1] == before[k + 1]);
                        assert(hands[k] == held[k]);
                        assert(hands[k + 1] == held[k + 1]);
                    } else {
                        assert(visits[k] == before.last());
                        assert(hands[k] == held.last());
                    }
                }
            }
        }
        proof {
            self.pool@.lemma_live_within_capacity();
        }
    }

    /// The number of storage slots of the arena.
    pub fn capacity(&self) -> (n: usize)
        ensures
            n == self.arena().items.len(),
    {
        self.pool.capacity()
    }

    /// The number of live items.
    pub fn count(&self) -> (n: usize)
        requires
            self.wf(),
        ensures
            n == self.arena().live.len(),
    {
        self.pool.count()
    }
}

} // verus!
