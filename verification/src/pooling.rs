use vstd::prelude::*;
use crate::model::ArenaView;

verus! {

/// A handle to one allocation of an arena: the generation it was stamped
/// with, the identity slot that vouches for it, and the storage slot that
/// holds its item.
#[derive(Clone, Copy, Debug, PartialEq, Eq, Structural)]
pub struct Spawn {
    pub id: u128,
    pub self_index: usize,
    pub pool_index: usize,
}

/// One entry of the free stack or of the active list: a storage slot paired
/// with the identity slot that goes with it.
#[derive(Clone, Copy, Debug, PartialEq, Eq, Structural)]
pub struct ItemRef {
    pub pool_index: usize,
    pub spawn_index: usize,
}

/// A source of generations: a counter that the arenas sharing it draw from,
/// so that no generation is handed out twice among them.
#[derive(Debug)]
pub struct Generations {
    next: u128,
}

impl View for Generations {
    type V = u128;

    /// The generation that the source hands out next.
    closed spec fn view(&self) -> u128 {
        self.next
    }
}

impl Generations {
    /// A source that starts at generation 0.
    pub fn new() -> (source: Self)
        ensures
            source@ == 0,
    {
        Generations { next: 0 }
    }

    /// The generation that the source hands out next.
    pub fn peek(&self) -> (next: u128)
        ensures
            next == self@,
    {
        self.next
    }
}

/// Each identity record sits at its own index, each active entry points at
/// an occupied record that names its storage slot, and each occupied record
/// has an active entry.
spec fn records_agree(
    records: Seq<Spawn>,
    occupied: Seq<bool>,
    active: Seq<ItemRef>,
    capacity: nat,
) -> bool {
    &&& records.len() == capacity
    &&& occupied.len() == capacity
    &&& forall|i: int| 0 <= i < records.len() ==> (#[trigger] records[i]).self_index == i
    &&& forall|k: int|
        0 <= k < active.len() ==> {
            &&& (#[trigger] active[k]).spawn_index < capacity
            &&& records[active[k].spawn_index as int].pool_index == active[k].pool_index
            &&& occupied[active[k].spawn_index as int]
        }
    &&& forall|i: int|
        0 <= i < occupied.len() && #[trigger] occupied[i] ==> exists|k: int|
            0 <= k < active.len() && (#[trigger] active[k]).spawn_index == i
}

/// A fixed-capacity arena of items behind generation-checked handles.
pub struct ObjectPool<ItemType> where ItemType: Default + Clone + Send {
    items: Vec<ItemType>,
    active_pool_count: usize,
    spawn_id_counter: u128,
    all_spawns: Vec<Spawn>,
    occupied: Vec<bool>,
    iter_position: usize,
    free_pool_items: Vec<ItemRef>,
    active_pool_items: Vec<ItemRef>,
}

impl<ItemType> View for ObjectPool<ItemType> where ItemType: Default + Clone + Send {
    type V = ArenaView<ItemType>;

    closed spec fn view(&self) -> ArenaView<ItemType> {
        ArenaView {
            items: self.items@,
            live: Seq::new(
                self.active_pool_items@.len(),
                |k: int| self.all_spawns@[self.active_pool_items@[k].spawn_index as int],
            ),
            free: self.free_pool_items@,
            next_id: self.spawn_id_counter,
            cursor: self.iter_position,
        }
    }
}

impl<ItemType> ObjectPool<ItemType> where ItemType: Default + Clone + Send {
    /// The identity records and the occupancy flags agree with the two lists.
    pub closed spec fn linked(&self) -> bool {
        &&& self.active_pool_count == self.active_pool_items@.len()
        &&& records_agree(
            self.all_spawns@,
            self.occupied@,
            self.active_pool_items@,
            self.items@.len(),
        )
    }

    /// The invariant that every constructor establishes and every method keeps.
    pub open spec fn wf(&self) -> bool {
        self.linked() && self@.consistent()
    }

    /// Whether `spawn` names a live item of this arena.
    pub open spec fn is_valid(&self, spawn: Spawn) -> bool {
        self@.holds(spawn)
    }

    /// The live handle at position `k` is the identity record of the active
    /// entry at `k`, and names that entry's two slots.
    proof fn lemma_live_index(&self, k: int)
        requires
            self.linked(),
            0 <= k < self.active_pool_items@.len(),
        ensures
            self@.live.len() == self.active_pool_items@.len(),
            self@.live[k] == self.all_spawns@[self.active_pool_items@[k].spawn_index as int],
            self@.live[k].self_index == self.active_pool_items@[k].spawn_index,
            self@.live[k].pool_index == self.active_pool_items@[k].pool_index,
    {
    }

    /// A handle is live exactly when its identity record is occupied and is
    /// the handle itself.
    proof fn lemma_valid_check(&self, spawn: Spawn)
        requires
            self.wf(),
        ensures
            self.is_valid(spawn) <==> (spawn.self_index < self.all_spawns@.len()
                && self.occupied@[spawn.self_index as int] && self.all_spawns@[spawn.self_index as int]
                == spawn),
    {
        if self.is_valid(spawn) {
            let k = choose|k: int| 0 <= k < self@.live.len() && self@.live[k] == spawn;
            self.lemma_live_index(k);
        }
        if spawn.self_index < self.all_spawns@.len() && self.occupied@[spawn.self_index as int]
            && self.all_spawns@[spawn.self_index as int] == spawn {
            let k = choose|k: int|
                0 <= k < self.active_pool_items@.len() && (
                #[trigger] self.active_pool_items@[k]).spawn_index == spawn.self_index;
            self.lemma_live_index(k);
            assert(self@.live[k] == spawn);
        }
    }

    /// An arena of `capacity` default items, none of them live. The free
    /// stack hands out the slots from 0 upwards.
    pub fn new(capacity: u32) -> (pool: Self)
        ensures
            pool.wf(),
            pool@.is_fresh(capacity as nat),
            forall|i: int|
                0 <= i < capacity ==> ItemType::default.ensures((), #[trigger] pool@.items[i]),
            forall|spawn: Spawn| !pool.is_valid(spawn),
    {
        let mut items: Vec<ItemType> = Vec::with_capacity(capacity as usize);
        let mut free_pool_items: Vec<ItemRef> = Vec::with_capacity(capacity as usize);
        let mut all_spawns: Vec<Spawn> = Vec::with_capacity(capacity as usize);
        let mut occupied: Vec<bool> = Vec::with_capacity(capacity as usize);
        let active_pool_items: Vec<ItemRef> = Vec::with_capacity(capacity as usize);

        let mut i: u32 = 0;
        while i < capacity
            invariant
                i <= capacity,
                items@.len() == i,
                free_pool_items@.len() == i,
                all_spawns@.len() == i,
                occupied@.len() == i,
                forall|j: int| 0 <= j < i ==> ItemType::default.ensures((), #[trigger] items@[j]),
                forall|j: int|
                    0 <= j < i ==> #[trigger] free_pool_items@[j] == (ItemRef {
                        pool_index: (capacity - 1 - j) as usize,
                        spawn_index: (capacity - 1 - j) as usize,
                    }),
                forall|j: int|
                    0 <= j < i ==> #[trigger] all_spawns@[j] == (Spawn {
                        id: 0,
                        self_index: j as usize,
                        pool_index: 0,
                    }),
                forall|j: int| 0 <= j < i ==> !#[trigger] occupied@[j],
            decreases capacity - i,
        {
            let slot: usize = (capacity - (i + 1)) as usize;
            items.push(ItemType::default());
            free_pool_items.push(ItemRef { pool_index: slot, spawn_index: slot });
            all_spawns.push(Spawn { id: 0, self_index: i as usize, pool_index: 0 });
            occupied.push(false);
            i += 1;
        }

        let pool = ObjectPool {
            items,
            all_spawns,
            occupied,
            active_pool_count: 0,
            spawn_id_counter: 0,
            iter_position: 0,
            free_pool_items,
            active_pool_items,
        };
        proof {
            assert(pool@.live =~= Seq::<Spawn>::empty());
            assert(pool@.free =~= Seq::new(
                capacity as nat,
                |k: int|
                    ItemRef {
                        pool_index: (capacity - 1 - k) as usize,
                        spawn_index: (capacity - 1 - k) as usize,
                    },
            ));
        }
        pool
    }

    /// The test of a handle against its identity record: the record is
    /// occupied and is the handle itself.
    fn validates(&self, spawn: &Spawn) -> (valid: bool)
        requires
            self.wf(),
        ensures
            valid == self.is_valid(*spawn),
    {
        proof {
            self.lemma_valid_check(*spawn);
        }
        spawn.self_index < self.all_spawns.len() && self.occupied[spawn.self_index]
            && self.all_spawns[spawn.self_index].id == spawn.id
            && self.all_spawns[spawn.self_index].pool_index == spawn.pool_index
    }

    /// Claims the slot on top of the free stack, stamps it with the
    /// generation that `source` stands at, or with the arena's own `next_id`
    /// where the source has fallen behind it, moves the source past that
    /// generation, and appends the slot to the live items. `None`, and
    /// nothing changes, exactly when no slot is free or no generation is
    /// left. The new handle is live in no arena that lies behind the source,
    /// as every arena does that has drawn from this source alone.
    pub fn spawn(&mut self, source: &mut Generations) -> (result: Option<Spawn>)
        requires
            old(self).wf(),
        ensures
            final(self).wf(),
            result == old(self)@.spawn_result(old(source)@),
            final(self)@ == old(self)@.after_spawn(old(source)@),
            final(source)@ == old(self)@.source_after_spawn(old(source)@),
            old(self)@.stamp(old(source)@) < u128::MAX ==> (result.is_none() <==> old(self)@.live.len()
                == old(self)@.items.len()),
            old(self)@.live.len() == old(self)@.items.len() ==> result.is_none(),
            result.is_none() ==> final(self)@ == old(self)@ && final(source)@ == old(source)@,
            result matches Some(spawn) ==> {
                &&& final(self).is_valid(spawn)
                &&& !old(self).is_valid(spawn)
                &&& old(source)@ <= spawn.id < final(source)@
                &&& final(self)@.behind(final(source)@)
            },
            old(self)@.behind(old(source)@) ==> final(self)@.behind(final(source)@),
            forall|other: Spawn| old(self).is_valid(other) ==> final(self).is_valid(other),
            result matches Some(spawn) ==> forall|elsewhere: ArenaView<ItemType>|
                elsewhere.consistent() && #[trigger] elsewhere.behind(old(source)@)
                    ==> !elsewhere.holds(spawn),
    {
        proof {
            assert forall|elsewhere: ArenaView<ItemType>|
                !self@.refuses(source@) && elsewhere.consistent() && #[trigger] elsewhere.behind(
                    source@,
                ) implies !elsewhere.holds(self@.next_handle(source@)) by {
                elsewhere.lemma_foreign_handle_not_live(self@, source@);
            }
            self@.lemma_spawn_consistent(source@);
            self@.lemma_spawn_adds_handle(source@);
            assert forall|other: Spawn| self@.holds(other) implies self@.after_spawn(source@).holds(
                other,
            ) by {
                self@.lemma_spawn_keeps_handle(other, source@);
            }
        }
        let stamp: u128 = if source.next >= self.spawn_id_counter {
            source.next
        } else {
            self.spawn_id_counter
        };
        if stamp == u128::MAX {
            return None;
        }
        match self.free_pool_items.pop() {
            Some(iref) => {
                assert(old(self)@.free.last() == iref);
                let handle = Spawn {
                    id: stamp,
                    self_index: iref.spawn_index,
                    pool_index: iref.pool_index,
                };
                self.all_spawns[iref.spawn_index] = handle;
                self.occupied[iref.spawn_index] = true;
                self.spawn_id_counter = stamp + 1;
                source.next = stamp + 1;
                self.active_pool_items.push(iref);
                self.active_pool_count = self.active_pool_items.len();
                proof {
                    let before = old(self)@;
                    let n = old(self).active_pool_items@.len() as int;
                    assert forall|k: int| 0 <= k < n implies self@.live[k] == before.live[k] by {
                        old(self).lemma_live_index(k);
                        assert(before.live[k].self_index != before.free.last().spawn_index);
                    }
                    assert(self@.live =~= before.live.push(handle));
                    assert(self@.free =~= before.free.drop_last());
                    assert forall|i: int|
                        0 <= i < self.occupied@.len() && #[trigger] self.occupied@[i] implies exists|k: int|
                        0 <= k < self.active_pool_items@.len() && (
                        #[trigger] self.active_pool_items@[k]).spawn_index == i by {
                        if i == iref.spawn_index {
                            assert(self.active_pool_items@[n].spawn_index == i);
                        } else {
                            assert(old(self).occupied@[i]);
                            let k = choose|k: int|
                                0 <= k < n && (#[trigger] old(self).active_pool_items@[k]).spawn_index
                                    == i;
                            assert(self.active_pool_items@[k].spawn_index == i);
                        }
                    }
                    assert forall|k: int| 0 <= k < self.active_pool_items@.len() implies {
                        &&& (#[trigger] self.active_pool_items@[k]).spawn_index < self.items@.len()
                        &&& self.all_spawns@[self.active_pool_items@[k].spawn_index as int].pool_index
                            == self.active_pool_items@[k].pool_index
                        &&& self.occupied@[self.active_pool_items@[k].spawn_index as int]
                    } by {
                        if k < n {
                            old(self).lemma_live_index(k);
                            assert(before.live[k].self_index != before.free.last().spawn_index);
                        }
                    }
                    assert(self.linked());
                    assert(self@ == before.after_spawn(old(source)@));
                }
                Some(handle)
            },
            None => None,
        }
    }

    /// Releases the item that `spawn` names: it leaves the live items, the
    /// others keep their order, and its slot goes on top of the free stack.
    /// Nothing changes where `spawn` names no live item of this arena.
    pub fn destroy(&mut self, spawn: Spawn)
        requires
            old(self).wf(),
        ensures
            final(self).wf(),
            final(self)@ == old(self)@.after_destroy(spawn),
            !old(self).is_valid(spawn) ==> final(self)@ == old(self)@,
            old(self).is_valid(spawn) ==> final(self)@.live.len() == old(self)@.live.len() - 1,
            !final(self).is_valid(spawn),
            forall|other: Spawn|
                other != spawn ==> (old(self).is_valid(other) <==> final(self).is_valid(other)),
    {
        proof {
            self@.lemma_destroy_consistent(spawn);
            self@.lemma_destroy_drops_handle(spawn);
            assert forall|other: Spawn| other != spawn implies (self@.holds(other)
                <==> self@.after_destroy(spawn).holds(other)) by {
                self@.lemma_destroy_keeps_others(spawn, other);
            }
        }
        if self.validates(&spawn) {
            let ghost at = self@.live.index_of(spawn);
            proof {
                self@.lemma_live_position(spawn);
                self.lemma_live_index(at);
            }
            let mut position: usize = 0;
            while self.active_pool_items[position].pool_index != spawn.pool_index
                invariant
                    self.wf(),
                    *self == *old(self),
                    0 <= position <= at < self.active_pool_items@.len(),
                    self.active_pool_items@[at].pool_index == spawn.pool_index,
                decreases at - position,
            {
                position += 1;
            }
            proof {
                self.lemma_live_index(position as int);
                assert(position == at);
            }
            let iref = self.active_pool_items.remove(position);
            self.free_pool_items.push(iref);
            self.occupied[spawn.self_index] = false;
            self.active_pool_count = self.active_pool_items.len();
            proof {
                let before = old(self)@;
                let n = self.active_pool_items@.len() as int;
                assert forall|k: int| 0 <= k < n implies self@.live[k] == before.live.remove(at)[k] by {
                    if k < at {
                        old(self).lemma_live_index(k);
                    } else {
                        old(self).lemma_live_index(k + 1);
                    }
                }
                assert(self@.live =~= before.live.remove(at));
                assert(iref == ItemRef { pool_index: spawn.pool_index, spawn_index: spawn.self_index });
                assert forall|i: int|
                    0 <= i < self.occupied@.len() && #[trigger] self.occupied@[i] implies exists|k: int|
                    0 <= k < self.active_pool_items@.len() && (
                    #[trigger] self.active_pool_items@[k]).spawn_index == i by {
                    assert(old(self).occupied@[i]);
                    let k = choose|k: int|
                        0 <= k < n + 1 && (#[trigger] old(self).active_pool_items@[k]).spawn_index == i;
                    old(self).lemma_live_index(k);
                    if k < at {
                        assert(self.active_pool_items@[k].spawn_index == i);
                    } else {
                        assert(k > at);
                        assert(self.active_pool_items@[k - 1].spawn_index == i);
                    }
                }
                assert forall|k: int| 0 <= k < n implies {
                    &&& (#[trigger] self.active_pool_items@[k]).spawn_index < self.items@.len()
                    &&& self.all_spawns@[self.active_pool_items@[k].spawn_index as int].pool_index
                        == self.active_pool_items@[k].pool_index
                    &&& self.occupied@[self.active_pool_items@[k].spawn_index as int]
                } by {
                    let j = if k < at { k } else { k + 1 };
                    old(self).lemma_live_index(j);
                    assert(before.live[j].self_index != before.live[at].self_index);
                }
                assert(self.linked());
                assert(self@ == before.after_destroy(spawn));
            }
        }
    }

    /// The item that `spawn` names, for reading and writing; `None` exactly
    /// when `spawn` names no live item of this arena. What the caller writes
    /// through the reference is all that changes.
    pub fn fetch(&mut self, spawn: &Spawn) -> (result: Option<&mut ItemType>)
        requires
            old(self).wf(),
        ensures
            result.is_some() <==> old(self).is_valid(*spawn),
            match result {
                Some(item) => {
                    &&& *item == old(self)@.items[spawn.pool_index as int]
                    &&& final(self)@ == old(self)@.after_store(spawn.pool_index as int, *final(item))
                },
                None => final(self)@ == old(self)@,
            },
            final(self).wf(),
    {
        if self.validates(spawn) {
            proof {
                self@.lemma_live_position(*spawn);
            }
            Some(&mut self.items[spawn.pool_index])
        } else {
            None
        }
    }

    /// The item in storage slot `pool_index`, with no check that it is live.
    pub fn fetch_raw(&mut self, pool_index: usize) -> (item: &mut ItemType)
        requires
            old(self).wf(),
            pool_index < old(self)@.items.len(),
        ensures
            *item == old(self)@.items[pool_index as int],
            final(self)@ == old(self)@.after_store(pool_index as int, *final(item)),
            final(self).wf(),
    {
        &mut self.items[pool_index]
    }

    /// The item under the iteration cursor.
    pub fn target(&mut self) -> (item: &mut ItemType)
        requires
            old(self).wf(),
            old(self)@.cursor < old(self)@.live.len(),
        ensures
            *item == old(self)@.items[old(self)@.target_index()],
            final(self)@ == old(self)@.after_store(old(self)@.target_index(), *final(item)),
            final(self).wf(),
    {
        proof {
            self.lemma_live_index(self.iter_position as int);
        }
        &mut self.items[self.active_pool_items[self.iter_position].pool_index]
    }

    /// The handle of the item under the iteration cursor.
    pub fn target_spawn(&self) -> (spawn: &Spawn)
        requires
            self.wf(),
            self@.cursor < self@.live.len(),
        ensures
            *spawn == self@.live[self@.cursor as int],
            self.is_valid(*spawn),
    {
        proof {
            self.lemma_live_index(self.iter_position as int);
        }
        &self.all_spawns[self.active_pool_items[self.iter_position].spawn_index]
    }

    /// The position of the iteration cursor among the live items.
    pub fn position(&self) -> (at: usize)
        ensures
            at == self@.cursor,
    {
        self.iter_position
    }

    /// Puts the iteration cursor on the first live item.
    pub(crate) fn rewind(&mut self)
        requires
            old(self).wf(),
        ensures
            final(self).wf(),
            final(self)@ == old(self)@.with_cursor(0),
    {
        self.iter_position = 0;
    }

    /// Moves the iteration cursor one live item on.
    pub(crate) fn advance(&mut self)
        requires
            old(self).wf(),
            old(self)@.cursor < usize::MAX,
        ensures
            final(self).wf(),
            final(self)@ == old(self)@.with_cursor((old(self)@.cursor + 1) as usize),
    {
        self.iter_position = self.iter_position + 1;
    }

    /// The number of storage slots.
    pub fn capacity(&self) -> (n: usize)
        ensures
            n == self@.items.len(),
    {
        self.items.len()
    }

    /// The number of live items.
    pub fn count(&self) -> (n: usize)
        requires
            self.wf(),
        ensures
            n == self@.live.len(),
    {
        self.active_pool_count
    }
}

} // verus!
