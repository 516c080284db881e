use vstd::prelude::*;
use crate::pooling::{ItemRef, Spawn};

verus! {

/// The arena as contracts see it.
pub struct ArenaView<ItemType> {
    /// The storage slots, live or not; its length is the capacity.
    pub items: Seq<ItemType>,
    /// The handles of the live items, in iteration order.
    pub live: Seq<Spawn>,
    /// The free stack; the next allocation takes the last entry.
    pub free: Seq<ItemRef>,
    /// A bound above every generation that this arena has stamped, live or
    /// released: no later allocation is stamped below it.
    pub next_id: u128,
    /// The position of the iteration cursor in `live`.
    pub cursor: usize,
}

/// One change to an arena, as a value, so that histories can be spoken of.
pub enum ArenaOp<ItemType> {
    /// An allocation from a source of generations that stands at the given
    /// value; it does nothing when the arena refuses it.
    Allocate(u128),
    /// The release of a handle, which does nothing when the handle is not live.
    Release(Spawn),
    /// A write of an item into a storage slot.
    Store(usize, ItemType),
}

impl<ItemType> ArenaView<ItemType> {
    /// Whether this is an arena of `capacity` slots as it is made: no item
    /// live, and the free stack set to hand out the slots from 0 upwards,
    /// each with the identity slot of the same number.
    pub open spec fn is_fresh(self, capacity: nat) -> bool {
        &&& self.items.len() == capacity
        &&& self.live == Seq::<Spawn>::empty()
        &&& self.free == Seq::new(
            capacity,
            |k: int|
                ItemRef {
                    pool_index: (capacity - 1 - k) as usize,
                    spawn_index: (capacity - 1 - k) as usize,
                },
        )
        &&& self.next_id == 0
        &&& self.cursor == 0
    }

    /// Whether `spawn` names a live item.
    pub open spec fn holds(self, spawn: Spawn) -> bool {
        self.live.contains(spawn)
    }

    /// Whether no slot is free.
    pub open spec fn full(self) -> bool {
        self.free.len() == 0
    }

    /// The generation that an allocation is stamped with when the source of
    /// generations stands at `source`: the source's value, and at least the
    /// arena's own `next_id`, so that a source that has fallen behind the
    /// arena cannot bring a generation back.
    pub open spec fn stamp(self, source: u128) -> u128 {
        if source >= self.next_id {
            source
        } else {
            self.next_id
        }
    }

    /// Whether an allocation is refused: no slot is free, or no generation
    /// is left to stamp it with.
    pub open spec fn refuses(self, source: u128) -> bool {
        self.full() || self.stamp(source) == u128::MAX
    }

    /// The handle that an allocation returns when it is not refused.
    pub open spec fn next_handle(self, source: u128) -> Spawn
        recommends
            !self.refuses(source),
    {
        Spawn {
            id: self.stamp(source),
            self_index: self.free.last().spawn_index,
            pool_index: self.free.last().pool_index,
        }
    }

    /// The arena after the allocation that returned `spawn`: the slot on
    /// top of the free stack has joined the live items at the end, and
    /// `next_id` stands past the generation of `spawn`.
    pub open spec fn claimed(self, spawn: Spawn) -> Self {
        ArenaView {
            live: self.live.push(spawn),
            free: self.free.drop_last(),
            next_id: (spawn.id + 1) as u128,
            ..self
        }
    }

    /// What an allocation returns.
    pub open spec fn spawn_result(self, source: u128) -> Option<Spawn> {
        if self.refuses(source) {
            None
        } else {
            Some(self.next_handle(source))
        }
    }

    /// The arena after an allocation: unchanged where it is refused, and
    /// else with the returned handle claimed.
    pub open spec fn after_spawn(self, source: u128) -> Self {
        if self.refuses(source) {
            self
        } else {
            self.claimed(self.next_handle(source))
        }
    }

    /// Where the source of generations stands after an allocation: past
    /// the generation that was stamped.
    pub open spec fn source_after_spawn(self, source: u128) -> u128 {
        if self.refuses(source) {
            source
        } else {
            (self.stamp(source) + 1) as u128
        }
    }

    /// Whether every generation of this arena, live or released, lies below
    /// `source`.
    pub open spec fn behind(self, source: u128) -> bool {
        self.next_id <= source
    }

    /// The arena after the release of `spawn`: its entry leaves the live
    /// items, which keep their order, and its slot goes on top of the free
    /// stack.
    pub open spec fn after_destroy(self, spawn: Spawn) -> Self {
        if self.holds(spawn) {
            ArenaView {
                live: self.live.remove(self.live.index_of(spawn)),
                free: self.free.push(
                    ItemRef { pool_index: spawn.pool_index, spawn_index: spawn.self_index },
                ),
                ..self
            }
        } else {
            self
        }
    }

    /// The arena after `item` was written into storage slot `pool_index`.
    pub open spec fn after_store(self, pool_index: int, item: ItemType) -> Self {
        ArenaView { items: self.items.update(pool_index, item), ..self }
    }

    /// The arena with its cursor at `cursor`.
    pub open spec fn with_cursor(self, cursor: usize) -> Self {
        ArenaView { cursor, ..self }
    }

    /// The storage slot of the item under the cursor.
    pub open spec fn target_index(self) -> int
        recommends
            self.cursor < self.live.len(),
    {
        self.live[self.cursor as int].pool_index as int
    }

    /// Every slot is either live or free, no slot is both or twice either,
    /// and every live generation was handed out before `next_id`.
    pub open spec fn consistent(self) -> bool {
        &&& self.live.len() + self.free.len() == self.items.len()
        &&& forall|k: int|
            0 <= k < self.live.len() ==> {
                &&& (#[trigger] self.live[k]).self_index < self.items.len()
                &&& self.live[k].pool_index < self.items.len()
                &&& self.live[k].id < self.next_id
            }
        &&& forall|k: int|
            0 <= k < self.free.len() ==> {
                &&& (#[trigger] self.free[k]).spawn_index < self.items.len()
                &&& self.free[k].pool_index < self.items.len()
            }
        &&& forall|j: int, k: int|
            0 <= j < self.live.len() && 0 <= k < self.live.len() && j != k ==> {
                &&& (#[trigger] self.live[j]).self_index != (#[trigger] self.live[k]).self_index
                &&& self.live[j].pool_index != self.live[k].pool_index
                &&& self.live[j].id != self.live[k].id
            }
        &&& forall|j: int, k: int|
            0 <= j < self.free.len() && 0 <= k < self.free.len() && j != k ==> {
                &&& (#[trigger] self.free[j]).spawn_index != (#[trigger] self.free[k]).spawn_index
                &&& self.free[j].pool_index != self.free[k].pool_index
            }
        &&& forall|j: int, k: int|
            0 <= j < self.live.len() && 0 <= k < self.free.len() ==> {
                &&& (#[trigger] self.live[j]).self_index != (#[trigger] self.free[k]).spawn_index
                &&& self.live[j].pool_index != self.free[k].pool_index
            }
    }

    /// The arena after one change.
    pub open spec fn step(self, op: ArenaOp<ItemType>) -> Self {
        match op {
            ArenaOp::Allocate(source) => self.after_spawn(source),
            ArenaOp::Release(spawn) => self.after_destroy(spawn),
            ArenaOp::Store(pool_index, item) => if pool_index < self.items.len() {
                self.after_store(pool_index as int, item)
            } else {
                self
            },
        }
    }

    /// The arena after a history of changes, the first of `ops` first.
    pub open spec fn run(self, ops: Seq<ArenaOp<ItemType>>) -> Self
        decreases ops.len(),
    {
        if ops.len() == 0 {
            self
        } else {
            self.step(ops[0]).run(ops.drop_first())
        }
    }

    /// The arena after `n` allocations in a row from a source that stands
    /// at `source` before the first.
    pub open spec fn spawn_times(self, n: nat, source: u128) -> Self
        decreases n,
    {
        if n == 0 {
            self
        } else {
            self.after_spawn(source).spawn_times((n - 1) as nat, self.source_after_spawn(source))
        }
    }

    /// An arena as it is made is consistent, holds no handle, and has all
    /// of its slots free.
    pub proof fn lemma_fresh_consistent(self, capacity: nat)
        requires
            self.is_fresh(capacity),
            capacity <= usize::MAX,
        ensures
            self.consistent(),
            self.free.len() == capacity,
            forall|spawn: Spawn| !self.holds(spawn),
    {
    }

    /// The item under the cursor is the item that its handle names: what is
    /// written there is what a fetch by that handle finds.
    pub proof fn lemma_target_is_fetched(self, item: ItemType)
        requires
            self.consistent(),
            self.cursor < self.live.len(),
        ensures
            self.holds(self.live[self.cursor as int]),
            self.target_index() == self.live[self.cursor as int].pool_index,
            self.after_store(self.target_index(), item).holds(self.live[self.cursor as int]),
            self.after_store(self.target_index(), item).items[self.live[self.cursor
                as int].pool_index as int] == item,
    {
        assert(self.live[self.cursor as int].pool_index < self.items.len());
    }

    /// There are never more live items than slots.
    pub proof fn lemma_live_within_capacity(self)
        requires
            self.consistent(),
        ensures
            self.live.len() <= self.items.len(),
    {
    }

    /// A live handle occurs once among the live items, at `index_of`.
    pub proof fn lemma_live_position(self, spawn: Spawn)
        requires
            self.consistent(),
            self.holds(spawn),
        ensures
            0 <= self.live.index_of(spawn) < self.live.len(),
            self.live[self.live.index_of(spawn)] == spawn,
            forall|k: int|
                0 <= k < self.live.len() && self.live[k] == spawn ==> k == self.live.index_of(spawn),
    {
        let at = self.live.index_of(spawn);
        assert(0 <= at < self.live.len() && self.live[at] == spawn);
        assert forall|k: int| 0 <= k < self.live.len() && self.live[k] == spawn implies k == at by {
            if k != at {
                assert(self.live[k].id != self.live[at].id);
            }
        }
    }

    /// An allocation keeps the arena consistent and its capacity, never
    /// lowers `next_id`, and leaves the arena behind the source.
    pub proof fn lemma_spawn_consistent(self, source: u128)
        requires
            self.consistent(),
        ensures
            self.after_spawn(source).consistent(),
            self.after_spawn(source).items.len() == self.items.len(),
            self.next_id <= self.after_spawn(source).next_id,
            source <= self.source_after_spawn(source),
            !self.refuses(source) ==> self.after_spawn(source).behind(self.source_after_spawn(source)),
            self.behind(source) ==> self.after_spawn(source).behind(self.source_after_spawn(source)),
    {
        if !self.refuses(source) {
            let after = self.after_spawn(source);
            let n = self.live.len() as int;
            let m = self.free.len() as int;
            let top = self.free[m - 1];
            assert(after.live[n] == self.next_handle(source));
            assert forall|k: int| 0 <= k < after.live.len() implies {
                &&& (#[trigger] after.live[k]).self_index < after.items.len()
                &&& after.live[k].pool_index < after.items.len()
                &&& after.live[k].id < after.next_id
            } by {
                if k < n {
                    assert(after.live[k] == self.live[k]);
                }
            }
            assert forall|j: int, k: int|
                0 <= j < after.live.len() && 0 <= k < after.live.len() && j != k implies {
                &&& (#[trigger] after.live[j]).self_index != (#[trigger] after.live[k]).self_index
                &&& after.live[j].pool_index != after.live[k].pool_index
                &&& after.live[j].id != after.live[k].id
            } by {
                if j < n {
                    assert(after.live[j] == self.live[j]);
                }
                if k < n {
                    assert(after.live[k] == self.live[k]);
                }
            }
            assert forall|j: int, k: int|
                0 <= j < after.live.len() && 0 <= k < after.free.len() implies {
                &&& (#[trigger] after.live[j]).self_index != (#[trigger] after.free[k]).spawn_index
                &&& after.live[j].pool_index != after.free[k].pool_index
            } by {
                assert(after.free[k] == self.free[k]);
                if j < n {
                    assert(after.live[j] == self.live[j]);
                } else {
                    assert(self.free[k].spawn_index != self.free[m - 1].spawn_index);
                }
            }
            assert forall|j: int, k: int|
                0 <= j < after.free.len() && 0 <= k < after.free.len() && j != k implies {
                &&& (#[trigger] after.free[j]).spawn_index != (#[trigger] after.free[k]).spawn_index
                &&& after.free[j].pool_index != after.free[k].pool_index
            } by {
                assert(after.free[j] == self.free[j]);
                assert(after.free[k] == self.free[k]);
            }
            assert forall|k: int| 0 <= k < after.free.len() implies {
                &&& (#[trigger] after.free[k]).spawn_index < after.items.len()
                &&& after.free[k].pool_index < after.items.len()
            } by {
                assert(after.free[k] == self.free[k]);
            }
        }
    }

    /// A release keeps the arena consistent.
    pub proof fn lemma_destroy_consistent(self, spawn: Spawn)
        requires
            self.consistent(),
        ensures
            self.after_destroy(spawn).consistent(),
    {
        if self.holds(spawn) {
            self.lemma_live_position(spawn);
            let after = self.after_destroy(spawn);
            let at = self.live.index_of(spawn);
            let m = self.free.len() as int;
            assert forall|k: int| 0 <= k < after.live.len() implies #[trigger] after.live[k]
                == self.live[if k < at { k } else { k + 1 }] by {}
            assert forall|k: int| 0 <= k < after.free.len() implies #[trigger] after.free[k] == (if k
                < m {
                self.free[k]
            } else {
                ItemRef { pool_index: spawn.pool_index, spawn_index: spawn.self_index }
            }) by {}
            assert forall|k: int| 0 <= k < after.live.len() implies {
                &&& (#[trigger] after.live[k]).self_index < after.items.len()
                &&& after.live[k].pool_index < after.items.len()
                &&& after.live[k].id < after.next_id
            } by {
                assert(after.live[k] == self.live[if k < at { k } else { k + 1 }]);
            }
            assert forall|k: int| 0 <= k < after.free.len() implies {
                &&& (#[trigger] after.free[k]).spawn_index < after.items.len()
                &&& after.free[k].pool_index < after.items.len()
            } by {
                if k < m {
                    assert(after.free[k] == self.free[k]);
                } else {
                    assert(self.live[at] == spawn);
                }
            }
            assert forall|j: int, k: int|
                0 <= j < after.live.len() && 0 <= k < after.live.len() && j != k implies {
                &&& (#[trigger] after.live[j]).self_index != (#[trigger] after.live[k]).self_index
                &&& after.live[j].pool_index != after.live[k].pool_index
                &&& after.live[j].id != after.live[k].id
            } by {
                assert(after.live[j] == self.live[if j < at { j } else { j + 1 }]);
                assert(after.live[k] == self.live[if k < at { k } else { k + 1 }]);
            }
            assert forall|j: int, k: int|
                0 <= j < after.free.len() && 0 <= k < after.free.len() && j != k implies {
                &&& (#[trigger] after.free[j]).spawn_index != (#[trigger] after.free[k]).spawn_index
                &&& after.free[j].pool_index != after.free[k].pool_index
            } by {
                assert(self.live[at] == spawn);
                if j < m {
                    assert(after.free[j] == self.free[j]);
                }
                if k < m {
                    assert(after.free[k] == self.free[k]);
                }
            }
            assert forall|j: int, k: int|
                0 <= j < after.live.len() && 0 <= k < after.free.len() implies {
                &&& (#[trigger] after.live[j]).self_index != (#[trigger] after.free[k]).spawn_index
                &&& after.live[j].pool_index != after.free[k].pool_index
            } by {
                let jj = if j < at { j } else { j + 1 };
                assert(after.live[j] == self.live[jj]);
                if k < m {
                    assert(after.free[k] == self.free[k]);
                } else {
                    assert(self.live[at] == spawn);
                    assert(self.live[jj].self_index != self.live[at].self_index);
                }
            }
        }
    }

    /// A successful allocation makes its handle live, at the end of the
    /// live items. With a generation left, it fails exactly when every slot
    /// holds a live item.
    pub proof fn lemma_spawn_adds_handle(self, source: u128)
        requires
            self.consistent(),
        ensures
            self.stamp(source) < u128::MAX ==> (self.spawn_result(source).is_none() <==> self.live.len()
                == self.items.len()),
            self.live.len() == self.items.len() ==> self.spawn_result(source).is_none(),
            self.spawn_result(source) matches Some(spawn) ==> self.after_spawn(source).holds(spawn)
                && !self.holds(spawn) && self.after_spawn(source).live.len() == self.live.len() + 1
                && spawn.id >= source && spawn.id >= self.next_id,
            self.spawn_result(source).is_none() ==> self.after_spawn(source) == self,
    {
        if !self.refuses(source) {
            let after = self.after_spawn(source);
            assert(after.live[self.live.len() as int] == self.next_handle(source));
            if self.holds(self.next_handle(source)) {
                let k = self.live.index_of(self.next_handle(source));
                assert(self.live[k].id < self.next_id);
            }
        }
    }

    /// A release leaves its handle not live, and takes one live item away
    /// exactly when the handle was live.
    pub proof fn lemma_destroy_drops_handle(self, spawn: Spawn)
        requires
            self.consistent(),
        ensures
            !self.after_destroy(spawn).holds(spawn),
            self.holds(spawn) ==> self.after_destroy(spawn).live.len() == self.live.len() - 1
                && !self.after_destroy(spawn).full(),
            !self.holds(spawn) ==> self.after_destroy(spawn) == self,
    {
        if self.holds(spawn) {
            self.lemma_live_position(spawn);
            let after = self.after_destroy(spawn);
            let at = self.live.index_of(spawn);
            if after.holds(spawn) {
                let k = after.live.index_of(spawn);
                assert(after.live[k] == spawn);
                assert(after.live[k] == self.live[if k < at { k } else { k + 1 }]);
            }
        }
    }

    /// An allocation takes no live handle away.
    pub proof fn lemma_spawn_keeps_handle(self, spawn: Spawn, source: u128)
        requires
            self.holds(spawn),
        ensures
            self.after_spawn(source).holds(spawn),
    {
        if !self.refuses(source) {
            let k = self.live.index_of(spawn);
            assert(self.after_spawn(source).live[k] == spawn);
        }
    }

    /// A release changes the standing of no handle but the one released.
    pub proof fn lemma_destroy_keeps_others(self, spawn: Spawn, other: Spawn)
        requires
            self.consistent(),
            other != spawn,
        ensures
            self.holds(other) <==> self.after_destroy(spawn).holds(other),
    {
        if self.holds(spawn) {
            self.lemma_live_position(spawn);
            let after = self.after_destroy(spawn);
            let at = self.live.index_of(spawn);
            if self.holds(other) {
                let k = self.live.index_of(other);
                assert(self.live[k] == other);
                assert(after.live[if k < at { k } else { k - 1 }] == other);
            }
            if after.holds(other) {
                let k = after.live.index_of(other);
                assert(after.live[k] == other);
                assert(self.live[if k < at { k } else { k + 1 }] == other);
            }
        }
    }

    /// Releasing a handle a second time changes nothing.
    pub proof fn lemma_destroy_idempotent(self, spawn: Spawn)
        requires
            self.consistent(),
        ensures
            self.after_destroy(spawn).after_destroy(spawn) == self.after_destroy(spawn),
    {
        self.lemma_destroy_drops_handle(spawn);
    }

    /// After the release of a live handle the next allocation succeeds,
    /// given a generation to stamp it with.
    pub proof fn lemma_destroy_makes_room(self, spawn: Spawn, source: u128)
        requires
            self.consistent(),
            self.holds(spawn),
            self.stamp(source) < u128::MAX,
        ensures
            self.after_destroy(spawn).spawn_result(source).is_some(),
    {
        self.lemma_destroy_drops_handle(spawn);
    }

    /// After the release of a live handle from a full arena the next
    /// allocation succeeds, given a generation to stamp it with, and leaves
    /// the arena full again, with every other live handle still live.
    pub proof fn lemma_release_then_spawn_fills(self, spawn: Spawn, source: u128, other: Spawn)
        requires
            self.consistent(),
            self.live.len() == self.items.len(),
            self.holds(spawn),
            self.stamp(source) < u128::MAX,
            self.holds(other),
            other != spawn,
        ensures
            self.after_destroy(spawn).spawn_result(source).is_some(),
            self.after_destroy(spawn).after_spawn(source).live.len() == self.items.len(),
            self.after_destroy(spawn).after_spawn(source).full(),
            self.after_destroy(spawn).after_spawn(source).holds(other),
            !self.after_destroy(spawn).after_spawn(source).holds(spawn),
    {
        let released = self.after_destroy(spawn);
        self.lemma_live_position(spawn);
        self.lemma_destroy_consistent(spawn);
        self.lemma_destroy_drops_handle(spawn);
        self.lemma_destroy_keeps_others(spawn, other);
        released.lemma_spawn_consistent(source);
        released.lemma_spawn_adds_handle(source);
        released.lemma_spawn_keeps_handle(other, source);
        released.lemma_released_for_good(spawn, seq![ArenaOp::<ItemType>::Allocate(source)]);
        assert(released.run(seq![ArenaOp::<ItemType>::Allocate(source)]) == released.after_spawn(source))
            by {
            let ops = seq![ArenaOp::<ItemType>::Allocate(source)];
            assert(ops.drop_first().len() == 0);
            assert(released.step(ops[0]).run(ops.drop_first()) == released.step(ops[0]));
        }
    }

    /// A stamped generation is above that of every live handle of the arena,
    /// above every generation that lies below the source or below the
    /// arena's `next_id`, and below whatever the source hands out next.
    pub proof fn lemma_generations_increase(self, earlier: Spawn, source: u128)
        requires
            self.consistent(),
            !self.refuses(source),
            earlier.id < self.next_id || earlier.id < source,
        ensures
            forall|k: int|
                0 <= k < self.live.len() ==> (#[trigger] self.live[k]).id < self.next_handle(source).id,
            earlier.id < self.next_handle(source).id,
            earlier != self.next_handle(source),
            self.next_handle(source).id < self.after_spawn(source).next_id,
            self.next_handle(source).id < self.source_after_spawn(source),
    {
    }

    /// Two live handles of one generation are one allocation.
    pub proof fn lemma_one_generation_one_item(self, j: int, k: int)
        requires
            self.consistent(),
            0 <= j < self.live.len(),
            0 <= k < self.live.len(),
            self.live[j].id == self.live[k].id,
        ensures
            j == k,
    {
    }

    /// A generation is handed out once among the arenas that draw from one
    /// source: when this arena allocates and then `other` does, from the
    /// source as the first allocation left it, the two handles differ, and
    /// the later generation is the higher.
    pub proof fn lemma_generation_handed_out_once(self, other: Self, source: u128)
        requires
            self.consistent(),
            other.consistent(),
            !self.refuses(source),
            !other.refuses(self.source_after_spawn(source)),
        ensures
            self.next_handle(source).id < other.next_handle(self.source_after_spawn(source)).id,
            self.next_handle(source) != other.next_handle(self.source_after_spawn(source)),
    {
    }

    /// A handle that another arena is issued from the source is not live
    /// in this arena, which lies behind that source.
    pub proof fn lemma_foreign_handle_not_live(self, other: Self, source: u128)
        requires
            self.consistent(),
            self.behind(source),
            !other.refuses(source),
        ensures
            !self.holds(other.next_handle(source)),
            self.after_destroy(other.next_handle(source)) == self,
            other.next_handle(source).id < other.source_after_spawn(source),
    {
        let handle = other.next_handle(source);
        if self.holds(handle) {
            let k = self.live.index_of(handle);
            assert(self.live[k].id < self.next_id);
        }
    }

    /// Any one change keeps the arena consistent and its capacity, and
    /// never lowers `next_id`.
    pub proof fn lemma_step_consistent(self, op: ArenaOp<ItemType>)
        requires
            self.consistent(),
        ensures
            self.step(op).consistent(),
            self.next_id <= self.step(op).next_id,
            self.step(op).items.len() == self.items.len(),
    {
        match op {
            ArenaOp::Allocate(source) => {
                self.lemma_spawn_consistent(source);
            },
            ArenaOp::Release(spawn) => {
                self.lemma_destroy_consistent(spawn);
            },
            ArenaOp::Store(pool_index, item) => {},
        }
    }

    /// A history of changes keeps the arena consistent and its capacity.
    pub proof fn lemma_run_consistent(self, ops: Seq<ArenaOp<ItemType>>)
        requires
            self.consistent(),
        ensures
            self.run(ops).consistent(),
            self.next_id <= self.run(ops).next_id,
            self.run(ops).items.len() == self.items.len(),
        decreases ops.len(),
    {
        if ops.len() > 0 {
            self.lemma_step_consistent(ops[0]);
            self.step(ops[0]).lemma_run_consistent(ops.drop_first());
        }
    }

    /// A handle that is live stays live through every history that does
    /// not release it.
    pub proof fn lemma_live_until_released(self, spawn: Spawn, ops: Seq<ArenaOp<ItemType>>)
        requires
            self.consistent(),
            self.holds(spawn),
            forall|i: int| 0 <= i < ops.len() ==> ops[i] != ArenaOp::<ItemType>::Release(spawn),
        ensures
            self.run(ops).holds(spawn),
        decreases ops.len(),
    {
        if ops.len() > 0 {
            let next = self.step(ops[0]);
            self.lemma_step_consistent(ops[0]);
            match ops[0] {
                ArenaOp::Allocate(source) => {
                    self.lemma_spawn_keeps_handle(spawn, source);
                },
                ArenaOp::Release(other) => {
                    self.lemma_destroy_keeps_others(other, spawn);
                },
                ArenaOp::Store(pool_index, item) => {},
            }
            let rest = ops.drop_first();
            assert forall|i: int| 0 <= i < rest.len() implies rest[i] != ArenaOp::<
                ItemType,
            >::Release(spawn) by {
                assert(rest[i] == ops[i + 1]);
            }
            next.lemma_live_until_released(spawn, rest);
        }
    }

    /// Whether no change of `ops` writes into storage slot `pool_index`.
    pub open spec fn leaves_slot(pool_index: usize, ops: Seq<ArenaOp<ItemType>>) -> bool {
        forall|i: int|
            0 <= i < ops.len() ==> match #[trigger] ops[i] {
                ArenaOp::Store(at, _) => at != pool_index,
                _ => true,
            }
    }

    /// An item stays as it was last written through every history that does
    /// not write into its slot: allocations and releases, of this slot too,
    /// leave the items alone.
    pub proof fn lemma_item_stays(self, pool_index: usize, ops: Seq<ArenaOp<ItemType>>)
        requires
            pool_index < self.items.len(),
            Self::leaves_slot(pool_index, ops),
        ensures
            self.run(ops).items.len() == self.items.len(),
            self.run(ops).items[pool_index as int] == self.items[pool_index as int],
        decreases ops.len(),
    {
        if ops.len() > 0 {
            let rest = ops.drop_first();
            assert(ops[0] == ops[0]);
            assert forall|i: int| 0 <= i < rest.len() implies match #[trigger] rest[i] {
                ArenaOp::Store(at, _) => at != pool_index,
                _ => true,
            } by {
                assert(rest[i] == ops[i + 1]);
            }
            self.step(ops[0]).lemma_item_stays(pool_index, rest);
        }
    }

    /// Whether every allocation of `ops` draws from a source that stands
    /// above the generation of `spawn`.
    pub open spec fn drawn_after(spawn: Spawn, ops: Seq<ArenaOp<ItemType>>) -> bool {
        forall|i: int|
            0 <= i < ops.len() ==> match #[trigger] ops[i] {
                ArenaOp::Allocate(source) => spawn.id < source,
                _ => true,
            }
    }

    /// A handle that is not live never becomes live, whatever happens to the
    /// arena and whichever slots are taken anew, if its generation lies
    /// below the arena's `next_id`, as that of every handle that the arena
    /// released does, or below the source at every later allocation, as that
    /// of every handle does that another arena drew from the same source.
    pub proof fn lemma_released_for_good(self, spawn: Spawn, ops: Seq<ArenaOp<ItemType>>)
        requires
            self.consistent(),
            !self.holds(spawn),
            spawn.id < self.next_id || Self::drawn_after(spawn, ops),
        ensures
            !self.run(ops).holds(spawn),
        decreases ops.len(),
    {
        if ops.len() > 0 {
            let next = self.step(ops[0]);
            let rest = ops.drop_first();
            self.lemma_step_consistent(ops[0]);
            match ops[0] {
                ArenaOp::Allocate(source) => {
                    if !self.refuses(source) && next.holds(spawn) {
                        let k = next.live.index_of(spawn);
                        assert(next.live[k] == spawn);
                        if k < self.live.len() {
                            assert(self.live[k] == spawn);
                        }
                    }
                },
                ArenaOp::Release(other) => {
                    if other != spawn {
                        self.lemma_destroy_keeps_others(other, spawn);
                    }
                },
                ArenaOp::Store(pool_index, item) => {},
            }
            if !(spawn.id < next.next_id) {
                assert forall|i: int| 0 <= i < rest.len() implies match #[trigger] rest[i] {
                    ArenaOp::Allocate(source) => spawn.id < source,
                    _ => true,
                } by {
                    assert(rest[i] == ops[i + 1]);
                }
            }
            next.lemma_released_for_good(spawn, rest);
        }
    }

    /// Allocations in a row succeed until every slot holds a live item:
    /// with `n` slots free and generations left for them, `n` of them leave
    /// the arena full, and the next one is refused.
    pub proof fn lemma_spawns_fill_arena(self, n: nat, source: u128)
        requires
            self.consistent(),
            self.stamp(source) + n < u128::MAX,
            n <= self.free.len(),
        ensures
            self.spawn_times(n, source).consistent(),
            self.spawn_times(n, source).live.len() == self.live.len() + n,
            self.spawn_times(n, source).free.len() == self.free.len() - n,
            self.spawn_times(n, source).items.len() == self.items.len(),
            n == self.free.len() ==> self.spawn_times(n, source).full(),
            n < self.free.len() ==> !self.spawn_times(n, source).full(),
        decreases n,
    {
        if n > 0 {
            self.lemma_spawn_consistent(source);
            self.after_spawn(source).lemma_spawns_fill_arena(
                (n - 1) as nat,
                self.source_after_spawn(source),
            );
        }
    }

    /// A handle lives from its allocation on, through every history that
    /// does not release it.
    pub proof fn lemma_spawned_handle_lives(self, source: u128, ops: Seq<ArenaOp<ItemType>>)
        requires
            self.consistent(),
            !self.refuses(source),
            forall|i: int|
                0 <= i < ops.len() ==> ops[i] != ArenaOp::<ItemType>::Release(
                    self.next_handle(source),
                ),
        ensures
            self.after_spawn(source).run(ops).holds(self.next_handle(source)),
    {
        self.lemma_spawn_consistent(source);
        self.lemma_spawn_adds_handle(source);
        self.after_spawn(source).lemma_live_until_released(self.next_handle(source), ops);
    }

    /// Once a live handle is released it is not live after any history,
    /// allocations into its old slots included.
    pub proof fn lemma_destroyed_handle_stays_dead(self, spawn: Spawn, ops: Seq<ArenaOp<ItemType>>)
        requires
            self.consistent(),
            self.holds(spawn),
        ensures
            !self.after_destroy(spawn).run(ops).holds(spawn),
            self.after_destroy(spawn).run(ops).after_destroy(spawn) == self.after_destroy(spawn).run(
                ops,
            ),
    {
        self.lemma_live_position(spawn);
        self.lemma_destroy_consistent(spawn);
        self.lemma_destroy_drops_handle(spawn);
        self.after_destroy(spawn).lemma_released_for_good(spawn, ops);
    }

    /// A handle that another arena drew from the source is never live in
    /// this arena, which lies behind that source, as long as this arena
    /// draws its later generations from the same source: releasing it here
    /// changes nothing, after any such history.
    pub proof fn lemma_foreign_handle_never_live(
        self,
        other: Self,
        source: u128,
        ops: Seq<ArenaOp<ItemType>>,
    )
        requires
            self.consistent(),
            self.behind(source),
            !other.refuses(source),
            Self::drawn_after(other.next_handle(source), ops),
        ensures
            !self.run(ops).holds(other.next_handle(source)),
            self.run(ops).after_destroy(other.next_handle(source)) == self.run(ops),
    {
        self.lemma_foreign_handle_not_live(other, source);
        self.lemma_released_for_good(other.next_handle(source), ops);
    }

    /// An arena as it is made takes as many allocations as it has slots,
    /// and refuses the one after.
    pub proof fn lemma_fresh_arena_fills(self, capacity: nat, n: nat, source: u128)
        requires
            self.is_fresh(capacity),
            capacity <= usize::MAX,
            n <= capacity,
            source + capacity < u128::MAX,
        ensures
            self.spawn_times(n, source).live.len() == n,
            n < capacity ==> !self.spawn_times(n, source).full(),
            n == capacity ==> self.spawn_times(n, source).full(),
    {
        self.lemma_fresh_consistent(capacity);
        self.lemma_spawns_fill_arena(n, source);
    }

    /// In a pass in which no run changes the live items, the items under
    /// the cursor are the live items, each met once and in their order.
    /// `visits` lists the arena before each run and after the last.
    pub proof fn lemma_pass_meets_each_once(visits: Seq<Self>)
        requires
            visits.len() > 0,
            visits[0].consistent(),
            visits.len() == visits[0].live.len() + 1,
            forall|k: int| 0 <= k < visits.len() - 1 ==> (#[trigger] visits[k]).cursor == k,
            forall|k: int|
                0 <= k < visits.len() - 1 ==> (#[trigger] visits[k + 1]).live == visits[k].live,
        ensures
            forall|k: int| 0 <= k < visits.len() ==> (#[trigger] visits[k]).live == visits[0].live,
            Seq::new(
                (visits.len() - 1) as nat,
                |k: int| visits[k].live[visits[k].cursor as int],
            ) == visits[0].live,
            visits[0].live.no_duplicates(),
    {
        Self::lemma_same_live(visits, visits.len() - 1);
        assert forall|k: int| 0 <= k < visits.len() implies (#[trigger] visits[k]).live
            == visits[0].live by {
            Self::lemma_same_live(visits, k);
        }
        assert(Seq::new(
            (visits.len() - 1) as nat,
            |k: int| visits[k].live[visits[k].cursor as int],
        ) =~= visits[0].live);
        assert forall|i: int, j: int|
            0 <= i < visits[0].live.len() && 0 <= j < visits[0].live.len() && i != j implies visits[0].live[i]
            != visits[0].live[j] by {
            assert(visits[0].live[i].id != visits[0].live[j].id);
        }
    }

    /// The live items at visit `k` are those at the first visit.
    proof fn lemma_same_live(visits: Seq<Self>, k: int)
        requires
            0 <= k < visits.len(),
            forall|j: int|
                0 <= j < visits.len() - 1 ==> (#[trigger] visits[j + 1]).live == visits[j].live,
        ensures
            visits[k].live == visits[0].live,
        decreases k,
    {
        if k > 0 {
            Self::lemma_same_live(visits, k - 1);
            assert(visits[(k - 1) + 1].live == visits[k - 1].live);
        }
    }
}

} // verus!
