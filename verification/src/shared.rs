use vstd::prelude::*;
use std::fmt::Debug;
use std::sync::Arc;
use std::sync::Mutex;
use std::sync::MutexGuard;
use crate::pooling::{Generations, ObjectPool, Spawn};

verus! {

/// `std::sync::Mutex`, which Verus carries as an opaque value: nothing is
/// known of what it holds, since any thread that shares it may have written.
#[verifier::external_type_specification]
#[verifier::external_body]
#[verifier::reject_recursive_types(T)]
pub struct ExMutex<T: ?Sized>(Mutex<T>);

/// `std::sync::MutexGuard`, the proof of a held lock, opaque as well.
#[verifier::external_type_specification]
#[verifier::external_body]
#[verifier::reject_recursive_types(T)]
pub struct ExMutexGuard<'a, T: ?Sized + 'a>(MutexGuard<'a, T>);

/// `Mutex::new` wraps a value; nothing is claimed of the mutex it returns.
pub assume_specification<T>[ Mutex::<T>::new ](t: T) -> (mutex: Mutex<T>);

/// `Mutex::lock`: blocks until the lock is free and returns its guard. A
/// lock that a panicking holder left poisoned is entered all the same,
/// through `PoisonError::into_inner`. Nothing is claimed of the guard. The
/// call does not return to a thread that holds this lock already, and no
/// contract here can rule that out: whoever runs code under a guard must
/// keep that code away from the same lock.
#[verifier::external_body]
pub(crate) fn lock_cell<'a, T>(cell: &'a Mutex<T>) -> (guard: MutexGuard<'a, T>) {
    match cell.lock() {
        Ok(guard) => guard,
        Err(poisoned) => poisoned.into_inner(),
    }
}

/// `DerefMut::deref_mut` of a guard: the value under the held lock, for
/// reading and writing. Nothing is claimed of what it holds.
#[verifier::external_body]
pub(crate) fn guarded<'a, 'b, T>(guard: &'a mut MutexGuard<'b, T>) -> (value: &'a mut T) {
    &mut **guard
}

/// The content of one worker's cell.
pub struct DataCell<LocalData>(LocalData);

impl<LocalData> DataCell<LocalData> {
    /// The value that the cell holds.
    pub closed spec fn content(&self) -> LocalData {
        self.0
    }
}

impl<LocalData: Default> Default for DataCell<LocalData> {
    /// A cell that holds the default value.
    fn default() -> (cell: Self)
        ensures
            LocalData::default.ensures((), cell.content()),
    {
        DataCell(LocalData::default())
    }
}

/// A table of cells, one per worker, each behind a lock of its own, and the
/// source of generations for the arenas of all workers, behind another.
/// Clones of a manager share the cells and the source.
#[verifier::reject_recursive_types(LocalData)]
pub struct DataManager<LocalData: Default + Clone + Debug> {
    data: Vec<Arc<Mutex<DataCell<LocalData>>>>,
    generations: Arc<Mutex<Generations>>,
}

impl<LocalData: Default + Clone + Debug> DataManager<LocalData> {
    /// The cells themselves, by identity: clones of a manager have the same.
    pub closed spec fn cells(&self) -> Seq<Arc<Mutex<DataCell<LocalData>>>> {
        self.data@
    }

    /// The source of generations itself, by identity: clones of a manager
    /// have the same.
    pub closed spec fn source(&self) -> Arc<Mutex<Generations>> {
        self.generations
    }

    /// The number of cells.
    pub open spec fn cell_count(&self) -> nat {
        self.cells().len()
    }

    /// A table of `cluster_count` cells, each made from the default value,
    /// with a source of generations of its own that starts at 0.
    pub fn new(cluster_count: u8) -> (manager: Self)
        ensures
            manager.cell_count() == cluster_count,
    {
        let mut data: Vec<Arc<Mutex<DataCell<LocalData>>>> = Vec::with_capacity(
            cluster_count as usize,
        );
        let mut i: usize = 0;
        while i < cluster_count as usize
            invariant
                i <= cluster_count,
                data@.len() == i,
            decreases cluster_count - i,
        {
            data.push(Arc::new(Mutex::new(DataCell::default())));
            i += 1;
        }
        DataManager { data, generations: Arc::new(Mutex::new(Generations::new())) }
    }

    /// Allocates an item in `pool` under a generation drawn from the shared
    /// source, which is moved past it under its lock: the result and the
    /// arena are those of `ObjectPool::spawn` for the value that the source
    /// was found at. Arenas that only allocate through clones of one manager
    /// never get a generation twice among them.
    pub fn spawn_in<ItemType: Default + Clone + Send>(
        &self,
        pool: &mut ObjectPool<ItemType>,
    ) -> (result: Option<Spawn>)
        requires
            old(pool).wf(),
        ensures
            final(pool).wf(),
            exists|source: u128|
                {
                    &&& result == #[trigger] old(pool)@.spawn_result(source)
                    &&& final(pool)@ == old(pool)@.after_spawn(source)
                },
            old(pool)@.full() ==> result.is_none(),
            result.is_none() ==> final(pool)@ == old(pool)@,
            result matches Some(spawn) ==> {
                &&& final(pool).is_valid(spawn)
                &&& !old(pool).is_valid(spawn)
                &&& spawn.id >= old(pool)@.next_id
            },
            forall|other: Spawn| old(pool).is_valid(other) ==> final(pool).is_valid(other),
    {
        let mut guard = lock_cell(&self.generations);
        let source = guarded(&mut guard);
        proof {
            pool@.lemma_spawn_adds_handle(source@);
        }
        pool.spawn(source)
    }

    /// The number of cells.
    pub fn len(&self) -> (count: usize)
        ensures
            count == self.cell_count(),
    {
        self.data.len()
    }

    /// Runs `data_handler` once on the content of cell `thread_id`, under
    /// that cell's lock alone. The table keeps its cells. The handler must
    /// not reach cell `thread_id` itself, through a clone of this manager or
    /// otherwise: the lock is held while it runs, and the call would not
    /// return.
    pub fn write<H: Fn(&mut LocalData)>(&mut self, thread_id: usize, data_handler: H)
        requires
            thread_id < old(self).cell_count(),
            forall|content: &mut LocalData| call_requires(data_handler, (content,)),
        ensures
            final(self).cells() == old(self).cells(),
            final(self).source() == old(self).source(),
            exists|content: &mut LocalData| #[trigger] call_ensures(data_handler, (content,), ()),
    {
        let mut guard = lock_cell(&self.data[thread_id]);
        let cell = guarded(&mut guard);
        data_handler(&mut cell.0);
    }

    /// Runs `data_handler` once on `value` and the content of cell
    /// `thread_id`, under that cell's lock alone. The table keeps its cells.
    /// The handler must not reach cell `thread_id` itself: the lock is held
    /// while it runs, and the call would not return.
    pub fn catch<T, H: Fn(&T, &mut LocalData)>(
        &mut self,
        thread_id: usize,
        value: &T,
        data_handler: H,
    )
        requires
            thread_id < old(self).cell_count(),
            forall|content: &mut LocalData| call_requires(data_handler, (value, content)),
        ensures
            final(self).cells() == old(self).cells(),
            final(self).source() == old(self).source(),
            exists|content: &mut LocalData|
                #[trigger] call_ensures(data_handler, (value, content), ()),
    {
        let mut guard = lock_cell(&self.data[thread_id]);
        let cell = guarded(&mut guard);
        data_handler(value, &mut cell.0);
    }

    /// As `catch`, with a `value` that the handler may write: what it holds
    /// afterwards is what one run of the handler made of it. The handler
    /// must not reach cell `thread_id` itself: the lock is held while it
    /// runs, and the call would not return.
    pub fn catch_mut<T, H: Fn(&mut T, &mut LocalData)>(
        &mut self,
        thread_id: usize,
        value: &mut T,
        data_handler: H,
    )
        requires
            thread_id < old(self).cell_count(),
            forall|taken: &mut T, content: &mut LocalData|
                call_requires(data_handler, (taken, content)),
        ensures
            final(self).cells() == old(self).cells(),
            final(self).source() == old(self).source(),
            exists|taken: &mut T, content: &mut LocalData|
                *taken == *old(value) && *final(taken) == *final(value) && #[trigger] call_ensures(
                    data_handler,
                    (taken, content),
                    (),
                ),
    {
        let mut guard = lock_cell(&self.data[thread_id]);
        let cell = guarded(&mut guard);
        data_handler(value, &mut cell.0);
    }

    /// A copy of the content of cell `thread_id`, cut loose from the cell:
    /// what `clone` made of the value that the cell held under its lock.
    /// Any holder of the cell may have written it: which value is not known.
    /// `LocalData::clone` must not reach cell `thread_id` itself: the lock
    /// is held while it runs, and the call would not return.
    pub fn unlinked(&self, thread_id: usize) -> (copy: LocalData)
        requires
            thread_id < self.cell_count(),
        ensures
            exists|content: LocalData| #[trigger] call_ensures(LocalData::clone, (&content,), copy),
    {
        let mut guard = lock_cell(&self.data[thread_id]);
        let cell = guarded(&mut guard);
        cell.0.clone()
    }
}

impl<LocalData: Default + Clone + Debug> Clone for DataManager<LocalData> {
    /// A second manager over the same cells.
    fn clone(&self) -> (copy: Self)
        ensures
            copy.cells() == self.cells(),
            copy.source() == self.source(),
    {
        let mut cloned_data: Vec<Arc<Mutex<DataCell<LocalData>>>> = Vec::with_capacity(
            self.data.len(),
        );
        let mut i: usize = 0;
        while i < self.data.len()
            invariant
                i <= self.data@.len(),
                cloned_data@ == self.data@.subrange(0, i as int),
            decreases self.data@.len() - i,
        {
            cloned_data.push(Arc::clone(&self.data[i]));
            i += 1;
        }
        assert(self.data@.subrange(0, i as int) == self.data@);
        DataManager { data: cloned_data, generations: Arc::clone(&self.generations) }
    }
}

} // verus!
