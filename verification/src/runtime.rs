use vstd::prelude::*;
use std::fmt::Debug;
use std::marker::PhantomData;
use std::sync::Arc;
use std::sync::Mutex;
use crate::clusters::Cluster;
use crate::shared::{guarded, lock_cell, DataManager};

verus! {

/// Where a worker stands in its life.
#[derive(Clone, Copy, Debug, PartialEq, Eq, Structural)]
pub enum WorkerPhase {
    /// Created; the setup callback has not run.
    Fresh,
    /// The setup callback has run; updates follow while the flag is set.
    Looping,
    /// The worker saw the flag cleared and left its loop.
    Done,
}

/// What a worker does next.
#[derive(Clone, Copy, Debug, PartialEq, Eq, Structural)]
pub enum WorkerAction {
    /// Run the setup callback.
    Setup,
    /// Run the update callback with the time since the last round.
    Update,
    /// Leave the loop.
    Exit,
}

/// The phase that follows `phase`, and the action that leads there, given
/// what the running flag read: setup comes first whatever the flag says,
/// then one update for each round that finds the flag set, and the first
/// round that finds it cleared ends the worker for good.
pub open spec fn worker_step(phase: WorkerPhase, running: bool) -> (WorkerPhase, WorkerAction) {
    match phase {
        WorkerPhase::Fresh => (WorkerPhase::Looping, WorkerAction::Setup),
        WorkerPhase::Looping => if running {
            (WorkerPhase::Looping, WorkerAction::Update)
        } else {
            (WorkerPhase::Done, WorkerAction::Exit)
        },
        WorkerPhase::Done => (WorkerPhase::Done, WorkerAction::Exit),
    }
}

/// The actions of a worker that starts in `phase` and reads `reads` from the
/// running flag, one read for each action.
pub open spec fn worker_trace(phase: WorkerPhase, reads: Seq<bool>) -> Seq<WorkerAction>
    decreases reads.len(),
{
    if reads.len() == 0 {
        Seq::empty()
    } else {
        seq![worker_step(phase, reads[0]).1] + worker_trace(
            worker_step(phase, reads[0]).0,
            reads.drop_first(),
        )
    }
}

/// The number of workers that a start has to create: none where the flag
/// was set already, one per cluster otherwise.
pub open spec fn workers_to_launch(was_running: bool, cluster_count: u8) -> u8 {
    if was_running {
        0
    } else {
        cluster_count
    }
}

/// One decision of a worker: see `worker_step`.
pub fn next_worker_action(phase: WorkerPhase, running: bool) -> (next: (WorkerPhase, WorkerAction))
    ensures
        next == worker_step(phase, running),
{
    match phase {
        WorkerPhase::Fresh => (WorkerPhase::Looping, WorkerAction::Setup),
        WorkerPhase::Looping => {
            if running {
                (WorkerPhase::Looping, WorkerAction::Update)
            } else {
                (WorkerPhase::Done, WorkerAction::Exit)
            }
        },
        WorkerPhase::Done => (WorkerPhase::Done, WorkerAction::Exit),
    }
}

/// The decision of a start: see `workers_to_launch`.
pub fn launch_count(was_running: bool, cluster_count: u8) -> (count: u8)
    ensures
        count == workers_to_launch(was_running, cluster_count),
{
    if was_running {
        0
    } else {
        cluster_count
    }
}

/// One step of the runtime on its flag: the value to write into the flag
/// and the number of workers to create, given what the flag read and
/// whether the step is a start or a stop. A start sets the flag and asks for
/// `workers_to_launch`; a stop clears the flag and asks for none.
pub fn run_step(was_running: bool, starting: bool, cluster_count: u8) -> (next: (bool, u8))
    ensures
        next == (
            starting,
            if starting {
                workers_to_launch(was_running, cluster_count)
            } else {
                0u8
            },
        ),
{
    if starting {
        (true, launch_count(was_running, cluster_count))
    } else {
        (false, 0)
    }
}

/// What the running flag reads now. Every holder of the flag may have
/// written it, so nothing is known of the answer.
pub fn is_running(run_handle: &Arc<Mutex<bool>>) -> (running: bool) {
    let mut guard = lock_cell(run_handle);
    let flag = guarded(&mut guard);
    *flag
}

/// Setup is the first action of a worker and is never repeated, and no
/// update happens before it or after the exit.
pub proof fn lemma_setup_once_and_first(phase: WorkerPhase, running: bool)
    ensures
        worker_step(phase, running).1 == WorkerAction::Setup <==> phase == WorkerPhase::Fresh,
        worker_step(phase, running).0 != WorkerPhase::Fresh,
        worker_step(phase, running).1 == WorkerAction::Update <==> phase == WorkerPhase::Looping
            && running,
        phase == WorkerPhase::Done ==> worker_step(phase, running) == (
            WorkerPhase::Done,
            WorkerAction::Exit,
        ),
{
}

/// A worker that has left its loop does nothing but leave.
pub proof fn lemma_done_worker_only_exits(reads: Seq<bool>)
    ensures
        worker_trace(WorkerPhase::Done, reads).len() == reads.len(),
        forall|i: int|
            0 <= i < reads.len() ==> worker_trace(WorkerPhase::Done, reads)[i] == WorkerAction::Exit,
    decreases reads.len(),
{
    if reads.len() > 0 {
        lemma_done_worker_only_exits(reads.drop_first());
    }
}

/// A worker in its loop updates once for each read that finds the flag
/// set, up to the first read that finds it cleared, and only leaves from
/// then on.
pub proof fn lemma_looping_worker_updates_while_running(reads: Seq<bool>)
    ensures
        worker_trace(WorkerPhase::Looping, reads).len() == reads.len(),
        forall|i: int|
            0 <= i < reads.len() ==> worker_trace(WorkerPhase::Looping, reads)[i] == (if forall|j: int|
                0 <= j <= i ==> reads[j] {
                WorkerAction::Update
            } else {
                WorkerAction::Exit
            }),
    decreases reads.len(),
{
    if reads.len() > 0 {
        let rest = reads.drop_first();
        let trace = worker_trace(WorkerPhase::Looping, reads);
        if reads[0] {
            lemma_looping_worker_updates_while_running(rest);
            assert forall|i: int| 0 <= i < reads.len() implies (trace[i] == (if forall|j: int|
                0 <= j <= i ==> reads[j] {
                WorkerAction::Update
            } else {
                WorkerAction::Exit
            })) by {
                if i > 0 {
                    assert(trace[i] == worker_trace(WorkerPhase::Looping, rest)[i - 1]);
                    if forall|j: int| 0 <= j <= i - 1 ==> rest[j] {
                        assert forall|j: int| 0 <= j <= i implies reads[j] by {
                            if j > 0 {
                                assert(rest[j - 1] == reads[j]);
                            }
                        }
                    } else {
                        let j = choose|j: int| 0 <= j <= i - 1 && !rest[j];
                        assert(!reads[j + 1]);
                    }
                }
            }
        } else {
            lemma_done_worker_only_exits(rest);
            assert forall|i: int| 0 <= i < reads.len() implies trace[i] == WorkerAction::Exit by {
                if i > 0 {
                    assert(trace[i] == worker_trace(WorkerPhase::Done, rest)[i - 1]);
                }
            }
            assert(!reads[0]);
        }
    }
}

/// The life of a worker: setup first and once, whatever the flag reads,
/// then the updates and the exit of a worker in its loop.
pub proof fn lemma_fresh_worker_sets_up_first(reads: Seq<bool>)
    requires
        reads.len() > 0,
    ensures
        worker_trace(WorkerPhase::Fresh, reads).len() == reads.len(),
        worker_trace(WorkerPhase::Fresh, reads)[0] == WorkerAction::Setup,
        forall|i: int|
            1 <= i < reads.len() ==> worker_trace(WorkerPhase::Fresh, reads)[i] == worker_trace(
                WorkerPhase::Looping,
                reads.drop_first(),
            )[i - 1],
        forall|i: int|
            1 <= i < reads.len() ==> worker_trace(WorkerPhase::Fresh, reads)[i]
                != WorkerAction::Setup,
{
    lemma_looping_worker_updates_while_running(reads.drop_first());
}

/// A start that finds the flag set creates no worker, so that starting
/// twice leaves one worker per cluster; a start after a stop creates them
/// all anew.
pub proof fn lemma_start_is_idempotent(cluster_count: u8)
    ensures
        workers_to_launch(true, cluster_count) == 0,
        workers_to_launch(false, cluster_count) == cluster_count,
{
}

/// The runtime: how many workers there are, how large their arenas, the
/// flag that keeps them running, and the cells that they share.
#[verifier::reject_recursive_types(PoolItem)]
#[verifier::reject_recursive_types(LocalData)]
pub struct ThreadPool<PoolItem, LocalData> where
    PoolItem: Default + Clone + Send + 'static,
    LocalData: Default + Clone + Debug + Send + 'static,
 {
    pub cluster_capacity: u32,
    pub run_handle: Arc<Mutex<bool>>,
    pub cluster_count: u8,
    pub shared: DataManager<LocalData>,
    pub phantom_data: PhantomData<PoolItem>,
}

impl<PoolItem, LocalData> ThreadPool<PoolItem, LocalData> where
    PoolItem: Default + Clone + Send + 'static,
    LocalData: Default + Clone + Debug + Send + 'static,
 {
    /// Whether `other` is this runtime but for what the flag and the cells
    /// hold: the same counts, the same flag, the same cells, the same source
    /// of generations.
    pub open spec fn same_setup(&self, other: &Self) -> bool {
        &&& self.cluster_capacity == other.cluster_capacity
        &&& self.cluster_count == other.cluster_count
        &&& self.run_handle == other.run_handle
        &&& self.shared.cells() == other.shared.cells()
        &&& self.shared.source() == other.shared.source()
    }

    /// A runtime for `cluster_count` workers with arenas of `cluster_size`
    /// slots, one cell per worker, its flag cleared, and no thread yet.
    pub fn new(cluster_count: u8, cluster_size: u32) -> (pool: Self)
        ensures
            pool.cluster_capacity == cluster_size,
            pool.cluster_count == cluster_count,
            pool.shared.cell_count() == cluster_count,
    {
        ThreadPool {
            cluster_capacity: cluster_size,
            run_handle: Arc::new(Mutex::new(false)),
            cluster_count,
            shared: DataManager::new(cluster_count),
            phantom_data: PhantomData,
        }
    }

    /// Sets the flag and says how many workers the caller has to create:
    /// what `run_step` makes of a start on what the flag read before.
    pub fn start(&mut self) -> (workers: u8)
        ensures
            final(self).same_setup(old(self)),
            exists|was_running: bool|
                workers == #[trigger] workers_to_launch(was_running, old(self).cluster_count),
    {
        let mut guard = lock_cell(&self.run_handle);
        let flag = guarded(&mut guard);
        let next = run_step(*flag, true, self.cluster_count);
        *flag = next.0;
        next.1
    }

    /// The cluster of worker `index`: an arena of `cluster_capacity` free
    /// slots, no constructor, and a handle on the cells and on the source of
    /// generations that all workers of this runtime share.
    pub fn worker_cluster<Factory: Fn(&mut PoolItem)>(&self, index: usize) -> (cluster: Cluster<
        PoolItem,
        LocalData,
        Factory,
    >)
        ensures
            cluster.wf(),
            cluster.worker() == index,
            cluster.arena().is_fresh(self.cluster_capacity as nat),
            forall|spawn: crate::pooling::Spawn| !cluster.arena().holds(spawn),
            cluster.tags() == Seq::<Seq<char>>::empty(),
            cluster.constructors() == Seq::<Factory>::empty(),
            cluster.manager().cells() == self.shared.cells(),
            cluster.manager().source() == self.shared.source(),
    {
        Cluster::new(index, self.cluster_capacity, self.shared.clone())
    }

    /// Clears the flag, as `run_step` says of a stop, and waits for no
    /// worker.
    pub fn stop(&mut self)
        ensures
            final(self).same_setup(old(self)),
    {
        let mut guard = lock_cell(&self.run_handle);
        let flag = guarded(&mut guard);
        let next = run_step(*flag, false, self.cluster_count);
        *flag = next.0;
    }
}

} // verus!
