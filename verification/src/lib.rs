//! A runtime of per-worker clusters: each worker owns a fixed-capacity arena
//! of items behind generation-checked handles, and all workers share a table
//! of cells, one per worker, each behind its own lock.

pub mod clusters;
pub mod model;
pub mod pooling;
pub mod runtime;
pub mod shared;

pub use clusters::Cluster;
pub use model::{ArenaOp, ArenaView};
pub use pooling::{Generations, ItemRef, ObjectPool, Spawn};
pub use runtime::ThreadPool;
pub use shared::{DataCell, DataManager};
