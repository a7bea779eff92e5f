//! A single-threaded executor for futures, which gives each task that it runs an identifier and
//! reports which task has completed.
//!
//! Tasks are spawned with a [`LocalSpawner`], which returns the identifier, and run with a
//! [`LocalPool`]. What the pool promises is stated over a [`PoolView`](pool::PoolView): which tasks
//! it has seen, which of them wait, run or have completed, and what its polls have given.
pub mod cell;
pub mod end;
pub mod error;
pub mod executor;
pub mod incoming;
pub mod pass;
pub mod pool;
pub mod spawner;
pub mod task;
pub mod visit;

pub use error::SpawnFailure;
pub use pool::LocalPool;
pub use spawner::{
    LocalSpawnWithId, LocalSpawnWithIdExt, LocalSpawner, SpawnWithId, SpawnWithIdExt,
};
