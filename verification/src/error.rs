//! Why a task was not spawned.
use vstd::prelude::*;

verus! {

/// An error that occurred during spawning.
#[derive(Clone, Copy, Debug, PartialEq, Eq, Structural)]
pub enum SpawnFailure {
    /// The pool is gone.
    Shutdown,
    /// Every identifier has been handed out.
    Exhausted,
}

impl SpawnFailure {
    /// Whether spawning failed because the pool is gone.
    pub fn is_shutdown(&self) -> (shutdown: bool)
        ensures
            shutdown == (*self is Shutdown),
    {
        match self {
            SpawnFailure::Shutdown => true,
            SpawnFailure::Exhausted => false,
        }
    }
}

} // verus!
