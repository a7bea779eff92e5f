//! Visits to what is shared, each with a pass of its own.
use crate::error::SpawnFailure;
use crate::incoming::{Batch, Incoming, IncomingTracking, IncomingView};
use crate::pass::Pass;
use crate::task::Task;
use vstd::prelude::*;

verus! {

/// What it takes to get a pass for a visit. It is made here only.
pub struct VisitKey {
    key: (),
}

impl Batch {
    /// Adds `task` to the batch, as [`IncomingTracking::spawn`] does. Who holds a reference to the
    /// batch knows its invariant, not what is in it: so the contract says what is returned and put
    /// back for whatever was found, and not that the task is there when the batch is taken.
    pub fn spawn(&self, task: Task) -> (spawned: Result<usize, SpawnFailure>)
        requires
            self.wf(),
        ensures
            self.spawns(task, spawned),
            exists|collected: IncomingView<Task>| #[trigger]
                self.spawns_at(collected, task, spawned, 0),
            match spawned {
                Ok(id) => self.first() <= id < usize::MAX,
                Err(error) => error is Exhausted,
            },
    {
        let mut pass = Pass::for_visit(&VisitKey { key: () });
        self.spawn_with(task, &mut pass)
    }

    /// Takes out what the batch has collected. A batch that belongs to a pool has nothing to give to
    /// others.
    pub fn take(&self) -> (incoming: IncomingTracking<Task>)
        requires
            self.wf(),
        ensures
            self.gives(incoming@),
            self.root() is None ==> self.hands_over_at(incoming@, 0),
            incoming@.wf(),
            incoming@.first() == self.first(),
    {
        let mut pass = Pass::for_visit(&VisitKey { key: () });
        self.take_with(&mut pass)
    }
}

impl Incoming {
    /// Adds `task` to the batch that is open.
    pub fn spawn(&self, task: Task) -> (spawned: Result<usize, SpawnFailure>)
        ensures
            self.spawns(task, spawned),
            self.spawns_at(task, spawned, 0),
            match spawned {
                Ok(id) => id < usize::MAX,
                Err(error) => error is Exhausted,
            },
    {
        let mut pass = Pass::for_visit(&VisitKey { key: () });
        self.spawn_with(task, &mut pass)
    }

    /// Shares `batch` in place of the batch that was open. What belongs to a pool puts it aside.
    pub fn install(&self, batch: Batch)
        requires
            batch.wf(),
        ensures
            self.receives(batch),
            self.root() is None ==> self.installs_at(batch, 0),
    {
        let mut pass = Pass::for_visit(&VisitKey { key: () });
        self.install_with(batch, &mut pass)
    }
}

} // verus!
