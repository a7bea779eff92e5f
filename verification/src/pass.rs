//! The right to exchange what shared cells hold.
//!
//! What a shared cell holds at a given time is known to nobody. What somebody does to it is: every
//! exchange takes a [`Pass`], which counts it. Where a function says by how much the count of its
//! pass has grown, it has made so many exchanges and no more.
use crate::cell::CountedCell;
use crate::end::EndKey;
use crate::incoming::{Batch, Incoming, IncomingTracking, NumberedFrom};
use crate::task::Task;
use crate::visit::VisitKey;
use std::rc::Rc;
use vstd::prelude::*;

verus! {

/// The cell of a pool's first batch, by which the pool is told from others.
pub type Root = CountedCell<IncomingTracking<Task>, NumberedFrom>;

/// The right to exchange what shared cells hold, and the count of the exchanges made with it. There is
/// no copying it.
pub struct Pass {
    made: Ghost<nat>,
    home: Ghost<Option<Root>>,
}

impl Pass {
    /// How many exchanges have been made with the pass.
    pub closed spec fn made(&self) -> nat {
        self.made@
    }

    /// The pool that the pass belongs to, if it is a pool's.
    pub closed spec fn home(&self) -> Option<Root> {
        self.home@
    }

    /// A pass for a single visit, which belongs to no pool.
    pub(crate) fn for_visit(_key: &VisitKey) -> (pass: Pass)
        ensures
            pass.made() == 0,
            pass.home() is None,
    {
        Pass { made: Ghost(0), home: Ghost(None) }
    }

    /// Counts an exchange.
    pub(crate) fn count(&mut self)
        ensures
            final(self).made() == old(self).made() + 1,
            final(self).home() == old(self).home(),
    {
        self.made = Ghost(self.made@ + 1);
    }
}

/// What a new pool and its spawners share, the batch that is open in it, and the pool's pass, the one
/// that there will ever be for this pool.
pub(crate) fn establish(_key: &EndKey) -> (parts: (Rc<Incoming>, Batch, Pass))
    ensures
        parts.0.starts_with(parts.1),
        parts.0.root() == parts.1.root(),
        parts.1.wf(),
        parts.1.first() == 0,
        parts.1.root() is Some,
        parts.2.made() == 0,
        parts.2.home() == parts.1.root(),
{
    let batch = Batch::found();
    let incoming = Incoming::of_pool(batch.share());
    let pass = Pass { made: Ghost(0), home: Ghost(batch.root()) };
    (Rc::new(incoming), batch, pass)
}

} // verus!
