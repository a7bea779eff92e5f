//! The pool's end of what it shares with its spawners.
use crate::incoming::{handed_out, in_sequence, Batch, Incoming, IncomingTracking, IncomingView};
use crate::pass::{establish, Pass, Root};
use crate::pool::found_in;
use crate::spawner::LocalSpawner;
use crate::task::Task;
use std::rc::Rc;
use vstd::prelude::*;

verus! {

/// What it takes to establish a pool's end. It is made here only.
pub struct EndKey {
    key: (),
}

/// How many exchanges a pool's end makes in looks that find `found`: one for each look, and another
/// for each that finds tasks, to open the next batch.
pub open spec fn exchanges_for(found: Seq<IncomingView<Task>>) -> nat
    decreases found.len(),
{
    if found.len() == 0 {
        0
    } else {
        exchanges_for(found.drop_last()) + if found.last().queue.len() == 0 {
            1nat
        } else {
            2nat
        }
    }
}

/// What a pool's end has done.
#[verifier::ext_equal]
pub struct EndView {
    /// The pool that the end belongs to.
    pub root: Option<Root>,
    /// What is shared with the spawners.
    pub queue: Incoming,
    /// The batch that collects what is spawned now.
    pub batch: Batch,
    /// The batches that have been looked into, look by look.
    pub searched: Seq<Batch>,
    /// What has been found there, look by look.
    pub found: Seq<IncomingView<Task>>,
    /// How many exchanges have been made on the cells that are shared.
    pub exchanges: nat,
}

impl EndView {
    /// The batch that look `i` goes to.
    pub open spec fn batch_at(self, i: int) -> Batch {
        if i < self.searched.len() {
            self.searched[i]
        } else {
            self.batch
        }
    }

    /// The number of the exchange that look `i` begins with.
    pub open spec fn number_of(self, i: int) -> nat {
        exchanges_for(self.found.take(i))
    }

    /// Look `i` took over what its batch had collected, in the exchange with its number. Where that was
    /// nothing, the batch stays open. Else the very next exchange shared the batch that the next look
    /// goes to.
    pub open spec fn sound_look(self, i: int) -> bool {
        &&& found_in(self.queue, self.searched[i], self.found[i])
        &&& in_sequence(self.found, i)
        &&& self.searched[i].root() == self.root
        &&& self.searched[i].hands_over_at(self.found[i], self.number_of(i))
        &&& if self.found[i].queue.len() == 0 {
            self.batch_at(i + 1) == self.searched[i]
        } else {
            self.queue.installs_at(self.batch_at(i + 1), self.number_of(i) + 1)
        }
    }

    /// All that has been done on the shared cells is what the looks have done. The first look goes to
    /// the batch that was shared first, and the batch that the next look goes to is numbered from
    /// where the looks so far end.
    pub open spec fn wf(self) -> bool {
        &&& self.root is Some
        &&& self.queue.root() == self.root
        &&& self.queue.starts_with(self.batch_at(0))
        &&& self.queue.opened(self.batch)
        &&& self.batch.wf()
        &&& self.batch.root() == self.root
        &&& self.batch.first() == handed_out(self.found).len()
        &&& self.searched.len() == self.found.len()
        &&& self.exchanges == exchanges_for(self.found)
        &&& forall|i: int| 0 <= i < self.found.len() ==> #[trigger] self.sound_look(i)
    }
}

/// The pool's end of what it shares with its spawners. There is one for each pool, and all that the
/// pool does to what is shared goes through it.
pub struct PoolEnd {
    incoming: Rc<Incoming>,
    batch: Batch,
    pass: Pass,
    searched: Ghost<Seq<Batch>>,
    found: Ghost<Seq<IncomingView<Task>>>,
}

impl View for PoolEnd {
    type V = EndView;

    closed spec fn view(&self) -> EndView {
        EndView {
            root: self.pass.home(),
            queue: *self.incoming,
            batch: self.batch,
            searched: self.searched@,
            found: self.found@,
            exchanges: self.pass.made(),
        }
    }
}

impl PoolEnd {
    /// The end of a new pool.
    pub(crate) fn new() -> (end: PoolEnd)
        ensures
            end@.wf(),
            end@.queue.starts_with(end@.batch),
            end@.batch.first() == 0,
            end@.searched == Seq::<Batch>::empty(),
            end@.found == Seq::<IncomingView<Task>>::empty(),
            end@.exchanges == 0,
    {
        let (incoming, batch, pass) = establish(&EndKey { key: () });
        PoolEnd {
            incoming,
            batch,
            pass,
            searched: Ghost(Seq::empty()),
            found: Ghost(Seq::empty()),
        }
    }

    /// A handle for spawning onto the pool.
    pub(crate) fn spawner(&self) -> (spawner: LocalSpawner)
        ensures
            spawner.queue() == self@.queue,
    {
        LocalSpawner::new(&self.incoming)
    }

    /// Takes over what has been spawned since the last look. Where that is anything, another batch goes
    /// on from there.
    pub(crate) fn look(&mut self) -> (incoming: IncomingTracking<Task>)
        requires
            old(self)@.wf(),
        ensures
            final(self)@.wf(),
            final(self)@ == (EndView {
                batch: final(self)@.batch,
                searched: old(self)@.searched.push(old(self)@.batch),
                found: old(self)@.found.push(incoming@),
                exchanges: final(self)@.exchanges,
                ..old(self)@
            }),
            incoming@.queue.len() == 0 ==> final(self)@.batch == old(self)@.batch,
            incoming@.wf(),
            incoming@.first() == old(self)@.batch.first(),
            final(self)@.batch.first() == incoming@.index,
    {
        let incoming = self.batch.hand_over(&mut self.pass);
        self.searched = Ghost(self.searched@.push(self.batch));
        self.found = Ghost(self.found@.push(incoming@));
        if !incoming.is_empty() {
            let next = self.batch.succeed(incoming.index());
            self.batch = next.share();
            self.incoming.succeed(next, &mut self.pass);
        }
        proof {
            let before = old(self)@;
            let after = self@;
            let found = incoming@;
            assert(after.found.drop_last() =~= before.found);
            assert forall|i: int| 0 <= i < after.found.len() implies #[trigger] after.sound_look(
                i,
            ) by {
                assert(after.found.take(i) =~= before.found.take(i));
                if i < before.found.len() {
                    assert(before.sound_look(i));
                    assert(after.batch_at(i + 1) == before.batch_at(i + 1));
                } else {
                    assert(before.found.take(i) =~= before.found);
                    assert(before.batch.hands_over(found));
                }
            }
            assert(after.batch_at(0) == before.batch_at(0));
        }
        incoming
    }
}

} // verus!
