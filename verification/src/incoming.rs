//! The tasks that wait to be taken into the pool, and the counter that numbers them.
use crate::cell::CountedCell;
use crate::error::SpawnFailure;
use crate::pass::{Pass, Root};
use crate::task::Task;
use std::rc::{Rc, Weak};
use vstd::predicate::Predicate;
use vstd::prelude::*;

verus! {

/// What an [`IncomingTracking`] holds.
#[verifier::ext_equal]
pub struct IncomingView<T> {
    /// The waiting tasks, each behind its identifier, in the order of spawning.
    pub queue: Seq<(usize, T)>,
    /// The identifier of the next task.
    pub index: nat,
}

impl<T> IncomingView<T> {
    /// The identifier that the first waiting task has, or that the next one would have.
    pub open spec fn first(self) -> int {
        self.index - self.queue.len()
    }

    /// The waiting tasks are numbered without a gap, and the counter stands behind the last.
    pub open spec fn wf(self) -> bool {
        &&& 0 <= self.first()
        &&& self.index <= usize::MAX
        &&& forall|i: int|
            0 <= i < self.queue.len() ==> (#[trigger] self.queue[i]).0 == self.first() + i
    }

    /// `task` joins the queue under the next identifier.
    pub open spec fn pushed(self, task: T) -> Self {
        IncomingView {
            queue: self.queue.push((self.index as usize, task)),
            index: self.index + 1,
        }
    }

    /// What comes of spawning `task`: it joins the queue, unless no identifier is left.
    pub open spec fn spawned(self, task: T) -> Self {
        if self.index < usize::MAX {
            self.pushed(task)
        } else {
            self
        }
    }

    /// What spawning a task returns: its identifier, unless none is left.
    pub open spec fn spawn_result(self) -> Result<usize, SpawnFailure> {
        if self.index < usize::MAX {
            Ok(self.index as usize)
        } else {
            Err(SpawnFailure::Exhausted)
        }
    }

    /// The queue is emptied; the counter stays.
    pub open spec fn drained(self) -> Self {
        IncomingView { queue: Seq::empty(), index: self.index }
    }

    /// Nothing waits, and `index` is the next identifier.
    pub open spec fn starting_at(index: nat) -> Self {
        IncomingView { queue: Seq::empty(), index }
    }
}

/// Spawned tasks that the pool has not taken yet, and the counter that numbers them.
#[derive(Debug)]
pub struct IncomingTracking<T> {
    queue: Vec<(usize, T)>,
    index: usize,
}

impl<T> View for IncomingTracking<T> {
    type V = IncomingView<T>;

    closed spec fn view(&self) -> IncomingView<T> {
        IncomingView { queue: self.queue@, index: self.index as nat }
    }
}

impl<T> IncomingTracking<T> {
    /// An empty queue whose next task is number `index`.
    pub fn starting_at(index: usize) -> (incoming: Self)
        ensures
            incoming@ == IncomingView::<T>::starting_at(index as nat),
            incoming@.wf(),
            incoming@.queue.len() == 0,
            incoming@.index == index,
    {
        IncomingTracking { queue: Vec::new(), index }
    }

    /// The identifier of the next task.
    pub fn index(&self) -> (index: usize)
        ensures
            index == self@.index,
    {
        self.index
    }

    /// Whether no task waits.
    pub fn is_empty(&self) -> (empty: bool)
        ensures
            empty == (self@.queue.len() == 0),
    {
        self.queue.is_empty()
    }

    /// Queues `task` and returns the identifier that it is known by from now on.
    pub fn push(&mut self, task: T) -> (id: usize)
        requires
            old(self)@.wf(),
            old(self)@.index < usize::MAX,
        ensures
            id == old(self)@.index,
            final(self)@ == old(self)@.pushed(task),
            final(self)@.queue == old(self)@.queue.push((id, task)),
            final(self)@.index == id + 1,
            final(self)@.wf(),
            final(self)@.first() == old(self)@.first(),
    {
        let id: usize = self.index;
        self.index += 1;
        self.queue.push((id, task));
        id
    }

    /// Queues `task` as [`push`](IncomingTracking::push) does, unless no identifier is left.
    pub fn spawn(&mut self, task: T) -> (spawned: Result<usize, SpawnFailure>)
        requires
            old(self)@.wf(),
        ensures
            final(self)@.wf(),
            final(self)@.first() == old(self)@.first(),
            match spawned {
                Ok(id) => {
                    &&& old(self)@.index < usize::MAX
                    &&& id == old(self)@.index
                    &&& final(self)@ == old(self)@.pushed(task)
                    &&& final(self)@.queue == old(self)@.queue.push((id, task))
                    &&& final(self)@.index == id + 1
                },
                Err(error) => {
                    &&& old(self)@.index == usize::MAX
                    &&& error is Exhausted
                    &&& final(self)@ == old(self)@
                },
            },
    {
        if self.index == usize::MAX {
            return Err(SpawnFailure::Exhausted);
        }
        Ok(self.push(task))
    }

    /// Takes every waiting task out, first spawned first.
    pub fn drain(&mut self) -> (tasks: Vec<(usize, T)>)
        ensures
            tasks@ == old(self)@.queue,
            final(self)@ == old(self)@.drained(),
            final(self)@.queue.len() == 0,
            final(self)@.index == old(self)@.index,
    {
        let mut tasks: Vec<(usize, T)> = Vec::new();
        tasks.append(&mut self.queue);
        tasks
    }
}

impl<T> Default for IncomingTracking<T> {
    fn default() -> (incoming: Self)
        ensures
            incoming@ == IncomingView::<T>::starting_at(0),
            incoming@.wf(),
    {
        IncomingTracking::starting_at(0)
    }
}

/// Something that happens to what a pool and its spawners share.
pub enum Change<T> {
    /// A task is spawned.
    Spawn(T),
    /// The pool looks for new tasks.
    Look,
}

/// What a pool and its spawners share, in the course of time: one batch follows the other, and each
/// is numbered from where the one before it ends.
#[verifier::ext_equal]
pub struct Chain<T> {
    /// What the pool has found, look by look.
    pub found: Seq<IncomingView<T>>,
    /// What the batch that is open has collected.
    pub open: IncomingView<T>,
}

/// The tasks in all that was found, first found first.
pub open spec fn handed_out<T>(found: Seq<IncomingView<T>>) -> Seq<(usize, T)>
    decreases found.len(),
{
    if found.len() == 0 {
        Seq::empty()
    } else {
        handed_out(found.drop_last()) + found.last().queue
    }
}

/// What look `i` found is numbered without a gap, from where the looks before it end.
pub open spec fn in_sequence<T>(found: Seq<IncomingView<T>>, i: int) -> bool {
    &&& found[i].wf()
    &&& found[i].first() == handed_out(found.take(i)).len()
}

impl<T> Chain<T> {
    /// What a new pool shares: an empty batch, whose first task will be number 0.
    pub open spec fn start() -> Self {
        Chain { found: Seq::empty(), open: IncomingView::starting_at(0) }
    }

    /// What comes of `change`. A task that is spawned joins the open batch, and a look takes out what
    /// that batch has collected, and opens another behind it.
    pub open spec fn after(self, change: Change<T>) -> Self {
        match change {
            Change::Spawn(task) => Chain { found: self.found, open: self.open.spawned(task) },
            Change::Look => Chain {
                found: self.found.push(self.open),
                open: IncomingView::starting_at(self.open.index),
            },
        }
    }

    /// What comes of `changes`, one after the other, from a new pool on.
    pub open spec fn after_all(changes: Seq<Change<T>>) -> Self
        decreases changes.len(),
    {
        if changes.len() == 0 {
            Chain::start()
        } else {
            Chain::after_all(changes.drop_last()).after(changes.last())
        }
    }

    /// The tasks that `changes` spawn, each behind the identifier that the spawning returns. Where
    /// spawning fails, there is none.
    pub open spec fn issued(changes: Seq<Change<T>>) -> Seq<(usize, T)>
        decreases changes.len(),
    {
        if changes.len() == 0 {
            Seq::empty()
        } else {
            let before = changes.drop_last();
            match changes.last() {
                Change::Spawn(task) => match Chain::after_all(before).open.spawn_result() {
                    Ok(id) => Chain::issued(before).push((id, task)),
                    Err(_) => Chain::issued(before),
                },
                Change::Look => Chain::issued(before),
            }
        }
    }
}

/// Identifiers are unique: however tasks are spawned and looked for, the spawning returns the numbers
/// from 0 on, one after the other, so that no two tasks of a pool have the same.
pub proof fn identifiers_are_unique<T>(changes: Seq<Change<T>>)
    ensures
        Chain::after_all(changes).open.index == Chain::issued(changes).len(),
        forall|i: int|
            0 <= i < Chain::issued(changes).len() ==> (#[trigger] Chain::issued(changes)[i]).0 == i,
        forall|i: int, j: int|
            0 <= i < j < Chain::issued(changes).len() ==> (#[trigger] Chain::issued(changes)[i]).0
                != (#[trigger] Chain::issued(changes)[j]).0,
    decreases changes.len(),
{
    if changes.len() > 0 {
        identifiers_are_unique(changes.drop_last());
        numbering_has_no_gaps(changes.drop_last());
    }
}

/// Every task is handed out once, beside its own identifier and in the order of spawning: what the
/// looks have found, and behind it what the open batch has collected, is what has been spawned.
pub proof fn tasks_are_handed_out_once<T>(changes: Seq<Change<T>>)
    ensures
        handed_out(Chain::after_all(changes).found) + Chain::after_all(changes).open.queue
            == Chain::issued(changes),
    decreases changes.len(),
{
    let after = Chain::after_all(changes);
    if changes.len() > 0 {
        let before = Chain::after_all(changes.drop_last());
        tasks_are_handed_out_once(changes.drop_last());
        match changes.last() {
            Change::Spawn(task) => {
                assert(handed_out(after.found) + after.open.queue =~= Chain::issued(changes));
            },
            Change::Look => {
                assert(after.found.drop_last() =~= before.found);
                assert(handed_out(after.found) + after.open.queue =~= Chain::issued(changes));
            },
        }
    }
}

/// Whatever happens, what is found and what is collected is numbered without a gap, and each batch
/// goes on where the one before it ends.
pub proof fn numbering_has_no_gaps<T>(changes: Seq<Change<T>>)
    ensures
        Chain::after_all(changes).open.wf(),
        Chain::after_all(changes).open.first() == handed_out(
            Chain::after_all(changes).found,
        ).len(),
        forall|i: int|
            0 <= i < Chain::after_all(changes).found.len() ==> #[trigger] in_sequence(
                Chain::after_all(changes).found,
                i,
            ),
    decreases changes.len(),
{
    if changes.len() > 0 {
        let before = Chain::after_all(changes.drop_last());
        let after = Chain::after_all(changes);
        numbering_has_no_gaps(changes.drop_last());
        match changes.last() {
            Change::Spawn(_) => {},
            Change::Look => {
                assert(after.found.drop_last() =~= before.found);
                assert forall|i: int| 0 <= i < after.found.len() implies #[trigger] in_sequence(
                    after.found,
                    i,
                ) by {
                    assert(after.found.take(i) =~= before.found.take(i));
                    if i < before.found.len() {
                        assert(in_sequence(before.found, i));
                    } else {
                        assert(before.found.take(i) =~= before.found);
                    }
                }
            },
        }
    }
}

/// The changes that spawn the tasks in `queue`, one after the other.
spec fn spawning<T>(queue: Seq<(usize, T)>) -> Seq<Change<T>> {
    Seq::new(queue.len(), |i: int| Change::Spawn(queue[i].1))
}

/// Spawning the first `n` tasks of `found` into a batch that has no tasks yet collects just these.
proof fn lemma_spawning<T>(before: Seq<Change<T>>, found: IncomingView<T>, n: int)
    requires
        found.wf(),
        Chain::after_all(before).open == IncomingView::<T>::starting_at(found.first() as nat),
        0 <= n <= found.queue.len(),
    ensures
        ({
            let changes = before + spawning(found.queue.take(n));
            &&& Chain::after_all(changes).found == Chain::after_all(before).found
            &&& Chain::after_all(changes).open.queue == found.queue.take(n)
            &&& Chain::after_all(changes).open.index == found.first() + n
        }),
    decreases n,
{
    let changes = before + spawning(found.queue.take(n));
    if n == 0 {
        assert(changes =~= before);
        assert(found.queue.take(n) =~= Seq::empty());
    } else {
        lemma_spawning(before, found, n - 1);
        let shorter = before + spawning(found.queue.take(n - 1));
        assert(changes.drop_last() =~= shorter);
        assert(changes.last() == Change::Spawn(found.queue[n - 1].1));
        assert(found.queue[n - 1].0 == found.first() + n - 1);
        assert(found.queue.take(n) =~= found.queue.take(n - 1).push(found.queue[n - 1]));
    }
}

/// Whatever a pool finds in sequence is what some changes lead to: they spawn what was found, task by
/// task, and look where it was found. They spawn nothing else.
pub proof fn looks_have_a_history<T>(found: Seq<IncomingView<T>>)
    requires
        forall|i: int| 0 <= i < found.len() ==> #[trigger] in_sequence(found, i),
    ensures
        exists|changes: Seq<Change<T>>|
            (#[trigger] Chain::after_all(changes)).found == found && Chain::issued(changes)
                == handed_out(found) && Chain::after_all(changes).open.queue.len() == 0,
    decreases found.len(),
{
    if found.len() == 0 {
        let changes = Seq::<Change<T>>::empty();
        assert(Chain::after_all(changes).found =~= found);
        assert(Chain::issued(changes) =~= handed_out(found));
    } else {
        let earlier = found.drop_last();
        let last = found.last();
        assert forall|i: int| 0 <= i < earlier.len() implies #[trigger] in_sequence(
            earlier,
            i,
        ) by {
            assert(in_sequence(found, i));
            assert(earlier.take(i) =~= found.take(i));
        }
        looks_have_a_history(earlier);
        let before = choose|changes: Seq<Change<T>>|
            (#[trigger] Chain::after_all(changes)).found == earlier && Chain::issued(changes)
                == handed_out(earlier) && Chain::after_all(changes).open.queue.len() == 0;
        assert(in_sequence(found, found.len() - 1));
        assert(found.take(found.len() - 1) =~= earlier);
        identifiers_are_unique(before);
        assert(Chain::after_all(before).open =~= IncomingView::<T>::starting_at(
            last.first() as nat,
        ));
        lemma_spawning(before, last, last.queue.len() as int);
        assert(last.queue.take(last.queue.len() as int) =~= last.queue);
        let spawned = before + spawning(last.queue);
        let changes = spawned.push(Change::Look);
        assert(changes.drop_last() =~= spawned);
        assert(Chain::after_all(spawned).open =~= last);
        assert(Chain::after_all(changes).found =~= found);
        tasks_are_handed_out_once(changes);
        assert(handed_out(found) + Chain::after_all(changes).open.queue =~= handed_out(found));
    }
}

/// The invariant of a batch: what it collects is numbered from `first` on.
pub struct NumberedFrom {
    pub first: nat,
}

impl Predicate<IncomingTracking<Task>> for NumberedFrom {
    open spec fn predicate(&self, incoming: IncomingTracking<Task>) -> bool {
        &&& incoming@.wf()
        &&& incoming@.first() == self.first
    }
}

/// A cell that collects what is spawned between two visits of the pool.
///
/// Spawners add to the cell while the pool, or a task that the pool is polling, holds it too. The
/// cell's invariant tells the pool what it will find there, whoever added to it: tasks that are
/// numbered from `first` on, without a gap.
///
/// A batch that belongs to a pool hands its tasks over to that pool alone.
pub struct Batch {
    first: usize,
    owned: bool,
    root: Ghost<Option<Root>>,
    cell: Rc<CountedCell<IncomingTracking<Task>, NumberedFrom>>,
}

impl Batch {
    /// The number of the first task that the batch collects.
    pub closed spec fn first(&self) -> nat {
        self.first as nat
    }

    /// The pool that the batch belongs to, if it belongs to one.
    pub closed spec fn root(&self) -> Option<Root> {
        self.root@
    }

    /// The cell's invariant is the one that `first` says, and nothing was in the cell at first.
    pub closed spec fn wf(&self) -> bool {
        &&& self.owned == (self.root@ is Some)
        &&& self.cell.predicate().first == self.first
        &&& exists|empty: IncomingTracking<Task>| #[trigger]
            self.cell.starts_with(empty) && empty@ == IncomingView::<Task>::starting_at(
                self.first(),
            )
    }

    /// The exchange that was counted as number `n` took out what the batch had collected, which was
    /// `incoming`, and left the batch empty.
    pub closed spec fn hands_over_at(&self, incoming: IncomingView<Task>, n: nat) -> bool {
        exists|empty: IncomingTracking<Task>, taken: IncomingTracking<Task>| #[trigger]
            self.cell.exchanges_at(empty, taken, n) && empty@ == IncomingView::<Task>::starting_at(
                self.first(),
            ) && taken@ == incoming
    }

    /// The exchange that was counted as number `n` put `incoming` into the batch.
    pub closed spec fn receives_at(&self, incoming: IncomingView<Task>, n: nat) -> bool {
        exists|put: IncomingTracking<Task>, taken: IncomingTracking<Task>| #[trigger]
            self.cell.exchanges_at(put, taken, n) && put@ == incoming
    }

    /// What the batch has collected is taken out, and is `incoming`; the batch is left empty.
    pub open spec fn hands_over(&self, incoming: IncomingView<Task>) -> bool {
        exists|n: nat| #[trigger] self.hands_over_at(incoming, n)
    }

    /// What the batch has collected can be taken out, and is `incoming`; the batch is left empty. One
    /// who is not the pool that the batch belongs to gets nothing.
    pub open spec fn gives(&self, incoming: IncomingView<Task>) -> bool {
        ||| self.hands_over(incoming)
        ||| self.root() is Some && incoming == IncomingView::<Task>::starting_at(self.first())
    }

    /// `incoming` is put into the batch.
    pub open spec fn receives(&self, incoming: IncomingView<Task>) -> bool {
        exists|n: nat| #[trigger] self.receives_at(incoming, n)
    }

    /// Spawning `task` returns `spawned`: what the batch had collected is taken out, the next
    /// identifier in it decides what is returned, and it is put back with `task` in it.
    pub open spec fn spawns(&self, task: Task, spawned: Result<usize, SpawnFailure>) -> bool {
        exists|collected: IncomingView<Task>| #[trigger]
            self.spawns_behind(collected, task, spawned)
    }

    /// Spawning `task` returns `spawned`, where the batch had collected `collected`.
    pub open spec fn spawns_behind(
        &self,
        collected: IncomingView<Task>,
        task: Task,
        spawned: Result<usize, SpawnFailure>,
    ) -> bool {
        &&& self.hands_over(collected)
        &&& collected.wf()
        &&& collected.first() == self.first()
        &&& spawned == collected.spawn_result()
        &&& self.receives(collected.spawned(task))
    }

    /// The exchange number `n` took `collected` out, and the next put back what the batch holds after
    /// the spawning: all that was there before, in its place, and behind it `task`, under the
    /// identifier that is returned, with the counter one further on. Where no identifier was left,
    /// it is what was there.
    pub open spec fn spawns_at(
        &self,
        collected: IncomingView<Task>,
        task: Task,
        spawned: Result<usize, SpawnFailure>,
        n: nat,
    ) -> bool {
        &&& self.hands_over_at(collected, n)
        &&& collected.wf()
        &&& collected.first() == self.first()
        &&& exists|left: IncomingView<Task>| #[trigger]
            self.receives_at(left, n + 1) && match spawned {
                Ok(id) => {
                    &&& id == collected.index
                    &&& left.queue == collected.queue.push((id, task))
                    &&& left.index == id + 1
                },
                Err(error) => {
                    &&& error is Exhausted
                    &&& collected.index == usize::MAX
                    &&& left == collected
                },
            }
    }

    /// A new batch without tasks, whose first task will be number `first`.
    pub fn open(first: usize) -> (batch: Batch)
        ensures
            batch.wf(),
            batch.first() == first,
            batch.root() is None,
    {
        let incoming = IncomingTracking::starting_at(first);
        let cell = CountedCell::new(incoming, Ghost(NumberedFrom { first: first as nat }));
        Batch { first, owned: false, root: Ghost(None), cell: Rc::new(cell) }
    }

    /// The first batch of a new pool, which will be known by it.
    pub(crate) fn found() -> (batch: Batch)
        ensures
            batch.wf(),
            batch.first() == 0,
            batch.root() is Some,
    {
        let incoming = IncomingTracking::starting_at(0);
        let cell = CountedCell::new(incoming, Ghost(NumberedFrom { first: 0 }));
        let ghost root = cell;
        Batch { first: 0, owned: true, root: Ghost(Some(root)), cell: Rc::new(cell) }
    }

    /// A new batch without tasks for the pool of this one, whose first task will be number `first`.
    pub(crate) fn succeed(&self, first: usize) -> (batch: Batch)
        requires
            self.wf(),
            self.root() is Some,
        ensures
            batch.wf(),
            batch.first() == first,
            batch.root() == self.root(),
    {
        let incoming = IncomingTracking::starting_at(first);
        let cell = CountedCell::new(incoming, Ghost(NumberedFrom { first: first as nat }));
        Batch { first, owned: true, root: Ghost(self.root@), cell: Rc::new(cell) }
    }

    /// Another handle to the same batch.
    pub fn share(&self) -> (batch: Batch)
        ensures
            batch == *self,
    {
        Batch {
            first: self.first,
            owned: self.owned,
            root: Ghost(self.root@),
            cell: self.cell.clone(),
        }
    }

    /// Adds `task` to the batch, as [`IncomingTracking::spawn`] does, in two exchanges. Who holds a
    /// reference to the batch knows its invariant, not what is in it: so the contract says what is
    /// returned and put back for whatever was found.
    pub(crate) fn spawn_with(&self, task: Task, pass: &mut Pass) -> (spawned: Result<
        usize,
        SpawnFailure,
    >)
        requires
            self.wf(),
        ensures
            self.spawns(task, spawned),
            exists|collected: IncomingView<Task>| #[trigger]
                self.spawns_at(collected, task, spawned, old(pass).made()),
            final(pass).made() == old(pass).made() + 2,
            final(pass).home() == old(pass).home(),
            match spawned {
                Ok(id) => self.first() <= id < usize::MAX,
                Err(error) => error is Exhausted,
            },
    {
        let mut incoming = self.cell.exchange(IncomingTracking::starting_at(self.first), pass);
        let ghost collected = incoming@;
        assert(self.hands_over_at(collected, old(pass).made()));
        let spawned = incoming.spawn(task);
        assert(incoming@ == collected.spawned(task));
        let ghost left = incoming@;
        self.cell.exchange(incoming, pass);
        assert(self.receives_at(left, old(pass).made() + 1));
        assert(self.spawns_behind(collected, task, spawned));
        assert(self.spawns_at(collected, task, spawned, old(pass).made()));
        spawned
    }

    /// Takes out what the batch has collected, in one exchange, if it belongs to no pool. If it does,
    /// there is nothing to be had, and no exchange is made.
    pub(crate) fn take_with(&self, pass: &mut Pass) -> (incoming: IncomingTracking<Task>)
        requires
            self.wf(),
        ensures
            self.gives(incoming@),
            incoming@.wf(),
            incoming@.first() == self.first(),
            final(pass).home() == old(pass).home(),
            if self.root() is None {
                &&& self.hands_over_at(incoming@, old(pass).made())
                &&& final(pass).made() == old(pass).made() + 1
            } else {
                final(pass).made() == old(pass).made()
            },
    {
        if self.owned {
            return IncomingTracking::starting_at(self.first);
        }
        let incoming = self.cell.exchange(IncomingTracking::starting_at(self.first), pass);
        assert(self.hands_over_at(incoming@, old(pass).made()));
        incoming
    }

    /// Takes out what the batch has collected, in one exchange, for the pool that it belongs to.
    pub(crate) fn hand_over(&self, pass: &mut Pass) -> (incoming: IncomingTracking<Task>)
        requires
            self.wf(),
            self.root() is Some,
            self.root() == old(pass).home(),
        ensures
            self.hands_over_at(incoming@, old(pass).made()),
            incoming@.wf(),
            incoming@.first() == self.first(),
            final(pass).made() == old(pass).made() + 1,
            final(pass).home() == old(pass).home(),
    {
        self.cell.exchange(IncomingTracking::starting_at(self.first), pass)
    }
}

/// The invariant of [`Incoming`]: the batch in it is well-formed.
pub struct OpenBatch;

impl Predicate<Batch> for OpenBatch {
    open spec fn predicate(&self, batch: Batch) -> bool {
        batch.wf()
    }
}

/// What a pool shares with its spawners: the batch that is open now.
///
/// Where it belongs to a pool, only that pool decides which batch this is. What others install is put
/// aside and not used.
pub struct Incoming {
    owned: bool,
    root: Ghost<Option<Root>>,
    open: CountedCell<Batch, OpenBatch>,
    aside: CountedCell<Batch, OpenBatch>,
}

impl Incoming {
    /// What belongs to a pool is marked so.
    #[verifier::type_invariant]
    spec fn marked(self) -> bool {
        self.owned == (self.root@ is Some)
    }

    /// The pool that this belongs to, if it belongs to one.
    pub closed spec fn root(&self) -> Option<Root> {
        self.root@
    }

    /// The batch that was shared first is `batch`.
    pub closed spec fn starts_with(&self, batch: Batch) -> bool {
        self.open.starts_with(batch)
    }

    /// The exchange that was counted as number `n` shared `batch` in place of the batch that was open.
    pub closed spec fn installs_at(&self, batch: Batch, n: nat) -> bool {
        exists|replaced: Batch| #[trigger] self.open.exchanges_at(batch, replaced, n)
    }

    /// `batch` is shared in place of the batch that was open, or, where others decide on that, is put
    /// aside.
    pub closed spec fn receives(&self, batch: Batch) -> bool {
        ||| exists|n: nat| #[trigger] self.installs_at(batch, n)
        ||| exists|replaced: Batch| #[trigger] self.aside.exchanges(batch, replaced)
    }

    /// `batch` has been shared: from the beginning, or in place of another.
    pub open spec fn opened(&self, batch: Batch) -> bool {
        self.starts_with(batch) || exists|n: nat| #[trigger] self.installs_at(batch, n)
    }

    /// The exchange number `n` found `batch` to be the one that is open, and the next left it open.
    pub closed spec fn shows_at(&self, batch: Batch, n: nat) -> bool {
        &&& exists|spare: Batch| #[trigger] self.open.exchanges_at(spare, batch, n)
        &&& exists|spare: Batch| #[trigger] self.open.exchanges_at(batch, spare, n + 1)
    }

    /// A look at the batch that is open finds `batch`, and leaves it open.
    pub open spec fn shows(&self, batch: Batch) -> bool {
        exists|n: nat| #[trigger] self.shows_at(batch, n)
    }

    /// Spawning `task` returns `spawned`: what the batch that is open returns for it.
    pub open spec fn spawns(&self, task: Task, spawned: Result<usize, SpawnFailure>) -> bool {
        exists|batch: Batch| #[trigger] self.shows(batch) && batch.spawns(task, spawned)
    }

    /// Spawning `task` returns `spawned`. Of the exchanges from number `n` on, the first two look up
    /// the batch that is open and leave it so, and the next two spawn `task` into it.
    pub open spec fn spawns_at(
        &self,
        task: Task,
        spawned: Result<usize, SpawnFailure>,
        n: nat,
    ) -> bool {
        exists|batch: Batch, collected: IncomingView<Task>| #[trigger]
            self.shows_at(batch, n) && #[trigger] batch.spawns_at(collected, task, spawned, n + 2)
    }

    /// Shares `batch`.
    pub fn new(batch: Batch) -> (incoming: Incoming)
        requires
            batch.wf(),
        ensures
            incoming.starts_with(batch),
            incoming.root() is None,
    {
        let aside = CountedCell::new(batch.share(), Ghost(OpenBatch));
        let open = CountedCell::new(batch, Ghost(OpenBatch));
        Incoming { owned: false, root: Ghost(None), open, aside }
    }

    /// Shares `batch`, for the pool that it belongs to.
    pub(crate) fn of_pool(batch: Batch) -> (incoming: Incoming)
        requires
            batch.wf(),
            batch.root() is Some,
        ensures
            incoming.starts_with(batch),
            incoming.root() == batch.root(),
    {
        let ghost root = batch.root();
        let aside = CountedCell::new(batch.share(), Ghost(OpenBatch));
        let open = CountedCell::new(batch, Ghost(OpenBatch));
        Incoming { owned: true, root: Ghost(root), open, aside }
    }

    /// Adds `task` to the batch that is open, in four exchanges.
    pub(crate) fn spawn_with(&self, task: Task, pass: &mut Pass) -> (spawned: Result<
        usize,
        SpawnFailure,
    >)
        ensures
            self.spawns(task, spawned),
            self.spawns_at(task, spawned, old(pass).made()),
            final(pass).made() == old(pass).made() + 4,
            final(pass).home() == old(pass).home(),
            match spawned {
                Ok(id) => id < usize::MAX,
                Err(error) => error is Exhausted,
            },
    {
        let batch = self.current(pass);
        assert(self.shows(batch));
        batch.spawn_with(task, pass)
    }

    /// Another handle to the batch that is open.
    fn current(&self, pass: &mut Pass) -> (batch: Batch)
        ensures
            batch.wf(),
            self.shows_at(batch, old(pass).made()),
            final(pass).made() == old(pass).made() + 2,
            final(pass).home() == old(pass).home(),
    {
        let batch = self.open.exchange(Batch::open(0), pass);
        self.open.exchange(batch.share(), pass);
        batch
    }

    /// Shares `batch` in place of the batch that was open, in one exchange. What belongs to a pool
    /// puts it aside.
    pub(crate) fn install_with(&self, batch: Batch, pass: &mut Pass)
        requires
            batch.wf(),
        ensures
            self.receives(batch),
            self.root() is None ==> self.installs_at(batch, old(pass).made()),
            final(pass).made() == old(pass).made() + 1,
            final(pass).home() == old(pass).home(),
    {
        proof {
            use_type_invariant(self);
        }
        let ghost number = pass.made();
        if self.owned {
            let replaced = self.aside.exchange(batch, pass);
            assert(self.aside.exchanges(batch, replaced));
        } else {
            self.open.exchange(batch, pass);
            assert(self.installs_at(batch, number));
        }
    }

    /// Shares `batch` in place of the batch that was open, in one exchange, for the pool that this
    /// belongs to.
    pub(crate) fn succeed(&self, batch: Batch, pass: &mut Pass)
        requires
            batch.wf(),
            self.root() is Some,
            self.root() == batch.root(),
            self.root() == old(pass).home(),
        ensures
            self.installs_at(batch, old(pass).made()),
            self.receives(batch),
            final(pass).made() == old(pass).made() + 1,
            final(pass).home() == old(pass).home(),
    {
        let ghost number = pass.made();
        self.open.exchange(batch, pass);
        assert(self.installs_at(batch, number));
    }
}

/// A call that a pool or one of its spawners makes on what they share.
pub enum Call {
    /// A task is spawned ([`Incoming::spawn`]).
    Spawn {
        /// The batch that is open.
        batch: Batch,
        /// What that batch has collected.
        collected: IncomingView<Task>,
        /// The task.
        task: Task,
        /// What is returned.
        spawned: Result<usize, SpawnFailure>,
    },
    /// The pool looks for new tasks.
    Look {
        /// The batch that is open.
        batch: Batch,
        /// What is found there.
        found: IncomingView<Task>,
        /// The batch that is open afterwards.
        next: Batch,
    },
}

impl Call {
    /// The call does what the functions promise that it does, on what `queue` shares.
    pub open spec fn made_on(self, queue: Incoming) -> bool {
        match self {
            Call::Spawn { batch, collected, task, spawned } => {
                &&& queue.shows(batch)
                &&& batch.spawns_behind(collected, task, spawned)
            },
            Call::Look { batch, found, next } => {
                &&& batch.hands_over(found)
                &&& found.wf()
                &&& found.first() == batch.first()
                &&& queue.opened(next)
                &&& next.wf()
                &&& next.first() == found.index
            },
        }
    }

    /// The batch that the call goes to.
    pub open spec fn batch(self) -> Batch {
        match self {
            Call::Spawn { batch, .. } => batch,
            Call::Look { batch, .. } => batch,
        }
    }

    /// What the call finds there.
    pub open spec fn finds(self) -> IncomingView<Task> {
        match self {
            Call::Spawn { collected, .. } => collected,
            Call::Look { found, .. } => found,
        }
    }

    /// The batch that is open after the call.
    pub open spec fn next(self) -> Batch {
        match self {
            Call::Spawn { batch, .. } => batch,
            Call::Look { next, .. } => next,
        }
    }

    /// What is in that batch after the call: what a spawning puts back, or nothing, in a batch that
    /// has been emptied or is new.
    pub open spec fn leaves(self) -> IncomingView<Task> {
        match self {
            Call::Spawn { collected, task, .. } => collected.spawned(task),
            Call::Look { next, .. } => IncomingView::starting_at(next.first()),
        }
    }

    /// The change that the call is.
    pub open spec fn change(self) -> Change<Task> {
        match self {
            Call::Spawn { task, .. } => Change::Spawn(task),
            Call::Look { .. } => Change::Look,
        }
    }
}

/// Call `i` goes to the batch that the call before it left open, and finds there what that call left.
/// The first call finds a batch without tasks, which is numbered from 0 on.
pub open spec fn in_turn(calls: Seq<Call>, i: int) -> bool {
    if i == 0 {
        calls[i].finds() == IncomingView::<Task>::starting_at(0)
    } else {
        &&& calls[i].batch() == calls[i - 1].next()
        &&& calls[i].finds() == calls[i - 1].leaves()
    }
}

/// The changes that `calls` are.
pub open spec fn changes_of(calls: Seq<Call>) -> Seq<Change<Task>> {
    calls.map_values(|call: Call| call.change())
}

/// What the looks among `calls` find, look by look.
pub open spec fn found_by(calls: Seq<Call>) -> Seq<IncomingView<Task>>
    decreases calls.len(),
{
    if calls.len() == 0 {
        Seq::empty()
    } else {
        match calls.last() {
            Call::Spawn { .. } => found_by(calls.drop_last()),
            Call::Look { found, .. } => found_by(calls.drop_last()).push(found),
        }
    }
}

/// How many of `calls` spawn a task.
pub open spec fn spawn_count(calls: Seq<Call>) -> nat
    decreases calls.len(),
{
    if calls.len() == 0 {
        0
    } else {
        spawn_count(calls.drop_last()) + if calls.last() is Spawn {
            1nat
        } else {
            0nat
        }
    }
}

/// Calls that are made one after the other, on cells that keep what is put into them, are changes of
/// the chain of batches: each finds what the changes before it have collected, and the looks among
/// them find what the pool finds there.
pub proof fn calls_are_changes(queue: Incoming, calls: Seq<Call>, n: int)
    requires
        forall|i: int| 0 <= i < calls.len() ==> (#[trigger] calls[i]).made_on(queue),
        forall|i: int| 0 <= i < calls.len() ==> #[trigger] in_turn(calls, i),
        0 <= n <= calls.len(),
    ensures
        0 < n ==> Chain::after_all(changes_of(calls.take(n))).open == calls[n - 1].leaves(),
        n < calls.len() ==> Chain::after_all(changes_of(calls.take(n))).open == calls[n].finds(),
        Chain::after_all(changes_of(calls.take(n))).found == found_by(calls.take(n)),
    decreases n,
{
    let changes = changes_of(calls.take(n));
    if n < calls.len() {
        assert(in_turn(calls, n));
    }
    if n == 0 {
        assert(changes =~= Seq::empty());
        assert(calls.take(n) =~= Seq::empty());
    } else {
        assert(calls.take(n).drop_last() =~= calls.take(n - 1));
        assert(calls.take(n).last() == calls[n - 1]);
        calls_are_changes(queue, calls, n - 1);
        assert(changes.drop_last() =~= changes_of(calls.take(n - 1)));
        assert(changes.last() == calls[n - 1].change());
        assert(calls[n - 1].made_on(queue));
    }
}

/// The calls that spawn a task on a pool count up: however they alternate with the looks of the pool,
/// the `i`-th of them, from 0 on, succeeds with the identifier `i`, as long as fewer than
/// `usize::MAX` came before it.
pub proof fn spawning_counts_up(queue: Incoming, calls: Seq<Call>, n: int)
    requires
        forall|i: int| 0 <= i < calls.len() ==> (#[trigger] calls[i]).made_on(queue),
        forall|i: int| 0 <= i < calls.len() ==> #[trigger] in_turn(calls, i),
        0 <= n < calls.len(),
        spawn_count(calls.take(n)) < usize::MAX,
    ensures
        calls[n].finds().index == spawn_count(calls.take(n)),
        calls[n] matches Call::Spawn { spawned, .. } ==> spawned == Ok::<usize, SpawnFailure>(
            spawn_count(calls.take(n)) as usize,
        ),
    decreases n,
{
    assert(in_turn(calls, n));
    assert(calls[n].made_on(queue));
    if n == 0 {
        assert(calls.take(n) =~= Seq::empty());
    } else {
        assert(calls.take(n).drop_last() =~= calls.take(n - 1));
        assert(calls.take(n).last() == calls[n - 1]);
        spawning_counts_up(queue, calls, n - 1);
        assert(calls[n - 1].made_on(queue));
    }
}

/// No two calls that spawn a task on a pool return the same identifier.
pub proof fn spawned_identifiers_differ(queue: Incoming, calls: Seq<Call>, m: int, n: int)
    requires
        forall|i: int| 0 <= i < calls.len() ==> (#[trigger] calls[i]).made_on(queue),
        forall|i: int| 0 <= i < calls.len() ==> #[trigger] in_turn(calls, i),
        0 <= m < n < calls.len(),
    ensures
        calls[m] matches Call::Spawn { spawned: Ok(first), .. } ==> calls[n] matches Call::Spawn {
            spawned: Ok(second),
            ..
        } ==> first < second,
{
    lemma_index_grows(queue, calls, m, n);
    assert(calls[m].made_on(queue));
    assert(calls[n].made_on(queue));
}

/// The next identifier never gets lower, and a spawning that succeeds raises it.
proof fn lemma_index_grows(queue: Incoming, calls: Seq<Call>, m: int, n: int)
    requires
        forall|i: int| 0 <= i < calls.len() ==> (#[trigger] calls[i]).made_on(queue),
        forall|i: int| 0 <= i < calls.len() ==> #[trigger] in_turn(calls, i),
        0 <= m < n < calls.len(),
    ensures
        calls[m].leaves().index <= calls[n].finds().index,
    decreases n,
{
    assert(in_turn(calls, n));
    if m < n - 1 {
        lemma_index_grows(queue, calls, m, n - 1);
        assert(calls[n - 1].made_on(queue));
    }
}

/// What a spawning leaves in a batch is all that was there, in its place, and behind it the task, under
/// the identifier that is returned. The put back is the last of the two exchanges that a spawning is.
pub proof fn spawning_leaves_the_task_behind(
    batch: &Batch,
    task: Task,
    spawned: Result<usize, SpawnFailure>,
)
    requires
        batch.wf(),
        call_ensures(Batch::spawn, (batch, task), spawned),
    ensures
        exists|collected: IncomingView<Task>, left: IncomingView<Task>|
            {
                &&& #[trigger] batch.hands_over_at(collected, 0)
                &&& #[trigger] batch.receives_at(left, 1)
                &&& collected.wf()
                &&& collected.first() == batch.first()
                &&& spawned matches Ok(id) ==> {
                    &&& id == collected.index
                    &&& left.index == id + 1
                    &&& left.queue.len() == collected.queue.len() + 1
                    &&& left.queue.last() == (id, task)
                    &&& forall|i: int|
                        0 <= i < collected.queue.len() ==> #[trigger] left.queue[i]
                            == collected.queue[i]
                }
                &&& spawned is Err ==> collected.index == usize::MAX && left == collected
            },
{
    let collected = choose|collected: IncomingView<Task>| #[trigger]
        batch.spawns_at(collected, task, spawned, 0);
    assert(batch.hands_over_at(collected, 0));
    let left = choose|left: IncomingView<Task>| #[trigger]
        batch.receives_at(left, 1) && match spawned {
            Ok(id) => {
                &&& id == collected.index
                &&& left.queue == collected.queue.push((id, task))
                &&& left.index == id + 1
            },
            Err(error) => {
                &&& error is Exhausted
                &&& collected.index == usize::MAX
                &&& left == collected
            },
        };
    assert(batch.receives_at(left, 1));
}

/// A spawned task is found: where a spawning returned an identifier, the next look finds its task, under
/// that identifier and no other.
pub proof fn spawned_tasks_are_found(queue: Incoming, calls: Seq<Call>, m: int, n: int)
    requires
        forall|i: int| 0 <= i < calls.len() ==> (#[trigger] calls[i]).made_on(queue),
        forall|i: int| 0 <= i < calls.len() ==> #[trigger] in_turn(calls, i),
        0 <= m < n < calls.len(),
        forall|i: int| m <= i < n ==> (#[trigger] calls[i]) is Spawn,
    ensures
        calls[m] matches Call::Spawn { task, spawned: Ok(id), .. } ==> {
            &&& calls[n].finds().queue.contains((id, task))
            &&& forall|k: int|
                0 <= k < calls[n].finds().queue.len() ==> ((#[trigger] calls[n].finds().queue[k]).0
                    == id <==> calls[n].finds().queue[k] == (id, task))
        },
    decreases n,
{
    assert(calls[m] is Spawn);
    assert(calls[m].made_on(queue));
    assert(calls[n].made_on(queue));
    assert(in_turn(calls, n));
    if let Call::Spawn { collected, task, spawned: Ok(id), .. } = calls[m] {
        if m == n - 1 {
            let k = collected.queue.len() as int;
            assert(calls[n].finds().queue[k] == (id, task));
        } else {
            spawned_tasks_are_found(queue, calls, m, n - 1);
            assert(calls[n - 1] is Spawn);
            assert(calls[n - 1].made_on(queue));
            let before = calls[n - 1].finds().queue;
            let k = choose|k: int| 0 <= k < before.len() && before[k] == (id, task);
            assert(calls[n].finds().queue[k] == (id, task));
        }
    }
}

/// A reference to an [`Incoming`] that does not keep it alive: a `std::rc::Weak`.
///
/// `Weak` has an allocator among its parameters, and Verus takes no declaration of it without one.
/// So it is held here, where Verus does not look.
#[verifier::external_body]
#[derive(Debug)]
pub struct IncomingRef {
    weak: Weak<Incoming>,
}

/// The [`Incoming`] that a reference was made for.
pub uninterp spec fn referred(reference: IncomingRef) -> Incoming;

impl IncomingRef {
    /// `Rc::downgrade`: the reference is to what `incoming` points to.
    #[verifier::external_body]
    pub(crate) fn downgrade(incoming: &Rc<Incoming>) -> (reference: IncomingRef)
        ensures
            referred(reference) == **incoming,
    {
        IncomingRef { weak: Rc::downgrade(incoming) }
    }

    /// `Weak::upgrade`: if anything, what the reference was made for. Whether there is anything
    /// depends on whether some `Rc` to it is left, and nothing is said of that.
    #[verifier::external_body]
    pub(crate) fn upgrade(&self) -> (incoming: Option<Rc<Incoming>>)
        ensures
            incoming matches Some(incoming) ==> *incoming == referred(*self),
    {
        self.weak.upgrade()
    }

    /// `Weak::clone`: the copy is to the same [`Incoming`].
    #[verifier::external_body]
    pub(crate) fn share(&self) -> (reference: IncomingRef)
        ensures
            referred(reference) == referred(*self),
    {
        IncomingRef { weak: Weak::clone(&self.weak) }
    }
}

} // verus!
