//! The pool of tasks.
use crate::end::{exchanges_for, EndView, PoolEnd};
use crate::executor::{flag_means_asked, no_wakeup_is_lost, Step, Wakeups};
use crate::incoming::{
    handed_out, identifiers_are_unique, in_sequence, looks_have_a_history, tasks_are_handed_out_once,
    Batch, Call, Chain, Change, Incoming, IncomingTracking, IncomingView,
};
use crate::pass::Root;
use crate::spawner::LocalSpawner;
use crate::task::{
    enter_task, is_empty, new_set, poll_once, poll_set, polling, pushes, pushing, reporting, task_ids, unused, IndexWrapper, Task, TaskSet,
};
use std::future::Future;
use std::task::{Context, Poll};
use vstd::multiset::Multiset;
use vstd::prelude::*;

verus! {

/// A poll of the set of tasks.
pub struct Turn {
    /// How many tasks the pool had seen.
    pub seen: nat,
    /// How often the pool had looked for new tasks.
    pub looks: nat,
    /// The set that was polled.
    pub set: TaskSet,
    /// What the poll gave.
    pub polled: Poll<Option<usize>>,
}

impl Turn {
    /// Whether the poll completed a task.
    pub open spec fn completes(self) -> bool {
        self.polled matches Poll::Ready(Some(_))
    }

    /// The set was polled with `cx`, and gave what the turn says.
    pub open spec fn taken_with(self, cx: Context<'_>) -> bool {
        exists|s: &mut TaskSet| #[trigger] reporting(s, cx, self.polled) && *s == self.set
    }

    /// The set was polled, and gave what the turn says.
    pub open spec fn taken(self) -> bool {
        exists|cx: Context<'_>| #[trigger] self.taken_with(cx)
    }

    /// The set held, once each, the tasks that the pool had seen, but for those in `completed`, and no
    /// others. Of these is the task that completed, if one did, and there was none of them if the
    /// poll said so. Where the poll was pending, the pool had seen a task.
    pub open spec fn covers(self, completed: Seq<usize>) -> bool {
        &&& forall|id: usize| #[trigger]
            task_ids(self.set).count(id) == if id < self.seen && !completed.contains(id) {
                1nat
            } else {
                0nat
            }
        &&& match self.polled {
            Poll::Ready(Some(id)) => task_ids(self.set).contains(id),
            Poll::Ready(None) => task_ids(self.set).len() == 0,
            Poll::Pending => self.seen > 0,
        }
    }
}

/// The identifiers of the tasks that `turns` completed, first completed first.
pub open spec fn completed_ids(turns: Seq<Turn>) -> Seq<usize>
    decreases turns.len(),
{
    if turns.len() == 0 {
        Seq::empty()
    } else {
        match turns.last().polled {
            Poll::Ready(Some(id)) => completed_ids(turns.drop_last()).push(id),
            _ => completed_ids(turns.drop_last()),
        }
    }
}

/// Turn `i` was a poll of the set, and the set held every task that had been found by then and had
/// not completed. The pool had looked for new tasks since the turn before.
pub open spec fn sound_turn(turns: Seq<Turn>, found: Seq<IncomingView<Task>>, i: int) -> bool {
    &&& turns[i].taken()
    &&& turns[i].covers(completed_ids(turns.take(i)))
    &&& 0 < turns[i].looks <= found.len()
    &&& 0 < i ==> turns[i - 1].looks < turns[i].looks
    &&& turns[i].seen == handed_out(found.take(turns[i].looks as int)).len()
}

/// A look into `batch`, which was shared through `queue`, found `found` there.
pub open spec fn found_in(queue: Incoming, batch: Batch, found: IncomingView<Task>) -> bool {
    &&& queue.opened(batch)
    &&& batch.wf()
    &&& batch.hands_over(found)
    &&& found.first() == batch.first()
}

/// What is done to the set of tasks.
pub enum Deed {
    /// A task enters, under the identifier that stands before it.
    Enter((usize, Task)),
    /// The set is polled.
    Poll(Turn),
}

/// Something that was done to the set of tasks.
pub struct SetStep {
    /// The set as it was before.
    pub before: TaskSet,
    /// What was done.
    pub deed: Deed,
    /// The set as it was afterwards.
    pub after: TaskSet,
}

impl SetStep {
    /// The step is a call: `set` is the reference that it was made with. Where it is a poll, it was
    /// made with `cx`.
    pub open spec fn made_with(self, set: &mut TaskSet, cx: Context<'_>) -> bool {
        &&& *set == self.before
        &&& match self.deed {
            Deed::Enter((index, data)) => pushing(set, IndexWrapper { data, index }),
            Deed::Poll(turn) => reporting(set, cx, turn.polled),
        }
    }

    /// The step was a call with the set as it was before.
    pub open spec fn made(self) -> bool {
        match self.deed {
            Deed::Enter((index, data)) => pushes(self.before, IndexWrapper { data, index }),
            Deed::Poll(turn) => turn.set == self.before && turn.taken(),
        }
    }
}

/// Step `i` was made, on the set that the step before it left. The first was made on a new set.
pub open spec fn sound_step(steps: Seq<SetStep>, i: int) -> bool {
    &&& steps[i].made()
    &&& if i == 0 {
        unused(steps[i].before)
    } else {
        steps[i].before == steps[i - 1].after
    }
}

/// The tasks that entered the set in `steps`, each behind its identifier, first entered first.
pub open spec fn entrants(steps: Seq<SetStep>) -> Seq<(usize, Task)>
    decreases steps.len(),
{
    if steps.len() == 0 {
        Seq::empty()
    } else {
        match steps.last().deed {
            Deed::Enter(pair) => entrants(steps.drop_last()).push(pair),
            Deed::Poll(_) => entrants(steps.drop_last()),
        }
    }
}

/// The polls of the set in `steps`.
pub open spec fn polls_among(steps: Seq<SetStep>) -> Seq<Turn>
    decreases steps.len(),
{
    if steps.len() == 0 {
        Seq::empty()
    } else {
        match steps.last().deed {
            Deed::Enter(_) => polls_among(steps.drop_last()),
            Deed::Poll(turn) => polls_among(steps.drop_last()).push(turn),
        }
    }
}

/// Turn `i` completed a task, or new tasks were found before the next turn.
pub open spec fn made_progress(turns: Seq<Turn>, i: int) -> bool {
    turns[i].completes() || turns[i].seen < turns[i + 1].seen
}

/// Turn `i` completed no task, but new tasks were found before the next turn.
pub open spec fn found_tasks_only(turns: Seq<Turn>, i: int) -> bool {
    !turns[i].completes() && turns[i].seen < turns[i + 1].seen
}

/// What a [`LocalPool`] knows of its tasks.
#[verifier::ext_equal]
pub struct PoolView {
    /// The set that is polled.
    pub set: TaskSet,
    /// All that has been done to the set.
    pub steps: Seq<SetStep>,
    /// The tasks that have not entered the set yet, each behind its identifier.
    pub waiting: Seq<(usize, Task)>,
    /// What the pool shares with its spawners.
    pub queue: Incoming,
    /// The batch that collects what is spawned now.
    pub batch: Batch,
    /// How many tasks the pool has seen. Their identifiers are the numbers below this one.
    pub seen: nat,
    /// The batches that the pool has looked into, look by look.
    pub searched: Seq<Batch>,
    /// What the pool has found there, look by look.
    pub found: Seq<IncomingView<Task>>,
    /// By what the pool is told from others.
    pub root: Option<Root>,
    /// How many exchanges the pool has made on the cells that it shares.
    pub exchanges: nat,
    /// Every poll of the set.
    pub turns: Seq<Turn>,
}

impl PoolView {
    /// A pool that has not looked for a task.
    pub open spec fn empty(set: TaskSet, queue: Incoming, batch: Batch) -> PoolView {
        PoolView {
            root: batch.root(),
            exchanges: 0,
            set,
            steps: Seq::empty(),
            waiting: Seq::empty(),
            queue,
            batch,
            seen: 0,
            searched: Seq::empty(),
            found: Seq::empty(),
            turns: Seq::empty(),
        }
    }

    /// What the pool's end has done.
    pub open spec fn end(self) -> EndView {
        EndView {
            root: self.root,
            queue: self.queue,
            batch: self.batch,
            searched: self.searched,
            found: self.found,
            exchanges: self.exchanges,
        }
    }

    /// The tasks in the set that is polled.
    pub open spec fn running(self) -> Multiset<usize> {
        task_ids(self.set)
    }

    /// The tasks that the pool has seen, each behind its identifier.
    pub open spec fn arrivals(self) -> Seq<(usize, Task)> {
        handed_out(self.found)
    }

    /// How many tasks have entered the set. Their identifiers are the numbers below this one.
    pub open spec fn started(self) -> int {
        self.seen - self.waiting.len()
    }

    /// The tasks that have completed, first completed first.
    pub open spec fn completed(self) -> Seq<usize> {
        completed_ids(self.turns)
    }

    /// Whether the pool has looked for new tasks since the last poll.
    pub open spec fn looked(self) -> bool {
        if self.turns.len() == 0 {
            self.found.len() > 0
        } else {
            self.turns.last().looks < self.found.len()
        }
    }

    /// How often a task occurs among those that are running and those that have completed.
    pub open spec fn tally(self, id: usize) -> nat {
        self.running().count(id) + self.completed().to_multiset().count(id)
    }

    /// The tasks below `started`, and no others, are running or have completed, never both, and once.
    pub open spec fn accounts_for(self, started: int) -> bool {
        forall|id: usize| #[trigger]
            self.tally(id) == if id < started {
                1nat
            } else {
                0nat
            }
    }

    /// What has been done to the set is that the tasks below `started` have been put into it, each
    /// once and under its own identifier, and that it has been polled in every turn, and nothing
    /// else.
    pub open spec fn accounts_for_set(self, started: int) -> bool {
        &&& entrants(self.steps) == self.arrivals().take(started)
        &&& polls_among(self.steps) == self.turns
        &&& self.steps.len() == started + self.turns.len()
        &&& forall|i: int| 0 <= i < self.steps.len() ==> #[trigger] sound_step(self.steps, i)
        &&& self.steps.len() > 0 ==> self.steps.last().after == self.set
        &&& started == 0 ==> unused(self.set)
    }

    /// What the pool has seen is what it has found in the batches that it shared, and each task has
    /// the identifier that is its place among them. Spawners have been given the batch that is the
    /// next to be looked into, and it goes on with the next identifier.
    pub open spec fn collects(self) -> bool {
        &&& self.end().wf()
        &&& self.queue.opened(self.batch)
        &&& self.batch.wf()
        &&& self.batch.first() == self.seen
        &&& self.searched.len() == self.found.len()
        &&& forall|i: int|
            0 <= i < self.found.len() ==> #[trigger] found_in(
                self.queue,
                self.searched[i],
                self.found[i],
            )
        &&& forall|i: int| 0 <= i < self.found.len() ==> #[trigger] in_sequence(self.found, i)
        &&& self.arrivals().len() == self.seen
        &&& forall|k: int| 0 <= k < self.seen ==> (#[trigger] self.arrivals()[k]).0 == k
    }

    /// Every turn of the pool was a poll of all the tasks that it had then.
    pub open spec fn took_turns(self) -> bool {
        forall|i: int| 0 <= i < self.turns.len() ==> #[trigger] sound_turn(self.turns, self.found, i)
    }

    /// A task that has entered the set is running or has completed, never both, and once. The others
    /// wait, in the order of their identifiers.
    pub open spec fn wf(self) -> bool {
        &&& 0 <= self.started()
        &&& self.seen <= usize::MAX
        &&& self.collects()
        &&& self.waiting == self.arrivals().skip(self.started())
        &&& self.accounts_for_set(self.started())
        &&& self.accounts_for(self.started())
        &&& self.started() == self.running().len() + self.completed().len()
        &&& self.took_turns()
    }

    /// The set has been polled since `before`, and nothing from before is forgotten.
    pub open spec fn driven_from(self, before: PoolView) -> bool {
        &&& self.queue == before.queue
        &&& self.root == before.root
        &&& before.exchanges < self.exchanges
        &&& before.found.len() < self.found.len()
        &&& self.searched[before.found.len() as int] == before.batch
        &&& before.seen <= self.seen
        &&& before.steps.len() < self.steps.len()
        &&& before.steps.is_prefix_of(self.steps)
        &&& self.steps[before.steps.len() as int].before == before.set
        &&& before.searched.is_prefix_of(self.searched)
        &&& before.found.is_prefix_of(self.found)
        &&& before.turns.len() < self.turns.len()
        &&& before.turns.is_prefix_of(self.turns)
    }

    /// Step `i` has been made since `before`.
    pub open spec fn took_since(self, before: PoolView, i: int) -> bool {
        before.steps.len() <= i < self.steps.len()
    }

    /// Each turn since `before` polled the set with `cx`.
    pub open spec fn polled_with(self, before: PoolView, cx: Context<'_>) -> bool {
        forall|i: int|
            before.turns.len() <= i < self.turns.len() ==> (#[trigger] self.turns[i]).taken_with(cx)
    }

    /// Each turn since `before`, but for the last, completed a task or was followed by new tasks.
    pub open spec fn kept_going_since(self, before: PoolView) -> bool {
        forall|i: int|
            before.turns.len() <= i < self.turns.len() - 1 ==> #[trigger] made_progress(
                self.turns,
                i,
            )
    }

    /// Each turn since `before`, but for the last, completed no task and was followed by new tasks.
    pub open spec fn held_out_since(self, before: PoolView) -> bool {
        forall|i: int|
            before.turns.len() <= i < self.turns.len() - 1 ==> #[trigger] found_tasks_only(
                self.turns,
                i,
            )
    }

    /// Every task that the pool has seen has completed.
    pub open spec fn exhausted(self) -> bool {
        &&& self.running().len() == 0
        &&& self.waiting.len() == 0
        &&& self.completed().len() == self.seen
        &&& forall|id: usize| id < self.seen ==> #[trigger] self.completed().contains(id)
    }

    /// The last turn completed no task, and a look since then found no new one. Where the turn found
    /// the set empty, it still is.
    pub open spec fn paused(self) -> bool {
        &&& self.looked()
        &&& self.found.last().queue.len() == 0
        &&& self.waiting.len() == 0
        &&& self.turns.len() > 0
        &&& self.turns.last().seen == self.seen
        &&& match self.turns.last().polled {
            Poll::Ready(Some(_)) => false,
            Poll::Ready(None) => self.running().len() == 0,
            Poll::Pending => self.seen > 0,
        }
    }
}

/// A single-threaded task pool for polling futures to completion.
///
/// This executor allows you to multiplex any number of tasks onto a single thread. It's appropriate
/// to poll strictly I/O-bound futures that do very little work in between I/O actions.
///
/// To get a handle to the pool that implements [`Spawn`](futures::task::Spawn), use the
/// [`spawner()`](LocalPool::spawner) method. Because the executor is single-threaded, it supports a
/// special form of task spawning for non-`Send` futures, via
/// [`spawn_local_obj`](futures::task::LocalSpawn::spawn_local_obj).
///
/// The pool does not block: each of its methods takes one turn, and the caller takes the next once
/// the waker of the context has been called (see [`executor`](crate::executor)).
pub struct LocalPool {
    pool: TaskSet,
    waiting: Vec<(usize, Task)>,
    end: PoolEnd,
    steps: Ghost<Seq<SetStep>>,
    turns: Ghost<Seq<Turn>>,
}

impl View for LocalPool {
    type V = PoolView;

    closed spec fn view(&self) -> PoolView {
        PoolView {
            set: self.pool,
            steps: self.steps@,
            waiting: self.waiting@,
            queue: self.end@.queue,
            batch: self.end@.batch,
            seen: self.end@.batch.first(),
            searched: self.end@.searched,
            found: self.end@.found,
            root: self.end@.root,
            exchanges: self.end@.exchanges,
            turns: self.turns@,
        }
    }
}

impl LocalPool {
    /// What the pool shares with its spawners.
    pub open spec fn queue(&self) -> Incoming {
        self@.queue
    }

    /// Holds of every pool.
    pub open spec fn wf(&self) -> bool {
        self@.wf()
    }

    /// Create a new, empty pool of tasks.
    pub fn new() -> (pool: LocalPool)
        ensures
            pool.wf(),
            pool@ == PoolView::empty(pool@.set, pool@.queue, pool@.batch),
            pool@.queue.starts_with(pool@.batch),
    {
        let pool = LocalPool {
            pool: new_set(),
            waiting: Vec::new(),
            end: PoolEnd::new(),
            steps: Ghost(Seq::empty()),
            turns: Ghost(Seq::empty()),
        };
        proof {
            broadcast use vstd::seq_lib::group_to_multiset_ensures;

            assert(pool@.completed() =~= Seq::<usize>::empty());
            assert(pool@.waiting =~= pool@.arrivals().skip(0));
            assert(pool@.arrivals().take(0) =~= Seq::empty());
        }
        pool
    }

    /// Get a clonable handle to the pool as a [`Spawn`](futures::task::Spawn).
    pub fn spawner(&self) -> (spawner: LocalSpawner)
        ensures
            spawner.queue() == self.queue(),
    {
        self.end.spawner()
    }

    /// Moves what has been spawned since the last visit behind the waiting tasks.
    fn gather(&mut self)
        requires
            old(self).wf(),
        ensures
            final(self).wf(),
            final(self)@.set == old(self)@.set,
            final(self)@.steps == old(self)@.steps,
            final(self)@.queue == old(self)@.queue,
            final(self)@.root == old(self)@.root,
            final(self)@.exchanges > old(self)@.exchanges,
            final(self)@.turns == old(self)@.turns,
            final(self)@.searched == old(self)@.searched.push(old(self)@.batch),
            final(self)@.found == old(self)@.found.push(final(self)@.found.last()),
            final(self)@.waiting == old(self)@.waiting + final(self)@.found.last().queue,
            final(self)@.seen == final(self)@.found.last().index,
            final(self)@.looked(),
    {
        let ghost before = self@;
        let incoming = self.end.look();
        self.take_in(incoming);
        proof {
            lemma_looked(before, self@);
        }
    }

    /// What [`gather`](LocalPool::gather) does with what it finds in the batch: the tasks in
    /// `incoming` join those that wait, in their order.
    fn take_in(&mut self, incoming: IncomingTracking<Task>)
        requires
            old(self)@.seen == incoming@.index,
        ensures
            final(self)@.seen == incoming@.index,
            final(self)@ == (PoolView {
                waiting: old(self)@.waiting + incoming@.queue,
                ..old(self)@
            }),
    {
        let mut incoming = incoming;
        let mut tasks = incoming.drain();
        self.waiting.append(&mut tasks);
    }

    /// Puts the waiting tasks into the set, in the order in which they were spawned.
    fn start(&mut self, cx: Ghost<Context<'_>>)
        requires
            old(self).wf(),
        ensures
            final(self).wf(),
            final(self)@ == (PoolView {
                set: final(self)@.set,
                steps: final(self)@.steps,
                waiting: Seq::empty(),
                ..old(self)@
            }),
            old(self)@.steps.is_prefix_of(final(self)@.steps),
            if old(self)@.waiting.len() == 0 {
                final(self)@.set == old(self)@.set
            } else {
                final(self)@.steps[old(self)@.steps.len() as int].before == old(self)@.set
            },
            forall|i: int| #[trigger]
                final(self)@.took_since(old(self)@, i) ==> exists|s: &mut TaskSet| #[trigger]
                    final(self)@.steps[i].made_with(s, cx@) && *final(s)
                        == final(self)@.steps[i].after,
            final(self)@.running().len() == old(self)@.running().len() + old(self)@.waiting.len(),
    {
        let ghost before = self@;
        let mut tasks: Vec<(usize, Task)> = Vec::new();
        tasks.append(&mut self.waiting);
        assert forall|id: usize| #[trigger] self@.tally(id) == before.tally(id) by {}
        for (key, task) in iter: tasks
            invariant
                before.wf(),
                iter.seq() == before.waiting,
                self@ == (PoolView {
                    set: self@.set,
                    steps: self@.steps,
                    waiting: Seq::empty(),
                    ..before
                }),
                before.steps.is_prefix_of(self@.steps),
                if iter.index() == 0 {
                    self@.set == before.set
                } else {
                    self@.steps[before.steps.len() as int].before == before.set
                },
                forall|i: int| #[trigger]
                    self@.took_since(before, i) ==> exists|s: &mut TaskSet| #[trigger]
                        self@.steps[i].made_with(s, cx@) && *final(s) == self@.steps[i].after,
                self@.accounts_for(before.started() + iter.index()),
                self@.accounts_for_set(before.started() + iter.index()),
                self@.running().len() == before.running().len() + iter.index(),
        {
            let ghost previous = self@;
            let ghost place = before.started() + iter.index();
            enter_task(&mut self.pool, task, key);
            let ghost step = SetStep {
                before: previous.set,
                deed: Deed::Enter((key, task)),
                after: self.pool,
            };
            self.steps = Ghost(self.steps@.push(step));
            proof {
                assert forall|s: &mut TaskSet| #[trigger]
                    pushing(s, IndexWrapper { data: task, index: key }) && *s
                        == previous.set implies step.made_with(s, cx@) by {}
                assert((key, task) == before.waiting[iter.index()]);
                assert((key, task) == before.arrivals()[place]);
                lemma_stepped(previous, self@, step);
                assert forall|i: int| #[trigger] self@.took_since(before, i) implies exists|
                    s: &mut TaskSet,
                | #[trigger]
                    self@.steps[i].made_with(s, cx@) && *final(s) == self@.steps[i].after by {
                    if i < previous.steps.len() {
                        assert(previous.took_since(before, i));
                        assert(self@.steps[i] == previous.steps[i]);
                    }
                }
                assert(self@.arrivals().take(place + 1) =~= previous.arrivals().take(place).push(
                    (key, task),
                ));
                assert forall|id: usize| #[trigger]
                    self@.tally(id) == previous.tally(id) + if id == key {
                        1nat
                    } else {
                        0nat
                    } by {}
            }
        }
        assert(self@.waiting =~= self@.arrivals().skip(self@.started()));
    }

    /// Try to make minimal progress on the pool of spawned tasks: takes in what has been spawned and
    /// polls the set of tasks once. The identifier of the task that completed comes out, if one did.
    pub fn poll_pool_once(&mut self, cx: &mut Context<'_>) -> (polled: Poll<Option<usize>>)
        requires
            old(self).wf(),
        ensures
            final(self).wf(),
            final(self).queue() == old(self).queue(),
            *final(cx) == *old(cx),
            final(self)@.searched == old(self)@.searched.push(old(self)@.batch),
            final(self)@.found == old(self)@.found.push(final(self)@.found.last()),
            (Call::Look {
                batch: old(self)@.batch,
                found: final(self)@.found.last(),
                next: final(self)@.batch,
            }).made_on(old(self).queue()),
            final(self)@.seen == final(self)@.found.last().index,
            final(self)@.arrivals() == old(self)@.arrivals() + final(self)@.found.last().queue,
            final(self)@.driven_from(old(self)@),
            final(self)@.steps.last().deed == Deed::Poll(final(self)@.turns.last()),
            forall|i: int| #[trigger]
                final(self)@.took_since(old(self)@, i) ==> exists|s: &mut TaskSet| #[trigger]
                    final(self)@.steps[i].made_with(s, *old(cx)) && *final(s)
                        == final(self)@.steps[i].after,
            final(self)@.turns == old(self)@.turns.push(final(self)@.turns.last()),
            final(self)@.turns.last().taken_with(*old(cx)),
            final(self)@.turns.last().seen == final(self)@.seen,
            final(self)@.turns.last().looks == final(self)@.found.len(),
            final(self)@.turns.last().polled == polled,
            final(self)@.waiting.len() == 0,
            final(self)@.seen >= old(self)@.seen,
            final(self)@.running().len() + (if polled matches Poll::Ready(Some(_)) {
                1nat
            } else {
                0nat
            }) == old(self)@.running().len() + old(self)@.waiting.len() + (final(self)@.seen - old(
                self,
            )@.seen),
            match polled {
                Poll::Ready(Some(id)) => {
                    &&& id < final(self)@.seen
                    &&& !old(self)@.completed().contains(id)
                    &&& final(self)@.completed() == old(self)@.completed().push(id)
                },
                Poll::Ready(None) => {
                    &&& final(self)@.running().len() == 0
                    &&& final(self)@.completed() == old(self)@.completed()
                },
                Poll::Pending => {
                    &&& final(self)@.seen > 0
                    &&& final(self)@.completed() == old(self)@.completed()
                },
            },
    {
        // empty the incoming queue of newly-spawned tasks
        self.gather();
        assert(self@.found.drop_last() =~= old(self)@.found);
        proof {
            let look = self@.found.len() - 1;
            assert(self@.end().sound_look(look));
            assert(self@.searched[look].hands_over(self@.found[look]));
            assert(found_in(self@.queue, self@.searched[look], self@.found[look]));
            assert(in_sequence(self@.found, look));
        }
        let ghost gathered = self@;
        self.start(Ghost(*cx));
        // try to execute the next ready future
        let ghost before = self@;
        let polled = poll_set(&mut self.pool, cx);
        let ghost turn = Turn {
            seen: before.seen,
            looks: before.found.len(),
            set: before.set,
            polled,
        };
        let ghost step = SetStep { before: before.set, deed: Deed::Poll(turn), after: self.pool };
        self.turns = Ghost(self.turns@.push(turn));
        self.steps = Ghost(self.steps@.push(step));
        proof {
            assert forall|s: &mut TaskSet| #[trigger]
                reporting(s, *old(cx), polled) && *s == before.set implies step.made_with(
                s,
                *old(cx),
            ) by {}
            assert(turn.taken_with(*old(cx)));
            lemma_stepped(before, self@, step);
            lemma_polled(before, self@, turn);
            assert forall|i: int| #[trigger] self@.took_since(old(self)@, i) implies exists|
                s: &mut TaskSet,
            | #[trigger]
                self@.steps[i].made_with(s, *old(cx)) && *final(s) == self@.steps[i].after by {
                if i < before.steps.len() {
                    assert(before.took_since(gathered, i));
                    assert(self@.steps[i] == before.steps[i]);
                }
            }
        }
        polled
    }

    /// Make maximal progress on the entire pool of spawned tasks, returning `Ready` if the pool is
    /// empty and `Pending` if no further progress can be made before the waker of `cx` is called. It
    /// may have been called already: a task that wakes itself while it is polled is not polled on and
    /// on, but left for the next turn.
    pub fn poll_pool(&mut self, cx: &mut Context<'_>) -> (polled: Poll<()>)
        requires
            old(self).wf(),
        ensures
            final(self).wf(),
            final(self).queue() == old(self).queue(),
            *final(cx) == *old(cx),
            final(self)@.driven_from(old(self)@),
            final(self)@.polled_with(old(self)@, *old(cx)),
            forall|i: int| #[trigger]
                final(self)@.took_since(old(self)@, i) ==> exists|s: &mut TaskSet| #[trigger]
                    final(self)@.steps[i].made_with(s, *old(cx)) && *final(s)
                        == final(self)@.steps[i].after,
            final(self)@.kept_going_since(old(self)@),
            final(self)@.paused(),
            match polled {
                Poll::Ready(_) => final(self)@.exhausted(),
                Poll::Pending => {
                    &&& final(self)@.turns.last().polled is Pending
                    &&& final(self)@.running().len() > 0
                },
            },
    {
        loop
            invariant
                self.wf(),
                self.queue() == old(self).queue(),
                *cx == *old(cx),
                self@.seen >= old(self)@.seen,
                old(self)@.steps.is_prefix_of(self@.steps),
                self@.root == old(self)@.root,
                if old(self)@.turns.len() == self@.turns.len() {
                    self@ == old(self)@
                } else {
                    &&& old(self)@.steps.len() < self@.steps.len()
                    &&& self@.steps[old(self)@.steps.len() as int].before == old(self)@.set
                    &&& old(self)@.exchanges < self@.exchanges
                    &&& old(self)@.found.len() < self@.found.len()
                    &&& self@.searched[old(self)@.found.len() as int] == old(self)@.batch
                },
                forall|i: int| #[trigger]
                    self@.took_since(old(self)@, i) ==> exists|s: &mut TaskSet| #[trigger]
                        self@.steps[i].made_with(s, *old(cx)) && *final(s) == self@.steps[i].after,
                old(self)@.searched.is_prefix_of(self@.searched),
                old(self)@.found.is_prefix_of(self@.found),
                old(self)@.turns.is_prefix_of(self@.turns),
                self@.polled_with(old(self)@, *old(cx)),
                self@.kept_going_since(old(self)@),
                old(self)@.turns.len() < self@.turns.len() ==> self@.turns.last().completes()
                    || self@.turns.last().seen < self@.seen,
            decreases usize::MAX - self@.seen, self@.running().len() + self@.waiting.len(),
        {
            let ghost before = self@;
            let polled = self.poll_pool_once(cx);
            let ghost now = self@;
            proof {
                lemma_another_turn(old(self)@, before, now, now.turns.last());
                assert forall|i: int| #[trigger] now.took_since(old(self)@, i) implies exists|
                    s: &mut TaskSet,
                | #[trigger]
                    now.steps[i].made_with(s, *old(cx)) && *final(s) == now.steps[i].after by {
                    if i < before.steps.len() {
                        assert(before.took_since(old(self)@, i));
                        assert(now.steps[i] == before.steps[i]);
                    } else {
                        assert(now.took_since(before, i));
                    }
                }
            }
            // we queued up some new tasks; add them and poll again
            self.gather();
            assert forall|i: int| #[trigger] self@.took_since(old(self)@, i) implies exists|
                s: &mut TaskSet,
            | #[trigger]
                self@.steps[i].made_with(s, *old(cx)) && *final(s) == self@.steps[i].after by {
                assert(now.took_since(old(self)@, i));
            }
            if !self.waiting.is_empty() {
                continue;
            }
            // no queued tasks; we may be done
            if let Poll::Ready(Some(_)) = polled {
                continue;
            }
            // the set may be pending without a task, while one that has completed is being woken
            if !is_empty(&self.pool) {
                return Poll::Pending;
            }
            proof {
                nothing_is_left(self@);
            }
            return Poll::Ready(());
        }
    }

    /// Takes a turn at running all tasks in the pool to completion. `Ready` says that *all* tasks are
    /// complete, including any spawned while running existing tasks; after `Pending`, another turn
    /// is due once the waker of `cx` has been called.
    pub fn run(&mut self, cx: &mut Context<'_>) -> (polled: Poll<()>)
        requires
            old(self).wf(),
        ensures
            final(self).wf(),
            final(self).queue() == old(self).queue(),
            *final(cx) == *old(cx),
            final(self)@.driven_from(old(self)@),
            final(self)@.polled_with(old(self)@, *old(cx)),
            forall|i: int| #[trigger]
                final(self)@.took_since(old(self)@, i) ==> exists|s: &mut TaskSet| #[trigger]
                    final(self)@.steps[i].made_with(s, *old(cx)) && *final(s)
                        == final(self)@.steps[i].after,
            final(self)@.kept_going_since(old(self)@),
            final(self)@.paused(),
            match polled {
                Poll::Ready(_) => final(self)@.exhausted(),
                Poll::Pending => {
                    &&& final(self)@.turns.last().polled is Pending
                    &&& final(self)@.running().len() > 0
                },
            },
    {
        self.poll_pool(cx)
    }

    /// Takes a turn at running the tasks in the pool until the given future completes. `Ready` brings
    /// the future's output; after `Pending`, another turn is due once the waker of `cx` has been
    /// called.
    ///
    /// There may still be incomplete tasks in the pool when the future completes. They will be inert,
    /// but can continue with further use of one of the pool's run or poll methods. As long as the
    /// future does not complete, however, all tasks in the pool will try to make progress.
    pub fn run_until<F: Future + Unpin>(&mut self, future: &mut F, cx: &mut Context<'_>) -> (polled:
        Poll<F::Output>)
        requires
            old(self).wf(),
        ensures
            exists|f: &mut F, c: &mut Context<'_>|
                {
                    &&& #[trigger] polling(f, c, polled)
                    &&& *f == *old(future)
                    &&& *final(f) == *final(future)
                    &&& *c == *old(cx)
                    &&& *final(c) == *final(cx)
                },
            final(self).wf(),
            final(self).queue() == old(self).queue(),
            match polled {
                Poll::Ready(_) => final(self)@ == old(self)@,
                Poll::Pending => {
                    &&& final(self)@.driven_from(old(self)@)
                    &&& final(self)@.polled_with(old(self)@, *final(cx))
                    &&& forall|i: int| #[trigger]
                final(self)@.took_since(old(self)@, i) ==> exists|s: &mut TaskSet| #[trigger]
                    final(self)@.steps[i].made_with(s, *final(cx)) && *final(s)
                        == final(self)@.steps[i].after
                    &&& final(self)@.kept_going_since(old(self)@)
                    &&& final(self)@.paused()
                },
            },
    {
        let polled = poll_once(future, cx);
        self.run_until_polled(polled, cx)
    }

    /// What [`run_until`](LocalPool::run_until) does once it has polled the given future, with the
    /// outcome `polled`.
    pub fn run_until_polled<T>(&mut self, polled: Poll<T>, cx: &mut Context<'_>) -> (result: Poll<T>)
        requires
            old(self).wf(),
        ensures
            result == polled,
            final(self).wf(),
            final(self).queue() == old(self).queue(),
            *final(cx) == *old(cx),
            match polled {
                Poll::Ready(_) => final(self)@ == old(self)@,
                Poll::Pending => {
                    &&& final(self)@.driven_from(old(self)@)
                    &&& final(self)@.polled_with(old(self)@, *old(cx))
                    &&& forall|i: int| #[trigger]
                final(self)@.took_since(old(self)@, i) ==> exists|s: &mut TaskSet| #[trigger]
                    final(self)@.steps[i].made_with(s, *old(cx)) && *final(s)
                        == final(self)@.steps[i].after
                    &&& final(self)@.kept_going_since(old(self)@)
                    &&& final(self)@.paused()
                },
            },
    {
        // if our main task is done, so are we
        if let Poll::Ready(output) = polled {
            return Poll::Ready(output);
        }
        let _ = self.poll_pool(cx);
        Poll::Pending
    }

    /// Takes a turn at running all tasks in the pool until no more progress can be made on any task.
    /// `Ready` says that no task is left. After `Pending`, another turn is due if the waker of `cx` has
    /// been called since the turn began: a task may have woken itself, or another
    /// ([`settle`](crate::executor::settle) decides). If it has not, none of the tasks can go on.
    ///
    /// Remaining incomplete tasks in the pool can continue with further use of one of the pool's run
    /// or poll methods. While the turns are taken, all tasks in the pool will try to make progress.
    pub fn run_until_stalled(&mut self, cx: &mut Context<'_>) -> (polled: Poll<()>)
        requires
            old(self).wf(),
        ensures
            final(self).wf(),
            final(self).queue() == old(self).queue(),
            *final(cx) == *old(cx),
            final(self)@.driven_from(old(self)@),
            final(self)@.polled_with(old(self)@, *old(cx)),
            forall|i: int| #[trigger]
                final(self)@.took_since(old(self)@, i) ==> exists|s: &mut TaskSet| #[trigger]
                    final(self)@.steps[i].made_with(s, *old(cx)) && *final(s)
                        == final(self)@.steps[i].after,
            final(self)@.kept_going_since(old(self)@),
            final(self)@.paused(),
            match polled {
                Poll::Ready(_) => final(self)@.exhausted(),
                Poll::Pending => {
                    &&& final(self)@.turns.last().polled is Pending
                    &&& final(self)@.running().len() > 0
                },
            },
    {
        self.poll_pool(cx)
    }

    /// Takes a turn at running tasks until one has completed, or no more progress can be made. `Ready`
    /// brings the identifier of the task that has completed, or says that no task is left. After
    /// `Pending`, another turn is due if the waker of `cx` has been called since the turn began, as
    /// with [`run_until_stalled`](LocalPool::run_until_stalled).
    ///
    /// Remaining incomplete tasks in the pool can continue with further use of one of the pool's run
    /// or poll methods. Though only one task will be completed, progress may be made on multiple
    /// tasks.
    pub fn try_run_one(&mut self, cx: &mut Context<'_>) -> (completed: Poll<Option<usize>>)
        requires
            old(self).wf(),
        ensures
            final(self).wf(),
            final(self).queue() == old(self).queue(),
            *final(cx) == *old(cx),
            final(self)@.driven_from(old(self)@),
            final(self)@.polled_with(old(self)@, *old(cx)),
            forall|i: int| #[trigger]
                final(self)@.took_since(old(self)@, i) ==> exists|s: &mut TaskSet| #[trigger]
                    final(self)@.steps[i].made_with(s, *old(cx)) && *final(s)
                        == final(self)@.steps[i].after,
            final(self)@.held_out_since(old(self)@),
            final(self)@.waiting.len() == 0,
            match completed {
                Poll::Ready(Some(id)) => {
                    &&& final(self)@.turns.last().polled == Poll::Ready(Some(id))
                    &&& id < final(self)@.seen
                    &&& !old(self)@.completed().contains(id)
                    &&& final(self)@.completed() == old(self)@.completed().push(id)
                },
                Poll::Ready(None) => {
                    &&& final(self)@.paused()
                    &&& final(self)@.exhausted()
                    &&& final(self)@.completed() == old(self)@.completed()
                },
                Poll::Pending => {
                    &&& final(self)@.paused()
                    &&& final(self)@.turns.last().polled is Pending
                    &&& final(self)@.running().len() > 0
                    &&& final(self)@.completed() == old(self)@.completed()
                },
            },
    {
        loop
            invariant
                self.wf(),
                self.queue() == old(self).queue(),
                *cx == *old(cx),
                self@.seen >= old(self)@.seen,
                old(self)@.steps.is_prefix_of(self@.steps),
                self@.root == old(self)@.root,
                if old(self)@.turns.len() == self@.turns.len() {
                    self@ == old(self)@
                } else {
                    &&& old(self)@.steps.len() < self@.steps.len()
                    &&& self@.steps[old(self)@.steps.len() as int].before == old(self)@.set
                    &&& old(self)@.exchanges < self@.exchanges
                    &&& old(self)@.found.len() < self@.found.len()
                    &&& self@.searched[old(self)@.found.len() as int] == old(self)@.batch
                },
                forall|i: int| #[trigger]
                    self@.took_since(old(self)@, i) ==> exists|s: &mut TaskSet| #[trigger]
                        self@.steps[i].made_with(s, *old(cx)) && *final(s) == self@.steps[i].after,
                old(self)@.searched.is_prefix_of(self@.searched),
                old(self)@.found.is_prefix_of(self@.found),
                old(self)@.turns.is_prefix_of(self@.turns),
                self@.polled_with(old(self)@, *old(cx)),
                self@.held_out_since(old(self)@),
                old(self)@.turns.len() < self@.turns.len() ==> !self@.turns.last().completes()
                    && self@.turns.last().seen < self@.seen,
                self@.completed() == old(self)@.completed(),
            decreases usize::MAX - self@.seen,
        {
            let ghost before = self@;
            let polled = self.poll_pool_once(cx);
            let ghost now = self@;
            proof {
                lemma_another_turn(old(self)@, before, now, now.turns.last());
                assert forall|i: int| #[trigger] now.took_since(old(self)@, i) implies exists|
                    s: &mut TaskSet,
                | #[trigger]
                    now.steps[i].made_with(s, *old(cx)) && *final(s) == now.steps[i].after by {
                    if i < before.steps.len() {
                        assert(before.took_since(old(self)@, i));
                        assert(now.steps[i] == before.steps[i]);
                    } else {
                        assert(now.took_since(before, i));
                    }
                }
            }
            // return if we have executed a future
            if let Poll::Ready(Some(key)) = polled {
                return Poll::Ready(Some(key));
            }
            // we queued up some new tasks; add them and poll again
            self.gather();
            assert forall|i: int| #[trigger] self@.took_since(old(self)@, i) implies exists|
                s: &mut TaskSet,
            | #[trigger]
                self@.steps[i].made_with(s, *old(cx)) && *final(s) == self@.steps[i].after by {
                assert(now.took_since(old(self)@, i));
            }
            if !self.waiting.is_empty() {
                continue;
            }
            // the set may be pending without a task, while one that has completed is being woken
            if !is_empty(&self.pool) {
                return Poll::Pending;
            }
            proof {
                nothing_is_left(self@);
            }
            return Poll::Ready(None);
        }
    }
}

impl Default for LocalPool {
    fn default() -> (pool: LocalPool)
        ensures
            pool.wf(),
            pool@ == PoolView::empty(pool@.set, pool@.queue, pool@.batch),
            pool@.queue.starts_with(pool@.batch),
    {
        LocalPool::new()
    }
}

/// What a look makes of the pool.
proof fn lemma_looked(before: PoolView, after: PoolView)
    requires
        before.wf(),
        after.found.len() > 0,
        ({
            let found = after.found.last();
            &&& found.wf()
            &&& found.first() == before.batch.first()
            &&& after.end().wf()
            &&& after.root == before.root
            &&& after.set == before.set
            &&& after.steps == before.steps
            &&& after.queue == before.queue
            &&& after.turns == before.turns
            &&& after.searched == before.searched.push(before.batch)
            &&& after.found == before.found.push(found)
            &&& after.waiting == before.waiting + found.queue
            &&& after.seen == found.index
            &&& after.batch.wf()
            &&& after.batch.first() == found.index
            &&& after.queue.opened(after.batch)
        }),
    ensures
        after.wf(),
        after.looked(),
        after.exchanges > before.exchanges,
{
    let found = after.found.last();
    assert(after.end().sound_look(after.found.len() - 1));
    assert(after.found.drop_last() =~= before.found);
    assert(after.arrivals() == before.arrivals() + found.queue);
    assert forall|k: int| 0 <= k < after.seen implies (#[trigger] after.arrivals()[k]).0 == k by {
        if k < before.seen {
            assert(after.arrivals()[k] == before.arrivals()[k]);
        } else {
            assert(after.arrivals()[k] == found.queue[k - before.seen]);
        }
    }
    assert forall|i: int| 0 <= i < after.found.len() implies #[trigger] found_in(
        after.queue,
        after.searched[i],
        after.found[i],
    ) by {
        if i < before.found.len() {
            assert(found_in(before.queue, before.searched[i], before.found[i]));
        }
    }
    assert forall|i: int| 0 <= i < after.found.len() implies #[trigger] in_sequence(
        after.found,
        i,
    ) by {
        assert(after.found.take(i) =~= before.found.take(i));
        if i < before.found.len() {
            assert(in_sequence(before.found, i));
        } else {
            assert(before.found.take(i) =~= before.found);
        }
    }
    assert(after.waiting =~= after.arrivals().skip(after.started()));
    assert(after.arrivals().take(after.started()) =~= before.arrivals().take(before.started()));
    assert forall|id: usize| #[trigger] after.tally(id) == before.tally(id) by {}
    assert forall|i: int| 0 <= i < after.turns.len() implies #[trigger] sound_turn(
        after.turns,
        after.found,
        i,
    ) by {
        assert(sound_turn(before.turns, before.found, i));
        let looks = before.turns[i].looks as int;
        assert(after.found.take(looks) =~= before.found.take(looks));
    }
    if after.turns.len() > 0 {
        assert(sound_turn(before.turns, before.found, before.turns.len() - 1));
    }
}

/// What another step makes of what has been done to the set.
proof fn lemma_stepped(before: PoolView, after: PoolView, step: SetStep)
    requires
        before.steps.len() > 0 ==> before.steps.last().after == before.set,
        before.steps.len() == 0 ==> unused(before.set),
        forall|i: int| 0 <= i < before.steps.len() ==> #[trigger] sound_step(before.steps, i),
        step.before == before.set,
        step.made(),
        after.steps == before.steps.push(step),
    ensures
        forall|i: int| 0 <= i < after.steps.len() ==> #[trigger] sound_step(after.steps, i),
        entrants(after.steps) == (match step.deed {
            Deed::Enter(pair) => entrants(before.steps).push(pair),
            Deed::Poll(_) => entrants(before.steps),
        }),
        polls_among(after.steps) == (match step.deed {
            Deed::Enter(_) => polls_among(before.steps),
            Deed::Poll(turn) => polls_among(before.steps).push(turn),
        }),
{
    assert(after.steps.drop_last() =~= before.steps);
    assert forall|i: int| 0 <= i < after.steps.len() implies #[trigger] sound_step(
        after.steps,
        i,
    ) by {
        if i < before.steps.len() {
            assert(sound_step(before.steps, i));
        }
    }
}

/// What a poll of the set makes of the pool.
proof fn lemma_polled(before: PoolView, after: PoolView, turn: Turn)
    requires
        before.wf(),
        before.waiting.len() == 0,
        before.looked(),
        after == (PoolView {
            set: after.set,
            steps: after.steps,
            turns: before.turns.push(turn),
            ..before
        }),
        after.steps.len() == before.steps.len() + 1,
        after.steps.last().after == after.set,
        forall|i: int| 0 <= i < after.steps.len() ==> #[trigger] sound_step(after.steps, i),
        entrants(after.steps) == entrants(before.steps),
        polls_among(after.steps) == polls_among(before.steps).push(turn),
        turn.seen == before.seen,
        turn.looks == before.found.len(),
        turn.set == before.set,
        turn.taken(),
        match turn.polled {
            Poll::Ready(Some(id)) => {
                &&& before.running().contains(id)
                &&& after.running() == before.running().remove(id)
            },
            Poll::Ready(None) => {
                &&& before.running() == Multiset::<usize>::empty()
                &&& after.running() == before.running()
            },
            Poll::Pending => after.running() == before.running(),
        },
        unused(before.set) ==> unused(after.set) && turn.polled == Poll::Ready(None::<usize>),
    ensures
        after.wf(),
        after.completed() == (match turn.polled {
            Poll::Ready(Some(id)) => before.completed().push(id),
            _ => before.completed(),
        }),
        turn.polled matches Poll::Ready(Some(id)) ==> id < before.started()
            && !before.completed().contains(id),
        turn.polled is Pending ==> before.seen > 0,
{
    broadcast use vstd::seq_lib::group_to_multiset_ensures;

    assert(after.turns.drop_last() =~= before.turns);
    assert forall|id: usize| #[trigger] after.tally(id) == before.tally(id) by {}
    if let Poll::Ready(Some(id)) = turn.polled {
        assert(before.tally(id) <= 1);
    }
    assert forall|i: int| 0 <= i < after.turns.len() implies #[trigger] sound_turn(
        after.turns,
        after.found,
        i,
    ) by {
        assert(after.turns.take(i) =~= before.turns.take(i));
        if i < before.turns.len() {
            assert(sound_turn(before.turns, before.found, i));
        } else {
            assert(before.turns.take(i) =~= before.turns);
            assert(before.found.take(turn.looks as int) =~= before.found);
            assert forall|id: usize| #[trigger]
                task_ids(turn.set).count(id) == if id < turn.seen && !before.completed().contains(
                    id,
                ) {
                    1nat
                } else {
                    0nat
                } by {
                assert(before.tally(id) <= 1);
            }
        }
    }
}

/// Another turn continues a run of turns.
proof fn lemma_another_turn(start: PoolView, before: PoolView, after: PoolView, turn: Turn)
    requires
        start.turns.len() <= before.turns.len(),
        before.seen <= turn.seen,
        after.turns == before.turns.push(turn),
    ensures
        before.kept_going_since(start) && (start.turns.len() < before.turns.len()
            ==> before.turns.last().completes() || before.turns.last().seen < before.seen)
            ==> after.kept_going_since(start),
        before.held_out_since(start) && (start.turns.len() < before.turns.len()
            ==> !before.turns.last().completes() && before.turns.last().seen < before.seen)
            ==> after.held_out_since(start),
{
    assert forall|i: int| start.turns.len() <= i < before.turns.len() - 1 implies made_progress(
        before.turns,
        i,
    ) == #[trigger] made_progress(after.turns, i) by {}
    assert forall|i: int| start.turns.len() <= i < before.turns.len() - 1 implies found_tasks_only(
        before.turns,
        i,
    ) == #[trigger] found_tasks_only(after.turns, i) by {}
}

/// An identifier stands for one task: none is reported as completed twice.
pub proof fn no_task_completes_twice(pool: PoolView)
    requires
        pool.wf(),
    ensures
        pool.completed().no_duplicates(),
{
    assert forall|id: usize| pool.completed().to_multiset().contains(id) implies (
    #[trigger] pool.completed().to_multiset().count(id)) == 1 by {
        assert(pool.tally(id) <= 1);
    }
    pool.completed().lemma_multiset_has_no_duplicates_conv();
}

/// Every task that the pool has seen, and no other, waits, is running or has completed, and only one
/// of these.
pub proof fn every_task_is_somewhere(pool: PoolView, id: usize)
    requires
        pool.wf(),
    ensures
        id < pool.started() <==> pool.running().contains(id) || pool.completed().contains(id),
        !(pool.running().contains(id) && pool.completed().contains(id)),
        pool.started() <= id < pool.seen <==> exists|i: int|
            0 <= i < pool.waiting.len() && (#[trigger] pool.waiting[i]).0 == id,
{
    broadcast use vstd::seq_lib::group_to_multiset_ensures;

    assert(pool.tally(id) <= 1);
    if pool.started() <= id < pool.seen {
        assert(pool.waiting[id - pool.started()].0 == id);
    }
}

/// Where no task waits and none is running, every task has completed.
pub proof fn nothing_is_left(pool: PoolView)
    requires
        pool.wf(),
        pool.waiting.len() == 0,
        pool.running().len() == 0,
    ensures
        pool.exhausted(),
{
    broadcast use vstd::seq_lib::group_to_multiset_ensures;

    assert forall|id: usize| id < pool.seen implies #[trigger] pool.completed().contains(id) by {
        assert(pool.tally(id) == 1);
        assert(pool.running().count(id) == 0);
    }
}

/// What has completed stays completed, in the same order, however much further the pool is driven.
pub proof fn completion_is_final(before: PoolView, after: PoolView)
    requires
        after.driven_from(before),
    ensures
        before.completed().is_prefix_of(after.completed()),
{
    lemma_completed_prefix(before.turns, after.turns);
}

/// No identifier is reported twice: one that was reported is not among those that a later call may
/// still report.
pub proof fn reported_identifiers_differ(
    first: PoolView,
    later: PoolView,
    reported: usize,
    id: usize,
)
    requires
        first.completed().contains(reported),
        later == first || later.driven_from(first),
        !later.completed().contains(id),
    ensures
        id != reported,
{
    if later != first {
        completion_is_final(first, later);
        let i = choose|i: int| 0 <= i < first.completed().len() && first.completed()[i] == reported;
        assert(later.completed()[i] == reported);
    }
}

/// A task that has not completed is not lost: further use of the pool finds it where it can still be
/// polled.
pub proof fn incomplete_tasks_remain(before: PoolView, after: PoolView, id: usize)
    requires
        before.wf(),
        after.wf(),
        after.driven_from(before),
        after.waiting.len() == 0,
        id < before.seen,
        !after.completed().contains(id),
    ensures
        after.running().contains(id),
{
    every_task_is_somewhere(after, id);
}

/// An identifier names its task, and tells what has become of it. Whatever has been spawned and looked
/// for, and whatever the pool has done with what it found: the task that was spawned under an
/// identifier is, under the same one, still in the open batch, or it waits in the pool, or it has
/// entered the set and is running there, or it has completed, and only one of these.
///
/// `changes` is what has happened to the batches that the pool shared, and led to what it found. There
/// always is such a thing ([`every_pool_has_a_history`]).
pub proof fn identifiers_track_tasks(changes: Seq<Change<Task>>, pool: PoolView, i: int)
    requires
        pool.wf(),
        pool.found == Chain::after_all(changes).found,
        0 <= i < Chain::issued(changes).len(),
    ensures
        ({
            let queue = Chain::after_all(changes).open.queue;
            let (id, task) = Chain::issued(changes)[i];
            let queued = queue.contains((id, task));
            let waits = pool.waiting.contains((id, task));
            let runs = pool.running().contains(id);
            let completed = pool.completed().contains(id);
            &&& id == i
            &&& queued <==> pool.seen <= id
            &&& waits <==> pool.started() <= id < pool.seen
            &&& runs || completed <==> id < pool.started()
            &&& runs || completed ==> entrants(pool.steps)[i] == (id, task)
            &&& !(runs && completed)
        }),
{
    let issued = Chain::issued(changes);
    let queue = Chain::after_all(changes).open.queue;
    identifiers_are_unique(changes);
    tasks_are_handed_out_once(changes);
    every_task_is_somewhere(pool, issued[i].0);
    assert(pool.arrivals() + queue == issued);
    assert(pool.arrivals().len() == pool.seen);
    if pool.seen <= i {
        assert(queue[i - pool.seen] == issued[i]);
    } else {
        assert(pool.arrivals()[i] == issued[i]);
        assert forall|k: int| 0 <= k < queue.len() implies queue[k] != issued[i] by {
            assert(queue[k] == issued[k + pool.seen]);
        }
        if pool.started() <= i {
            assert(pool.waiting[i - pool.started()] == issued[i]);
        }
    }
}

/// What is reported as completed was spawned: its identifier was returned when its task was.
pub proof fn only_spawned_tasks_complete(changes: Seq<Change<Task>>, pool: PoolView, id: usize)
    requires
        pool.wf(),
        pool.found == Chain::after_all(changes).found,
        pool.completed().contains(id),
    ensures
        id < Chain::issued(changes).len(),
        Chain::issued(changes)[id as int].0 == id,
{
    identifiers_are_unique(changes);
    tasks_are_handed_out_once(changes);
    every_task_is_somewhere(pool, id);
    assert((pool.arrivals() + Chain::after_all(changes).open.queue).len() == Chain::issued(
        changes,
    ).len());
}

/// Nothing that was spawned is left out: where the pool says that every task has completed, and
/// nothing has been spawned since it looked, every task that was ever spawned has entered the set
/// and has completed.
pub proof fn everything_spawned_has_completed(changes: Seq<Change<Task>>, pool: PoolView, i: int)
    requires
        pool.wf(),
        pool.exhausted(),
        pool.found == Chain::after_all(changes).found,
        Chain::after_all(changes).open.queue.len() == 0,
        0 <= i < Chain::issued(changes).len(),
    ensures
        entrants(pool.steps)[i] == Chain::issued(changes)[i],
        pool.completed().contains(Chain::issued(changes)[i].0),
        pool.completed().len() == Chain::issued(changes).len(),
{
    identifiers_track_tasks(changes, pool, i);
    tasks_are_handed_out_once(changes);
    assert(pool.arrivals() =~= Chain::issued(changes));
}

/// What a pool has found is what spawning and looking lead to: for every pool there are changes that
/// come to just what it has found, and they spawn just the tasks that it has seen, under the same
/// identifiers.
pub proof fn every_pool_has_a_history(pool: PoolView)
    requires
        pool.wf(),
    ensures
        exists|changes: Seq<Change<Task>>|
            pool.found == (#[trigger] Chain::after_all(changes)).found && Chain::issued(changes)
                == pool.arrivals(),
{
    looks_have_a_history(pool.found);
}

/// A thread does not sleep while there is something to do: where it is to stay parked after a pending
/// turn of [`run`](LocalPool::run) or [`run_until`](LocalPool::run_until), nobody has called its
/// waker since the turn began, neither the given future nor a task nor the set; every task that the
/// pool has seen and that has not completed was in the set when it was polled last; and a look since
/// then found no new task.
pub proof fn parking_means_nothing_to_do(
    pool: PoolView,
    wakeups: Wakeups,
    steps: Seq<Step>,
    id: usize,
)
    requires
        pool.wf(),
        pool.paused(),
        wakeups.enters(),
        ({
            let now = wakeups.after_all(steps);
            now.stage is Parking && !now.token && now.unparks == 0
        }),
        id < pool.seen,
        !pool.completed().contains(id),
    ensures
        !wakeups.after_all(steps).asked,
        !wakeups.after_all(steps).flag,
        task_ids(pool.turns.last().set).contains(id),
        pool.running().contains(id),
        pool.waiting.len() == 0,
        pool.looked(),
        pool.found.last().queue.len() == 0,
{
    let last = pool.turns.len() - 1;
    no_wakeup_is_lost(wakeups.flag, wakeups.token, wakeups.unparks, steps);
    flag_means_asked(wakeups.flag, wakeups.token, wakeups.unparks, steps);
    assert(sound_turn(pool.turns, pool.found, last));
    assert(pool.turns.take(last) =~= pool.turns.drop_last());
    lemma_completed_prefix(pool.turns.take(last), pool.turns);
    if completed_ids(pool.turns.take(last)).contains(id) {
        let k = choose|k: int|
            0 <= k < completed_ids(pool.turns.take(last)).len() && completed_ids(
                pool.turns.take(last),
            )[k] == id;
        assert(pool.completed()[k] == id);
    }
    every_task_is_somewhere(pool, id);
}

/// The pool takes nothing out of a shared cell that it does not record: every exchange that it has ever
/// made on one is either a look, which took over what is recorded as found, or the one right behind a
/// look that found tasks, which shared the batch that the next look goes to. So whatever it has taken
/// over is among the tasks that it has seen.
pub proof fn only_looks_take_tasks(pool: PoolView, n: nat)
    requires
        pool.wf(),
        n < pool.exchanges,
    ensures
        exists|i: int|
            0 <= i < pool.found.len() && {
                ||| n == #[trigger] pool.end().number_of(i) && pool.searched[i].hands_over_at(
                    pool.found[i],
                    n,
                )
                ||| n == pool.end().number_of(i) + 1 && pool.found[i].queue.len() > 0
                    && pool.queue.installs_at(pool.end().batch_at(i + 1), n)
            },
{
    assert(pool.found.take(pool.found.len() as int) =~= pool.found);
    lemma_numbered(pool.end(), pool.found.len() as int, n);
}

/// The pool makes as many exchanges on shared cells as it has taken looks, and one more for each look
/// that found tasks, and not a single one besides.
pub proof fn exchanges_are_accounted_for(pool: PoolView)
    requires
        pool.wf(),
    ensures
        pool.exchanges == pool.found.len() + pool.found.filter(
            |found: IncomingView<Task>| found.queue.len() > 0,
        ).len(),
{
    lemma_exchanges_counted(pool.found);
}

proof fn lemma_exchanges_counted(found: Seq<IncomingView<Task>>)
    ensures
        exchanges_for(found) == found.len() + found.filter(
            |found: IncomingView<Task>| found.queue.len() > 0,
        ).len(),
    decreases found.len(),
{
    reveal(Seq::filter);
    if found.len() > 0 {
        lemma_exchanges_counted(found.drop_last());
    }
}

/// The exchanges of the first `looks` looks.
proof fn lemma_numbered(end: EndView, looks: int, n: nat)
    requires
        end.wf(),
        0 <= looks <= end.found.len(),
        n < exchanges_for(end.found.take(looks)),
    ensures
        exists|i: int|
            0 <= i < looks && {
                ||| n == #[trigger] end.number_of(i) && end.searched[i].hands_over_at(
                    end.found[i],
                    n,
                )
                ||| n == end.number_of(i) + 1 && end.found[i].queue.len() > 0
                    && end.queue.installs_at(end.batch_at(i + 1), n)
            },
    decreases looks,
{
    if looks > 0 {
        let i = looks - 1;
        assert(end.found.take(looks).drop_last() =~= end.found.take(i));
        assert(end.sound_look(i));
        if n < exchanges_for(end.found.take(i)) {
            lemma_numbered(end, i, n);
        } else {
            assert(n == end.number_of(i) || n == end.number_of(i) + 1);
        }
    } else {
        assert(end.found.take(looks) =~= Seq::empty());
    }
}

/// Spawners are left with the batch that the pool looks into next. It is the batch that was shared from
/// the beginning, if the pool has not found a task, and else the one that the pool's last exchange on
/// what it shares with them put there. It is numbered from the number of tasks that the pool has
/// seen.
pub proof fn spawners_are_left_with_the_next_batch(pool: PoolView)
    requires
        pool.wf(),
    ensures
        pool.batch.first() == pool.seen,
        pool.batch.root() == pool.queue.root(),
        (forall|i: int| 0 <= i < pool.found.len() ==> (#[trigger] pool.found[i]).queue.len() == 0)
            ==> pool.queue.starts_with(pool.batch) && pool.seen == 0,
        forall|i: int|
            0 <= i < pool.found.len() && (#[trigger] pool.found[i]).queue.len() > 0 && (forall|
                j: int,
            |
                i < j < pool.found.len() ==> (#[trigger] pool.found[j]).queue.len() == 0)
                ==> pool.queue.installs_at(pool.batch, pool.end().number_of(i) + 1),
{
    let end = pool.end();
    if forall|i: int| 0 <= i < pool.found.len() ==> (#[trigger] pool.found[i]).queue.len() == 0 {
        lemma_batch_stays(end, 0, end.found.len() as int);
        lemma_nothing_found(pool.found);
    }
    assert forall|i: int|
        0 <= i < pool.found.len() && (#[trigger] pool.found[i]).queue.len() > 0 && (forall|j: int|
            i < j < pool.found.len() ==> (#[trigger] pool.found[j]).queue.len() == 0) implies pool.queue.installs_at(
        pool.batch, pool.end().number_of(i) + 1) by {
        assert(end.sound_look(i));
        lemma_batch_stays(end, i + 1, end.found.len() as int);
    }
}

/// As long as nothing is found, looks go to the same batch.
proof fn lemma_batch_stays(end: EndView, from: int, to: int)
    requires
        end.wf(),
        0 <= from <= to <= end.found.len(),
        forall|i: int| from <= i < to ==> (#[trigger] end.found[i]).queue.len() == 0,
    ensures
        end.batch_at(from) == end.batch_at(to),
    decreases to - from,
{
    if from < to {
        assert(end.sound_look(from));
        assert(end.found[from].queue.len() == 0);
        lemma_batch_stays(end, from + 1, to);
    }
}

/// Where no look finds a task, no task has been handed out.
proof fn lemma_nothing_found(found: Seq<IncomingView<Task>>)
    requires
        forall|i: int| 0 <= i < found.len() ==> (#[trigger] found[i]).queue.len() == 0,
    ensures
        handed_out(found).len() == 0,
    decreases found.len(),
{
    if found.len() > 0 {
        lemma_nothing_found(found.drop_last());
        assert(found.last() == found[found.len() - 1]);
    }
}

/// Of two calls in a row, the later one looks first into the batch that the earlier one left spawners
/// with, and all that it finds there is among the tasks that it sees, under the same identifiers, and
/// is running or has completed by its end.
pub proof fn the_next_call_finds_what_was_spawned(
    before: PoolView,
    after: PoolView,
    id: usize,
    task: Task,
)
    requires
        before.wf(),
        after.wf(),
        after.driven_from(before),
        after.waiting.len() == 0,
        after.found[before.found.len() as int].queue.contains((id, task)),
    ensures
        before.batch.hands_over_at(after.found[before.found.len() as int], before.exchanges),
        before.seen <= id < after.seen,
        after.arrivals()[id as int] == (id, task),
        entrants(after.steps)[id as int] == (id, task),
        after.running().contains(id) || after.completed().contains(id),
{
    let look = before.found.len() as int;
    let found = after.found[look];
    assert(after.end().sound_look(look));
    assert(after.found.take(look) =~= before.found);
    assert(in_sequence(after.found, look));
    let k = choose|k: int| 0 <= k < found.queue.len() && found.queue[k] == (id, task);
    lemma_found_arrives(after.found, look, k);
    every_task_is_somewhere(after, id);
}

/// What a look finds is among what is handed out, in its place.
proof fn lemma_found_arrives(found: Seq<IncomingView<Task>>, look: int, k: int)
    requires
        0 <= look < found.len(),
        0 <= k < found[look].queue.len(),
    ensures
        handed_out(found.take(look)).len() + k < handed_out(found).len(),
        handed_out(found)[handed_out(found.take(look)).len() + k] == found[look].queue[k],
    decreases found.len(),
{
    if look == found.len() - 1 {
        assert(found.take(look) =~= found.drop_last());
    } else {
        assert(found.drop_last().take(look) =~= found.take(look));
        lemma_found_arrives(found.drop_last(), look, k);
    }
}

/// No turn leaves a task out: the set that is polled in a turn holds every task that the pool had
/// seen by then and that had not completed before.
pub proof fn every_turn_covers_all_tasks(pool: PoolView, i: int, id: usize)
    requires
        pool.wf(),
        0 <= i < pool.turns.len(),
        id < pool.turns[i].seen,
        !completed_ids(pool.turns.take(i)).contains(id),
    ensures
        task_ids(pool.turns[i].set).contains(id),
{
    assert(sound_turn(pool.turns, pool.found, i));
}

/// A pool whose tasks have all completed has nothing to poll: as long as no new task is found, the
/// sets that it polls are empty.
pub proof fn an_exhausted_pool_has_nothing_to_poll(before: PoolView, after: PoolView, i: int)
    requires
        before.wf(),
        before.exhausted(),
        after.wf(),
        after.driven_from(before),
        after.seen == before.seen,
        before.turns.len() <= i < after.turns.len(),
    ensures
        task_ids(after.turns[i].set).len() == 0,
        !after.turns[i].completes(),
{
    let turn = after.turns[i];
    let earlier = after.turns.take(i);
    assert(sound_turn(after.turns, after.found, i));
    lemma_handed_out_prefix(after.found.take(turn.looks as int), after.found);
    assert(before.turns.is_prefix_of(earlier));
    lemma_completed_prefix(before.turns, earlier);
    assert forall|id: usize| task_ids(turn.set).count(id) == 0 by {
        if id < turn.seen {
            assert(before.completed().contains(id));
            let k = choose|k: int|
                0 <= k < before.completed().len() && before.completed()[k] == id;
            assert(completed_ids(earlier)[k] == id);
        }
    }
    assert(task_ids(turn.set) =~= Multiset::empty());
}

/// More looks find more tasks.
proof fn lemma_handed_out_prefix(before: Seq<IncomingView<Task>>, after: Seq<IncomingView<Task>>)
    requires
        before.is_prefix_of(after),
    ensures
        handed_out(before).len() <= handed_out(after).len(),
    decreases after.len(),
{
    if before.len() < after.len() {
        lemma_handed_out_prefix(before, after.drop_last());
    } else {
        assert(before =~= after);
    }
}

proof fn lemma_completed_prefix(before: Seq<Turn>, after: Seq<Turn>)
    requires
        before.is_prefix_of(after),
    ensures
        completed_ids(before).is_prefix_of(completed_ids(after)),
    decreases after.len(),
{
    if before.len() < after.len() {
        lemma_completed_prefix(before, after.drop_last());
    } else {
        assert(before =~= after);
    }
}

} // verus!
