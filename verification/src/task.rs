//! Tasks, and the set that the pool polls them in.
use futures::future::{FutureExt, LocalFutureObj};
use futures::stream::{FuturesUnordered, StreamExt};
use std::future::Future;
use std::pin::Pin;
use std::task::{Context, Poll};
use vstd::multiset::Multiset;
use vstd::prelude::*;

verus! {

/// A future that the pool runs: boxed, and without an output of its own.
pub type Task = LocalFutureObj<'static, ()>;

/// The futures that the pool polls, each beside its identifier.
pub type TaskSet = FuturesUnordered<IndexWrapper<Task>>;

/// `futures::future::LocalFutureObj`: a boxed future.
#[verifier::external_type_specification]
#[verifier::external_body]
#[verifier::reject_recursive_types(T)]
pub struct ExLocalFutureObj<'a, T>(futures::future::LocalFutureObj<'a, T>);

/// `futures::stream::FuturesUnordered`: a set of futures that may complete in any order.
#[verifier::external_type_specification]
#[verifier::external_body]
#[verifier::reject_recursive_types(Fut)]
pub struct ExFuturesUnordered<Fut>(futures::stream::FuturesUnordered<Fut>);

/// `std::task::Context`: what a future is polled with.
#[verifier::external_type_specification]
#[verifier::external_body]
pub struct ExContext<'a>(std::task::Context<'a>);

/// `std::pin::Pin`: a pointer to a value that stays where it is.
#[verifier::external_type_specification]
#[verifier::external_body]
#[verifier::reject_recursive_types(Ptr)]
pub struct ExPin<Ptr>(std::pin::Pin<Ptr>);

/// `std::task::Poll`, an enum, with its two variants.
#[verifier::external_type_specification]
#[verifier::reject_recursive_types(T)]
pub struct ExPoll<T>(std::task::Poll<T>);

/// A future, or the output of one, beside the identifier that the future was spawned under.
#[must_use]
#[derive(Debug)]
pub struct IndexWrapper<T> {
    /// A future or a future's output.
    pub data: T,
    /// The identifier.
    pub index: usize,
}

/// What a poll gave, with the identifier `index` on it.
pub open spec fn tagged<T>(index: usize, polled: Poll<T>) -> Poll<IndexWrapper<T>> {
    match polled {
        Poll::Ready(data) => Poll::Ready(IndexWrapper { data, index }),
        Poll::Pending => Poll::Pending,
    }
}

impl<T> IndexWrapper<T> {
    /// Puts the identifier `index` on what a poll gave.
    pub fn tag(index: usize, polled: Poll<T>) -> (tagged: Poll<IndexWrapper<T>>)
        ensures
            tagged == self::tagged(index, polled),
            match polled {
                Poll::Ready(data) => tagged matches Poll::Ready(done) && done.index == index
                    && done.data == data,
                Poll::Pending => tagged is Pending,
            },
    {
        match polled {
            Poll::Ready(data) => Poll::Ready(IndexWrapper { data, index }),
            Poll::Pending => Poll::Pending,
        }
    }
}

/// The reference that a pin was made of.
pub uninterp spec fn pinned(reference: Pin<&mut IndexWrapper<Task>>) -> &mut IndexWrapper<Task>;

/// `Pin::get_mut`: the reference that the pin was made of, to the same task.
#[verifier::external_body]
fn unpin<'a>(reference: Pin<&'a mut IndexWrapper<Task>>) -> (task: &'a mut IndexWrapper<Task>)
    ensures
        task == pinned(reference),
{
    reference.get_mut()
}

/// `FutureExt::poll_unpin`: polls `future` once. What comes of it is up to the future, which may
/// run any code, and nothing is said of it here; where the future panics, so does the call.
#[verifier::external_body]
fn poll_unpin<F: Future + Unpin>(future: &mut F, cx: &mut Context<'_>) -> (polled: Poll<
    F::Output,
>) {
    future.poll_unpin(cx)
}

/// A call of [`poll_unpin`] with `future` and `cx` returns `polled`. What a poll gives is up to the
/// future, so that one future may give many.
pub closed spec fn polling<F: Future + Unpin>(
    future: &mut F,
    cx: &mut Context<'_>,
    polled: Poll<F::Output>,
) -> bool {
    call_ensures(poll_unpin::<F>, (future, cx), polled)
}

/// Polls `future` once.
pub(crate) fn poll_once<F: Future + Unpin>(future: &mut F, cx: &mut Context<'_>) -> (polled: Poll<
    F::Output,
>)
    ensures
        exists|f: &mut F, c: &mut Context<'_>|
            {
                &&& #[trigger] polling(f, c, polled)
                &&& *f == *old(future)
                &&& *final(f) == *final(future)
                &&& *c == *old(cx)
                &&& *final(c) == *final(cx)
            },
{
    let polled = poll_unpin(future, cx);
    assert forall|f: &mut F, c: &mut Context<'_>| #[trigger]
        call_ensures(poll_unpin::<F>, (f, c), polled) implies polling(f, c, polled) by {}
    polled
}

impl Future for IndexWrapper<Task> {
    type Output = IndexWrapper<()>;

    /// Polls the future inside, once. Its output keeps the identifier.
    fn poll(self: Pin<&mut Self>, cx: &mut Context<'_>) -> (polled: Poll<Self::Output>)
        ensures
            exists|f: &mut Task, c: &mut Context<'_>, given: Poll<()>|
                {
                    &&& #[trigger] polling(f, c, given)
                    &&& *f == pinned(self).data
                    &&& *final(f) == final(pinned(self)).data
                    &&& *c == *old(cx)
                    &&& *final(c) == *final(cx)
                    &&& polled == tagged(pinned(self).index, given)
                    &&& match given {
                        Poll::Ready(data) => polled matches Poll::Ready(done) && done.index == pinned(
                            self,
                        ).index && done.data == data,
                        Poll::Pending => polled is Pending,
                    }
                },
            polled matches Poll::Ready(done) ==> done.index == pinned(self).index,
            final(pinned(self)).index == pinned(self).index,
    {
        let task = unpin(self);
        let index: usize = task.index;
        IndexWrapper::tag(index, poll_once(&mut task.data, cx))
    }
}

/// The identifiers of the tasks in a set.
pub uninterp spec fn task_ids(set: FuturesUnordered<IndexWrapper<LocalFutureObj<'static, ()>>>) -> Multiset<usize>;

/// Whether a set has been without tasks ever since it was made.
pub uninterp spec fn unused(set: FuturesUnordered<IndexWrapper<LocalFutureObj<'static, ()>>>) -> bool;

/// `FuturesUnordered::new`: a set without tasks.
#[verifier::external_body]
pub(crate) fn new_set() -> (set: TaskSet)
    ensures
        task_ids(set) == Multiset::<usize>::empty(),
        unused(set),
{
    FuturesUnordered::new()
}

/// `FuturesUnordered::push`: the set has the task `task` more. The task is not polled yet.
#[verifier::external_body]
fn push_task(set: &mut TaskSet, task: IndexWrapper<Task>)
    ensures
        task_ids(*final(set)) == task_ids(*old(set)).insert(task.index),
{
    set.push(task)
}

/// A call of [`push_task`] is made with `set` and `task`.
pub closed spec fn pushing(set: &mut TaskSet, task: IndexWrapper<Task>) -> bool {
    call_ensures(push_task, (set, task), ())
}

/// The task `task` is put into `set`.
pub open spec fn pushes(set: TaskSet, task: IndexWrapper<Task>) -> bool {
    exists|s: &mut TaskSet| #[trigger] pushing(s, task) && *s == set
}

/// `StreamExt::poll_next_unpin` on `FuturesUnordered`: polls tasks of the set that have been woken
/// until one completes.
///
/// A task that completes leaves the set, and what it returned comes out: the task's identifier,
/// then. No other task leaves. The end of the stream means that the set is empty, and a set that
/// has never had a task is at its end. `cx` is only asked for its waker. Where a task panics, so
/// does the call.
///
/// Nothing else is said of when a poll comes back as pending: that is up to the tasks and to who
/// wakes them. A set whose tasks have all completed may be pending, too. While another thread is
/// still in the middle of waking a task that has completed, the list of woken tasks is not in a
/// state to be read, and the set then asks to be polled again without a look at what is in it.
#[verifier::external_body]
fn poll_next(set: &mut TaskSet, cx: &mut Context<'_>) -> (polled: Poll<
    Option<IndexWrapper<()>>,
>)
    ensures
        *final(cx) == *old(cx),
        match polled {
            Poll::Ready(Some(done)) => {
                &&& task_ids(*old(set)).contains(done.index)
                &&& task_ids(*final(set)) == task_ids(*old(set)).remove(done.index)
            },
            Poll::Ready(None) => {
                &&& task_ids(*old(set)) == Multiset::<usize>::empty()
                &&& task_ids(*final(set)) == Multiset::<usize>::empty()
            },
            Poll::Pending => task_ids(*final(set)) == task_ids(*old(set)),
        },
        unused(*old(set)) ==> unused(*final(set)) && polled == Poll::Ready(
            None::<IndexWrapper<()>>,
        ),
{
    set.poll_next_unpin(cx)
}

/// `FuturesUnordered::is_empty`: whether no task is in the set.
#[verifier::external_body]
pub(crate) fn is_empty(set: &TaskSet) -> (empty: bool)
    ensures
        empty == (task_ids(*set).len() == 0),
{
    set.is_empty()
}

/// Puts the task `data` into `set` under the identifier `index`.
pub(crate) fn enter_task(set: &mut TaskSet, data: Task, index: usize)
    ensures
        exists|s: &mut TaskSet|
            {
                &&& #[trigger] pushing(s, IndexWrapper { data, index })
                &&& *s == *old(set)
                &&& *final(s) == *final(set)
            },
        task_ids(*final(set)) == task_ids(*old(set)).insert(index),
{
    let ghost task = IndexWrapper { data, index };
    push_task(set, IndexWrapper { data, index });
    assert forall|s: &mut TaskSet| #[trigger] call_ensures(push_task, (s, task), ()) implies pushing(
        s,
        task,
    ) by {}
}

/// What a poll of the set gave, with of a task that completed only the identifier.
pub open spec fn reported(polled: Poll<Option<IndexWrapper<()>>>) -> Poll<Option<usize>> {
    match polled {
        Poll::Ready(Some(done)) => Poll::Ready(Some(done.index)),
        Poll::Ready(None) => Poll::Ready(None),
        Poll::Pending => Poll::Pending,
    }
}

/// A call of [`poll_next`] with `set` and `cx` returns `polled`. What a poll gives is up to the tasks
/// and to who wakes them, so that one set may give many.
pub closed spec fn polling_set(
    set: &mut TaskSet,
    cx: &mut Context<'_>,
    polled: Poll<Option<IndexWrapper<()>>>,
) -> bool {
    call_ensures(poll_next, (set, cx), polled)
}

/// A poll of `set` with `cx` reports `polled`.
pub open spec fn reporting(set: &mut TaskSet, cx: Context<'_>, polled: Poll<Option<usize>>) -> bool {
    exists|c: &mut Context<'_>, given: Poll<Option<IndexWrapper<()>>>| #[trigger]
        polling_set(set, c, given) && *c == cx && polled == reported(given)
}

/// Polls `set` once, and reports the identifier of the task that completed, if one did.
pub(crate) fn poll_set(set: &mut TaskSet, cx: &mut Context<'_>) -> (polled: Poll<Option<usize>>)
    ensures
        *final(cx) == *old(cx),
        exists|s: &mut TaskSet|
            {
                &&& #[trigger] reporting(s, *old(cx), polled)
                &&& *s == *old(set)
                &&& *final(s) == *final(set)
            },
        match polled {
            Poll::Ready(Some(id)) => {
                &&& task_ids(*old(set)).contains(id)
                &&& task_ids(*final(set)) == task_ids(*old(set)).remove(id)
            },
            Poll::Ready(None) => {
                &&& task_ids(*old(set)) == Multiset::<usize>::empty()
                &&& task_ids(*final(set)) == Multiset::<usize>::empty()
            },
            Poll::Pending => task_ids(*final(set)) == task_ids(*old(set)),
        },
        unused(*old(set)) ==> unused(*final(set)) && polled == Poll::Ready(None::<usize>),
{
    let given = poll_next(set, cx);
    let polled = match given {
        Poll::Ready(Some(done)) => Poll::Ready(Some(done.index)),
        Poll::Ready(None) => Poll::Ready(None),
        Poll::Pending => Poll::Pending,
    };
    assert forall|s: &mut TaskSet, c: &mut Context<'_>| #[trigger]
        call_ensures(poll_next, (s, c), given) && *c == *old(cx) implies reporting(
        s,
        *old(cx),
        polled,
    ) by {
        assert(polling_set(s, c, given));
    }
    polled
}

/// An output keeps the identifier of its task, whichever it is, and is what the task gave: what
/// [`IndexWrapper::tag`] returns for an outcome that is ready has the very identifier that it was
/// called with, and the very output. An outcome that is pending stays so.
pub proof fn outputs_keep_identifiers<T>(
    index: usize,
    polled: Poll<T>,
    tagged: Poll<IndexWrapper<T>>,
)
    requires
        call_ensures(IndexWrapper::<T>::tag, (index, polled), tagged),
    ensures
        polled is Ready <==> tagged is Ready,
        polled matches Poll::Ready(data) ==> tagged matches Poll::Ready(done) ==> done.index == index
            && done.data == data,
{
}

/// Outputs under different identifiers are told apart: where two outcomes are ready, they come out
/// under the same identifier only if they went in under the same.
pub proof fn outputs_are_told_apart<T>(
    first: usize,
    second: usize,
    outputs: (T, T),
    done: (IndexWrapper<T>, IndexWrapper<T>),
)
    requires
        call_ensures(
            IndexWrapper::<T>::tag,
            (first, Poll::Ready(outputs.0)),
            Poll::Ready(done.0),
        ),
        call_ensures(
            IndexWrapper::<T>::tag,
            (second, Poll::Ready(outputs.1)),
            Poll::Ready(done.1),
        ),
    ensures
        done.0.index == done.1.index <==> first == second,
{
}

/// A report names the task that completed, and says that one completed only if one did.
pub proof fn reports_name_the_completed_task(given: Poll<Option<IndexWrapper<()>>>)
    ensures
        match given {
            Poll::Ready(Some(done)) => reported(given) matches Poll::Ready(Some(id)) && id
                == done.index,
            Poll::Ready(None) => reported(given) matches Poll::Ready(None),
            Poll::Pending => reported(given) is Pending,
        },
{
}

} // verus!
