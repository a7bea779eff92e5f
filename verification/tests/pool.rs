use futures::executor::block_on;
use futures::future::{pending, poll_fn, ready, FutureExt, LocalFutureObj};
use futures::task::{noop_waker, waker, ArcWake, LocalSpawn, Spawn};
use local_pool_with_id::executor::settle;
use local_pool_with_id::task::IndexWrapper;
use local_pool_with_id::{
    LocalPool, LocalSpawnWithIdExt, LocalSpawner, SpawnWithIdExt,
};
use std::cell::{Cell, RefCell};
use std::future::Future;
use std::rc::Rc;
use std::sync::atomic::{AtomicBool, Ordering};
use std::sync::Arc;
use std::task::{Context, Poll};

#[test]
fn tracking() {
    let mut spawned_ids = std::collections::HashSet::new();
    let mut pool = LocalPool::new();
    let spawner = pool.spawner();
    let waker = noop_waker();
    let mut cx = Context::from_waker(&waker);

    let (id1, handle1) = spawner
        .spawn_with_handle(futures::future::ready(1i32))
        .unwrap();
    let (id2, handle2) = spawner
        .spawn_with_handle(futures::future::ready(2u32))
        .unwrap();

    spawned_ids.insert(id1);
    spawned_ids.insert(id2);

    while !spawned_ids.is_empty() {
        if let Poll::Ready(Some(completed)) = pool.try_run_one(&mut cx) {
            assert!(spawned_ids.remove(&completed))
        }
    }

    assert_eq!(handle1.now_or_never().unwrap(), 1);
    assert_eq!(handle2.now_or_never().unwrap(), 2);
}

#[test]
fn identifiers_count_up_from_zero() {
    let mut pool = LocalPool::default();
    let spawner = pool.spawner();
    let waker = noop_waker();
    let mut cx = Context::from_waker(&waker);
    assert_eq!(spawner.spawn_local(ready(())), Ok(0));
    assert_eq!(spawner.spawn(ready(())), Ok(1));
    assert_eq!(pool.try_run_one(&mut cx), Poll::Ready(Some(0)));
    assert_eq!(spawner.clone().spawn_local(ready(())), Ok(2));
    assert_eq!(pool.try_run_one(&mut cx), Poll::Ready(Some(1)));
    assert_eq!(pool.try_run_one(&mut cx), Poll::Ready(Some(2)));
    assert_eq!(pool.try_run_one(&mut cx), Poll::Ready(None));
    assert_eq!(spawner.spawn_local(ready(())), Ok(3));
}

#[test]
fn two_ready_tasks_and_one_that_never_completes() {
    let mut pool = LocalPool::new();
    let spawner = pool.spawner();
    let waker = noop_waker();
    let mut cx = Context::from_waker(&waker);
    spawner.spawn_local(ready(())).unwrap();
    spawner.spawn_local(ready(())).unwrap();
    spawner.spawn_local(pending()).unwrap();
    assert_eq!(pool.try_run_one(&mut cx), Poll::Ready(Some(0)));
    assert_eq!(pool.try_run_one(&mut cx), Poll::Ready(Some(1)));
    assert_eq!(pool.try_run_one(&mut cx), Poll::Pending);
    assert_eq!(pool.try_run_one(&mut cx), Poll::Pending);
}

#[test]
fn an_empty_pool_has_nothing_to_run() {
    let mut pool = LocalPool::new();
    let waker = noop_waker();
    let mut cx = Context::from_waker(&waker);
    assert_eq!(pool.poll_pool_once(&mut cx), Poll::Ready(None));
    assert_eq!(pool.poll_pool(&mut cx), Poll::Ready(()));
    assert_eq!(pool.try_run_one(&mut cx), Poll::Ready(None));
    assert_eq!(pool.run(&mut cx), Poll::Ready(()));
}

#[test]
fn one_poll_at_a_time() {
    let mut pool = LocalPool::new();
    let spawner = pool.spawner();
    let waker = noop_waker();
    let mut cx = Context::from_waker(&waker);
    spawner.spawn_local(pending()).unwrap();
    spawner.spawn_local(ready(())).unwrap();
    assert_eq!(pool.poll_pool_once(&mut cx), Poll::Ready(Some(1)));
    assert_eq!(pool.poll_pool_once(&mut cx), Poll::Pending);
    assert_eq!(pool.run(&mut cx), Poll::Pending);
}

#[test]
fn tasks_spawned_by_tasks_are_run() {
    let mut pool = LocalPool::new();
    let spawner = pool.spawner();
    let waker = noop_waker();
    let mut cx = Context::from_waker(&waker);
    let ids = Rc::new(RefCell::new(Vec::new()));
    let (inner_spawner, inner_ids) = (spawner.clone(), ids.clone());
    let outer = spawner
        .spawn_local(async move {
            let id = inner_spawner.spawn_local(ready(())).unwrap();
            inner_ids.borrow_mut().push(id);
            let id = inner_spawner.spawn_local(ready(())).unwrap();
            inner_ids.borrow_mut().push(id);
            pending::<()>().await
        })
        .unwrap();
    assert_eq!(outer, 0);
    // the first turn completes nothing, but finds the new tasks, and so another turn follows
    assert_eq!(pool.try_run_one(&mut cx), Poll::Ready(Some(1)));
    assert_eq!(*ids.borrow(), vec![1, 2]);
    assert_eq!(pool.try_run_one(&mut cx), Poll::Ready(Some(2)));
    assert_eq!(pool.try_run_one(&mut cx), Poll::Pending);
}

#[test]
fn running_to_completion_includes_new_tasks() {
    let mut pool = LocalPool::new();
    let spawner = pool.spawner();
    let count = Rc::new(Cell::new(0));
    fn chain(spawner: &LocalSpawner, count: &Rc<Cell<u32>>, left: u32) {
        let (next, seen) = (spawner.clone(), count.clone());
        spawner
            .spawn_local(async move {
                seen.set(seen.get() + 1);
                if left > 1 {
                    chain(&next, &seen, left - 1);
                }
            })
            .unwrap();
    }
    chain(&spawner, &count, 5);
    block_on(poll_fn(|cx| pool.run(cx)));
    assert_eq!(count.get(), 5);
    assert_eq!(spawner.spawn_local(ready(())), Ok(5));
}

#[test]
fn running_until_a_future_completes() {
    let mut pool = LocalPool::new();
    let spawner = pool.spawner();
    let (id, mut handle) = spawner.spawn_local_with_handle(async { 1 }).unwrap();
    assert_eq!(id, 0);
    assert_eq!(block_on(poll_fn(|cx| pool.run_until(&mut handle, cx))), 1);
}

#[test]
fn a_future_that_is_ready_leaves_the_pool_alone() {
    let mut pool = LocalPool::new();
    let spawner = pool.spawner();
    let waker = noop_waker();
    let mut cx = Context::from_waker(&waker);
    let ran = Rc::new(Cell::new(false));
    let flag = ran.clone();
    spawner.spawn_local(async move { flag.set(true) }).unwrap();
    assert_eq!(pool.run_until(&mut ready(7u8), &mut cx), Poll::Ready(7));
    assert_eq!(pool.run_until_polled(Poll::Ready(8u8), &mut cx), Poll::Ready(8));
    assert!(!ran.get());
    assert_eq!(pool.run_until(&mut pending::<u8>(), &mut cx), Poll::Pending);
    assert!(ran.get());
    assert_eq!(pool.run_until_polled(Poll::<u8>::Pending, &mut cx), Poll::Pending);
}

#[test]
fn running_until_stalled() {
    let mut pool = LocalPool::new();
    let spawner = pool.spawner();
    let waker = noop_waker();
    let mut cx = Context::from_waker(&waker);
    let count = Rc::new(Cell::new(0));
    for _ in 0..2 {
        let count = count.clone();
        spawner.spawn_local(async move { count.set(count.get() + 1) }).unwrap();
    }
    spawner.spawn_local(pending()).unwrap();
    assert_eq!(pool.run_until_stalled(&mut cx), Poll::Pending);
    assert_eq!(count.get(), 2);
    assert_eq!(pool.try_run_one(&mut cx), Poll::Pending);
}

#[test]
fn a_task_that_is_woken_continues_later() {
    let mut pool = LocalPool::new();
    let spawner = pool.spawner();
    let waker = noop_waker();
    let mut cx = Context::from_waker(&waker);
    let (send, receive) = futures::channel::oneshot::channel::<u32>();
    let (id, handle) = spawner.spawn_local_with_handle(receive).unwrap();
    assert_eq!(pool.try_run_one(&mut cx), Poll::Pending);
    send.send(9).unwrap();
    assert_eq!(pool.try_run_one(&mut cx), Poll::Ready(Some(id)));
    assert_eq!(handle.now_or_never().unwrap(), Ok(9));
}

#[test]
fn the_futures_traits_spawn_too() {
    let mut pool = LocalPool::new();
    let spawner = pool.spawner();
    let waker = noop_waker();
    let mut cx = Context::from_waker(&waker);
    assert!(spawner.status().is_ok());
    assert!(spawner.status_local().is_ok());
    spawner.spawn_obj(Box::new(ready(())).into()).unwrap();
    spawner.spawn_local_obj(Box::new(ready(())).into()).unwrap();
    assert_eq!(pool.try_run_one(&mut cx), Poll::Ready(Some(0)));
    assert_eq!(pool.try_run_one(&mut cx), Poll::Ready(Some(1)));
    assert_eq!(pool.try_run_one(&mut cx), Poll::Ready(None));
}

#[test]
fn identifiers_name_their_tasks() {
    let mut pool = LocalPool::new();
    let spawner = pool.spawner();
    let waker = noop_waker();
    let mut cx = Context::from_waker(&waker);
    let ran = Rc::new(RefCell::new(Vec::new()));
    for round in 0..3u32 {
        for task in 0..2u32 {
            let ran = ran.clone();
            let id = spawner
                .spawn_local(async move { ran.borrow_mut().push((round, task)) })
                .unwrap();
            assert_eq!(id, (round * 2 + task) as usize);
        }
        for task in 0..2u32 {
            assert_eq!(pool.try_run_one(&mut cx), Poll::Ready(Some((round * 2 + task) as usize)));
            assert_eq!(ran.borrow().last(), Some(&(round, task)));
        }
    }
    assert_eq!(pool.run(&mut cx), Poll::Ready(()));
}

#[test]
fn every_pool_counts_for_itself() {
    let mut first = LocalPool::new();
    let waker = noop_waker();
    let mut cx = Context::from_waker(&waker);
    for id in 0..5 {
        assert_eq!(first.spawner().spawn_local(ready(())), Ok(id));
    }
    let mut second = LocalPool::new();
    assert_eq!(second.try_run_one(&mut cx), Poll::Ready(None));
    assert_eq!(second.spawner().spawn_local(ready(())), Ok(0));
    assert_eq!(first.spawner().spawn_local(ready(())), Ok(5));
    assert_eq!(first.run(&mut cx), Poll::Ready(()));
    assert_eq!(second.try_run_one(&mut cx), Poll::Ready(Some(0)));
}

#[test]
fn every_turn_polls_all_tasks_that_are_left() {
    let mut pool = LocalPool::new();
    let spawner = pool.spawner();
    let waker = noop_waker();
    let mut cx = Context::from_waker(&waker);
    let polls = Rc::new(Cell::new(0));
    let count = polls.clone();
    let id = spawner
        .spawn_local(poll_fn(move |cx| {
            count.set(count.get() + 1);
            cx.waker().wake_by_ref();
            if count.get() < 3 { Poll::Pending } else { Poll::Ready(()) }
        }))
        .unwrap();
    assert_eq!(pool.poll_pool_once(&mut cx), Poll::Pending);
    assert_eq!(spawner.spawn_local(ready(())), Ok(1));
    assert_eq!(pool.poll_pool_once(&mut cx), Poll::Ready(Some(1)));
    assert_eq!(polls.get(), 2);
    assert_eq!(pool.poll_pool_once(&mut cx), Poll::Ready(Some(id)));
    assert_eq!(polls.get(), 3);
    assert_eq!(pool.poll_pool_once(&mut cx), Poll::Ready(None));
}

#[test]
fn an_exhausted_pool_stays_ready() {
    let mut pool = LocalPool::new();
    let spawner = pool.spawner();
    let waker = noop_waker();
    let mut cx = Context::from_waker(&waker);
    spawner.spawn_local(ready(())).unwrap();
    // a task that completes though it has been woken meanwhile
    spawner
        .spawn_local(poll_fn(|cx| {
            cx.waker().wake_by_ref();
            Poll::Ready(())
        }))
        .unwrap();
    assert_eq!(pool.run(&mut cx), Poll::Ready(()));
    assert_eq!(pool.run(&mut cx), Poll::Ready(()));
    assert_eq!(pool.poll_pool_once(&mut cx), Poll::Ready(None));
    spawner.spawn_local(pending()).unwrap();
    assert_eq!(pool.run(&mut cx), Poll::Pending);
}

#[test]
fn the_given_future_is_polled_once_a_turn() {
    let mut pool = LocalPool::new();
    let waker = noop_waker();
    let mut cx = Context::from_waker(&waker);
    let mut polls = 0;
    let mut future = poll_fn(|_| {
        polls += 1;
        if polls < 3 { Poll::Pending } else { Poll::Ready(polls) }
    });
    assert_eq!(pool.run_until(&mut future, &mut cx), Poll::Pending);
    assert_eq!(pool.run_until(&mut future, &mut cx), Poll::Pending);
    assert_eq!(pool.run_until(&mut future, &mut cx), Poll::Ready(3));
}

#[test]
fn a_task_is_polled_once_at_a_time() {
    let mut task = IndexWrapper {
        data: LocalFutureObj::new(Box::new({
            let mut polls = 0;
            poll_fn(move |_| {
                polls += 1;
                if polls < 2 { Poll::Pending } else { Poll::Ready(()) }
            })
        })),
        index: 4,
    };
    let waker = noop_waker();
    let mut cx = Context::from_waker(&waker);
    assert!(task.poll_unpin(&mut cx).is_pending());
    assert_eq!(task.index, 4);
    match task.poll_unpin(&mut cx) {
        Poll::Ready(done) => assert_eq!(done.index, 4),
        Poll::Pending => panic!("the task is ready"),
    }
}

struct Flag(AtomicBool);

impl ArcWake for Flag {
    fn wake_by_ref(arc_self: &Arc<Self>) {
        arc_self.0.store(true, Ordering::Relaxed);
    }
}

/// Takes turns until one brings a result or nothing asks for another.
fn settling<T>(stalled: impl Fn() -> T, mut turn: impl FnMut(&mut Context<'_>) -> Poll<T>) -> T {
    let flag = Arc::new(Flag(AtomicBool::new(false)));
    let waker = waker(flag.clone());
    let mut cx = Context::from_waker(&waker);
    loop {
        let polled = turn(&mut cx);
        let woken = flag.0.swap(false, Ordering::Relaxed);
        if let Poll::Ready(result) = settle(polled, stalled(), woken) {
            return result;
        }
    }
}

/// A task that wakes itself `times` times, counts its polls, and completes or waits on.
fn restless(times: u32, completes: bool, polls: Rc<Cell<u32>>) -> impl Future<Output = ()> {
    poll_fn(move |cx| {
        polls.set(polls.get() + 1);
        if polls.get() <= times {
            cx.waker().wake_by_ref();
            Poll::Pending
        } else if completes {
            Poll::Ready(())
        } else {
            Poll::Pending
        }
    })
}

#[test]
fn a_task_that_wakes_itself_goes_on_until_it_stalls() {
    let mut pool = LocalPool::new();
    let spawner = pool.spawner();
    let polls = Rc::new(Cell::new(0));
    spawner.spawn_local(restless(5, false, polls.clone())).unwrap();
    settling(|| (), |cx| pool.run_until_stalled(cx));
    assert_eq!(polls.get(), 6);
    // nothing has woken the task since
    settling(|| (), |cx| pool.run_until_stalled(cx));
    assert_eq!(polls.get(), 6);
}

#[test]
fn a_task_that_wakes_itself_is_tried_until_it_completes() {
    let mut pool = LocalPool::new();
    let spawner = pool.spawner();
    let polls = Rc::new(Cell::new(0));
    let id = spawner.spawn_local(restless(5, true, polls.clone())).unwrap();
    spawner.spawn_local(pending()).unwrap();
    assert_eq!(settling(|| None, |cx| pool.try_run_one(cx)), Some(id));
    assert_eq!(polls.get(), 6);
    assert_eq!(settling(|| None, |cx| pool.try_run_one(cx)), None);
}
