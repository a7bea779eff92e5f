use futures::future::{pending, ready};
use futures::task::{noop_waker, LocalSpawn, Spawn};
use local_pool_with_id::incoming::{Batch, Incoming, IncomingTracking};
use local_pool_with_id::spawner::{spawn_onto, status_of};
use local_pool_with_id::{LocalPool, LocalSpawnWithIdExt, SpawnFailure, SpawnWithIdExt};
use std::rc::Rc;
use std::task::{Context, Poll};

#[test]
fn spawning_fails_once_the_pool_is_gone() {
    let pool = LocalPool::new();
    let spawner = pool.spawner();
    assert_eq!(spawner.spawn_local(ready(())), Ok(0));
    drop(pool);
    assert_eq!(spawner.spawn_local(ready(())), Err(SpawnFailure::Shutdown));
    assert_eq!(spawner.clone().spawn(ready(())), Err(SpawnFailure::Shutdown));
    assert!(matches!(spawner.spawn_with_handle(ready(1)), Err(SpawnFailure::Shutdown)));
    assert!(matches!(spawner.spawn_local_with_handle(ready(1)), Err(SpawnFailure::Shutdown)));
    assert!(spawner.status().is_err());
    assert!(spawner.status_local().is_err());
    assert!(spawner.spawn_obj(Box::new(ready(())).into()).unwrap_err().is_shutdown());
    assert!(spawner.spawn_local_obj(Box::new(ready(())).into()).unwrap_err().is_shutdown());
}

#[test]
fn tasks_go_with_the_pool() {
    let mut pool = LocalPool::new();
    let spawner = pool.spawner();
    let waker = noop_waker();
    let mut cx = Context::from_waker(&waker);
    let token = Rc::new(());
    for _ in 0..2 {
        let (token, spawner) = (token.clone(), spawner.clone());
        spawner
            .clone()
            .spawn_local(async move {
                pending::<()>().await;
                drop((token, spawner));
            })
            .unwrap();
        assert_eq!(pool.try_run_one(&mut cx), Poll::Pending);
    }
    let waits = token.clone();
    spawner.spawn_local(async move { drop(waits) }).unwrap();
    assert_eq!(Rc::strong_count(&token), 4);
    drop(pool);
    assert_eq!(Rc::strong_count(&token), 1);
}

#[test]
fn failures_tell_their_reason() {
    assert!(SpawnFailure::Shutdown.is_shutdown());
    assert!(!SpawnFailure::Exhausted.is_shutdown());
}

#[test]
fn a_queue_numbers_its_tasks() {
    let mut incoming = IncomingTracking::default();
    assert!(incoming.is_empty());
    assert_eq!(incoming.push('a'), 0);
    assert_eq!(incoming.spawn('b'), Ok(1));
    assert!(!incoming.is_empty());
    assert_eq!(incoming.index(), 2);
    assert_eq!(incoming.drain(), vec![(0, 'a'), (1, 'b')]);
    assert!(incoming.is_empty());
    assert_eq!(incoming.push('c'), 2);
    assert_eq!(incoming.drain(), vec![(2, 'c')]);
    assert_eq!(incoming.drain(), vec![]);
    assert_eq!(incoming.index(), 3);
}

#[test]
fn identifiers_run_out() {
    let mut incoming = IncomingTracking::starting_at(usize::MAX - 1);
    assert_eq!(incoming.spawn('a'), Ok(usize::MAX - 1));
    assert_eq!(incoming.spawn('b'), Err(SpawnFailure::Exhausted));
    assert_eq!(incoming.index(), usize::MAX);
    assert_eq!(incoming.drain(), vec![(usize::MAX - 1, 'a')]);
}

#[test]
fn a_batch_collects_for_its_taker() {
    let batch = Batch::open(5);
    let shared = batch.share();
    assert_eq!(shared.spawn(Box::new(ready(())).into()), Ok(5));
    assert_eq!(batch.spawn(Box::new(ready(())).into()), Ok(6));
    let mut taken = batch.take();
    assert_eq!(taken.index(), 7);
    let ids: Vec<usize> = taken.drain().into_iter().map(|(id, _)| id).collect();
    assert_eq!(ids, vec![5, 6]);
    assert!(shared.take().is_empty());
}

#[test]
fn spawning_goes_to_the_open_batch() {
    let first = Batch::open(3);
    let incoming = Rc::new(Incoming::new(first.share()));
    assert_eq!(incoming.spawn(Box::new(ready(())).into()), Ok(3));
    let second = Batch::open(4);
    incoming.install(second.share());
    assert_eq!(spawn_onto(Some(incoming.clone()), Box::new(ready(())).into()), Ok(4));
    assert_eq!(first.take().index(), 4);
    assert_eq!(second.take().index(), 5);
    assert_eq!(status_of(Some(incoming)), Ok(()));
    assert_eq!(spawn_onto(None, Box::new(ready(())).into()), Err(SpawnFailure::Shutdown));
    assert_eq!(status_of(None), Err(SpawnFailure::Shutdown));
}
