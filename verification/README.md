# local-pool-with-id

A single-threaded executor for futures, like the `LocalPool` of the `futures` crate, that tells its
tasks apart: spawning a task returns an identifier, and running the pool reports the identifier of
the task that has completed.

The library under `src/` is verified with Verus.

- `pool`: `LocalPool`. Every task that it has seen waits, runs or has completed, and only one of
  these. What it returns is stated over the looks that it took for new tasks and over all that it did
  to the set of tasks, each of which is tied to the call that was made.
- `incoming`: the batches that spawners and the pool share, one after the other, and the counter
  behind the identifiers. However spawning and looking alternate, no identifier is returned twice and
  no task is lost. Of what a batch holds from one call to the next only its invariant is known, so
  this is proved of every sequence of calls that find what the call before them left.
- `spawner`: `LocalSpawner` and the traits to spawn with.
- `task`: tasks beside their identifiers, and the set of futures that polls them.
- `executor`: when the thread of an executor polls, when it parks and when it has stalled, and proofs
  that no wake-up is missed and that one who does not wait never parks.
- `cell`: a cell of whose contents an invariant is known.

The pool does not block. `app/` puts it on a thread: it parks the thread and takes the turns.

```rust
let mut pool = LocalPool::new();
let spawner = pool.spawner();

let (id1, handle1) = spawner.spawn_with_handle(futures::future::ready(1i32)).unwrap();
let (id2, handle2) = spawner.spawn_with_handle(futures::future::ready(2u32)).unwrap();

let waker = futures::task::noop_waker();
let mut cx = Context::from_waker(&waker);
assert_eq!(pool.try_run_one(&mut cx), Poll::Ready(Some(id1)));
assert_eq!(pool.try_run_one(&mut cx), Poll::Ready(Some(id2)));
assert_eq!(pool.try_run_one(&mut cx), Poll::Ready(None));
```
