//! Handles that spawn tasks onto a pool.
use crate::error::SpawnFailure;
use crate::incoming::{referred, Incoming, IncomingRef};
use crate::task::Task;
use futures::future::{FutureExt, FutureObj, LocalFutureObj, Remote, RemoteHandle};
use futures::task::{LocalSpawn, Spawn};
use std::future::Future;
use std::rc::Rc;
use vstd::future::FutureAdditionalSpecFns;
use vstd::prelude::*;

verus! {

/// `futures::future::FutureObj`: a boxed future that may be sent to another thread.
#[verifier::external_type_specification]
#[verifier::external_body]
#[verifier::reject_recursive_types(T)]
pub struct ExFutureObj<'a, T>(futures::future::FutureObj<'a, T>);

/// `futures::future::RemoteHandle`: a future that resolves to the output of another.
#[verifier::external_type_specification]
#[verifier::external_body]
#[verifier::reject_recursive_types(T)]
pub struct ExRemoteHandle<T>(futures::future::RemoteHandle<T>);

/// `futures::future::Remote`: a future that sends its output to a handle.
#[verifier::external_type_specification]
#[verifier::external_body]
#[verifier::reject_recursive_types(Fut)]
pub struct ExRemote<Fut: Future>(futures::future::Remote<Fut>);

/// `futures::task::SpawnError`: the error of the `futures` traits.
#[verifier::external_type_specification]
#[verifier::external_body]
pub struct ExSpawnError(futures::task::SpawnError);

/// The task that a boxed future is as one that stays on its thread.
pub uninterp spec fn localized(future: FutureObj<'static, ()>) -> LocalFutureObj<'static, ()>;

/// `From<FutureObj>` for `LocalFutureObj`: the task that [`localized`] names, which is the same
/// future. Of the future itself nothing is said.
#[verifier::external_body]
fn localize(future: FutureObj<'static, ()>) -> (task: Task)
    ensures
        task == localized(future),
{
    LocalFutureObj::from(future)
}

/// `FutureObj::new` on a box with the future. Nothing is said of the boxed future: a name for it
/// would have to be one for every type of future. What a caller makes of the box is told by
/// [`boxes`].
#[verifier::external_body]
fn boxed<Fut>(future: Fut) -> FutureObj<'static, ()> where
    Fut: Future<Output = ()> + Send + 'static,
 {
    FutureObj::new(Box::new(future))
}

/// `LocalFutureObj::new` on a box with the future. Nothing is said of the boxed future, as with
/// [`boxed`]; what a caller makes of the box is told by [`boxes_locally`].
#[verifier::external_body]
fn boxed_local<Fut>(future: Fut) -> LocalFutureObj<'static, ()> where
    Fut: Future<Output = ()> + 'static,
 {
    LocalFutureObj::new(Box::new(future))
}

/// `FutureExt::remote_handle`: a future that runs `future`, and a handle that resolves to what
/// `future` does. Of when they resolve nothing is said.
#[verifier::external_body]
fn remote<Fut>(future: Fut) -> (pair: (Remote<Fut>, RemoteHandle<Fut::Output>)) where
    Fut: Future + 'static,

    ensures
        pair.1@ == future@,
{
    future.remote_handle()
}

/// `task` is `future` in a box: [`boxed`] makes it of `future`.
pub closed spec fn boxes<Fut>(future: Fut, task: FutureObj<'static, ()>) -> bool where
    Fut: Future<Output = ()> + Send + 'static,
 {
    call_ensures(boxed::<Fut>, (future,), task)
}

/// `task` is `future` in a box: [`boxed_local`] makes it of `future`.
pub closed spec fn boxes_locally<Fut>(future: Fut, task: LocalFutureObj<'static, ()>) -> bool where
    Fut: Future<Output = ()> + 'static,
 {
    call_ensures(boxed_local::<Fut>, (future,), task)
}

/// `pair` is a future that runs `future`, and the handle of that very one: [`remote`] makes both of
/// `future`.
pub closed spec fn remotes<Fut>(future: Fut, pair: (Remote<Fut>, RemoteHandle<Fut::Output>)) -> bool where
    Fut: Future + 'static,
 {
    call_ensures(remote::<Fut>, (future,), pair)
}

/// `SpawnError::shutdown`, the one value of its type.
#[verifier::external_body]
fn shutdown() -> futures::task::SpawnError {
    futures::task::SpawnError::shutdown()
}

/// Spawning `task` returns `spawned`, where `pool` is what there is left of the pool's end.
pub open spec fn spawns_onto(
    pool: Option<Rc<Incoming>>,
    task: Task,
    spawned: Result<usize, SpawnFailure>,
) -> bool {
    match pool {
        Some(incoming) => {
            &&& incoming.spawns(task, spawned)
            &&& incoming.spawns_at(task, spawned, 0)
        },
        None => spawned == Err::<usize, _>(SpawnFailure::Shutdown),
    }
}

/// What spawning `task` comes to, where `pool` is what there is left of the pool's end.
pub fn spawn_onto(pool: Option<Rc<Incoming>>, task: Task) -> (spawned: Result<usize, SpawnFailure>)
    ensures
        spawns_onto(pool, task, spawned),
        match pool {
            Some(_) => match spawned {
                Ok(id) => id < usize::MAX,
                Err(error) => error is Exhausted,
            },
            None => spawned == Err::<usize, _>(SpawnFailure::Shutdown),
        },
{
    if let Some(incoming) = pool {
        incoming.spawn(task)
    } else {
        Err(SpawnFailure::Shutdown)
    }
}

/// Whether tasks can be spawned, where `pool` is what there is left of the pool's end.
pub fn status_of(pool: Option<Rc<Incoming>>) -> (status: Result<(), SpawnFailure>)
    ensures
        status == (match pool {
            Some(_) => Ok(()),
            None => Err(SpawnFailure::Shutdown),
        }),
{
    if pool.is_some() {
        Ok(())
    } else {
        Err(SpawnFailure::Shutdown)
    }
}

/// A handle to a [`LocalPool`](crate::pool::LocalPool) that implements [`Spawn`].
#[derive(Debug)]
pub struct LocalSpawner {
    incoming: IncomingRef,
}

impl LocalSpawner {
    /// What the handle shares with its pool.
    pub closed spec fn queue(&self) -> Incoming {
        referred(self.incoming)
    }

    /// An attempt to get at the pool's end gives `pool`: [`IncomingRef::upgrade`] returns it.
    pub closed spec fn upgrades_to(&self, pool: Option<Rc<Incoming>>) -> bool {
        call_ensures(IncomingRef::upgrade, (&self.incoming,), pool)
    }

    /// The attempt gives `pool`, which is the pool's end if it is anything.
    pub open spec fn reaches(&self, pool: Option<Rc<Incoming>>) -> bool {
        &&& self.upgrades_to(pool)
        &&& pool matches Some(incoming) ==> *incoming == self.queue()
    }

    /// A handle to the pool that shares `incoming`.
    pub(crate) fn new(incoming: &Rc<Incoming>) -> (spawner: LocalSpawner)
        ensures
            spawner.queue() == **incoming,
    {
        LocalSpawner { incoming: IncomingRef::downgrade(incoming) }
    }
}

impl Clone for LocalSpawner {
    fn clone(&self) -> (spawner: LocalSpawner)
        ensures
            spawner.queue() == self.queue(),
    {
        LocalSpawner { incoming: self.incoming.share() }
    }
}

impl Spawn for LocalSpawner {
    /// Spawns as [`spawn_obj_with_id`](SpawnWithId::spawn_obj_with_id) does. The one error that there
    /// is here, that of a pool which is gone, also stands for a pool that has no identifiers left.
    fn spawn_obj(&self, future: FutureObj<'static, ()>) -> (spawned: Result<
        (),
        futures::task::SpawnError,
    >)
        ensures
            exists|with_id: Result<usize, SpawnFailure>| #[trigger]
                call_ensures(LocalSpawner::spawn_obj_with_id, (self, future), with_id) && (spawned
                    is Ok <==> with_id is Ok),
    {
        match self.spawn_obj_with_id(future) {
            Ok(_) => Ok(()),
            Err(_) => Err(shutdown()),
        }
    }

    /// Does what [`status_of`] says of the pool, if there still is one. Whether there is is not known
    /// here.
    fn status(&self) -> (status: Result<(), futures::task::SpawnError>)
        ensures
            exists|pool: Option<Rc<Incoming>>| #[trigger]
                self.reaches(pool) && (status is Ok <==> pool is Some),
    {
        let pool = self.incoming.upgrade();
        assert(self.reaches(pool));
        match status_of(pool) {
            Ok(_) => Ok(()),
            Err(_) => Err(shutdown()),
        }
    }
}

impl LocalSpawn for LocalSpawner {
    /// Spawns as [`spawn_local_obj_with_id`](LocalSpawnWithId::spawn_local_obj_with_id) does. The one
    /// error that there is here, that of a pool which is gone, also stands for a pool that has no
    /// identifiers left.
    fn spawn_local_obj(&self, future: LocalFutureObj<'static, ()>) -> (spawned: Result<
        (),
        futures::task::SpawnError,
    >)
        ensures
            exists|with_id: Result<usize, SpawnFailure>| #[trigger]
                call_ensures(LocalSpawner::spawn_local_obj_with_id, (self, future), with_id) && (
                spawned is Ok <==> with_id is Ok),
    {
        match self.spawn_local_obj_with_id(future) {
            Ok(_) => Ok(()),
            Err(_) => Err(shutdown()),
        }
    }

    /// Does what [`status_of`] says of the pool, if there still is one. Whether there is is not known
    /// here.
    fn status_local(&self) -> (status: Result<(), futures::task::SpawnError>)
        ensures
            exists|pool: Option<Rc<Incoming>>| #[trigger]
                self.reaches(pool) && (status is Ok <==> pool is Some),
    {
        let pool = self.incoming.upgrade();
        assert(self.reaches(pool));
        match status_of(pool) {
            Ok(_) => Ok(()),
            Err(_) => Err(shutdown()),
        }
    }
}

impl SpawnWithId for LocalSpawner {
    /// Does what [`spawn_onto`] says of the pool, if there still is one. Whether there is, and how far
    /// its identifiers have got, is not known here.
    fn spawn_obj_with_id(&self, future: FutureObj<'static, ()>) -> (spawned: Result<
        usize,
        SpawnFailure,
    >)
        ensures
            spawned matches Ok(id) ==> id < usize::MAX,
            exists|pool: Option<Rc<Incoming>>| #[trigger]
                self.reaches(pool) && spawns_onto(pool, localized(future), spawned),
    {
        let pool = self.incoming.upgrade();
        assert(self.reaches(pool));
        spawn_onto(pool, localize(future))
    }
}

impl LocalSpawnWithId for LocalSpawner {
    /// Does what [`spawn_onto`] says of the pool, if there still is one. Whether there is, and how far
    /// its identifiers have got, is not known here.
    fn spawn_local_obj_with_id(&self, future: LocalFutureObj<'static, ()>) -> (spawned: Result<
        usize,
        SpawnFailure,
    >)
        ensures
            spawned matches Ok(id) ==> id < usize::MAX,
            exists|pool: Option<Rc<Incoming>>| #[trigger]
                self.reaches(pool) && spawns_onto(pool, future, spawned),
    {
        let pool = self.incoming.upgrade();
        assert(self.reaches(pool));
        spawn_onto(pool, future)
    }
}

/// Spawns boxed tasks and tells their identifiers.
pub trait SpawnWithId {
    /// Spawns a future that will be run to completion, and returns its identifier.
    fn spawn_obj_with_id(&self, future: FutureObj<'static, ()>) -> Result<usize, SpawnFailure>;
}

/// Spawns boxed tasks that need not be `Send`, and tells their identifiers.
pub trait LocalSpawnWithId {
    /// Spawns a future that will be run to completion, and returns its identifier.
    fn spawn_local_obj_with_id(&self, future: LocalFutureObj<'static, ()>) -> Result<
        usize,
        SpawnFailure,
    >;
}

impl<Sp: ?Sized> SpawnWithIdExt for Sp where Sp: SpawnWithId {

}

impl<Sp: ?Sized> LocalSpawnWithIdExt for Sp where Sp: LocalSpawnWithId {

}

/// What was spawned, without the handle.
pub open spec fn without_handle<T>(
    spawned: Result<(usize, RemoteHandle<T>), SpawnFailure>,
) -> Result<usize, SpawnFailure> {
    match spawned {
        Ok((id, _)) => Ok(id),
        Err(error) => Err(error),
    }
}

/// Extension trait for [`SpawnWithId`].
pub trait SpawnWithIdExt: SpawnWithId {
    /// Spawns a task that polls the given future with output `()` to completion.
    ///
    /// This method returns a [`Result`] that contains a [`SpawnFailure`] if spawning fails.
    ///
    /// You can use [`spawn_with_handle`](SpawnWithIdExt::spawn_with_handle) if you want to spawn a
    /// future with output other than `()` or if you want to be able to await its completion.
    fn spawn<Fut>(&self, future: Fut) -> (spawned: Result<usize, SpawnFailure>) where
        Fut: Future<Output = ()> + Send + 'static,

        ensures
            exists|task: FutureObj<'static, ()>| #[trigger]
                call_ensures(Self::spawn_obj_with_id, (self, task), spawned) && boxes(future, task),
    {
        self.spawn_obj_with_id(boxed(future))
    }

    /// Spawns a task that polls the given future to completion and returns, beside its identifier, a
    /// future that resolves to the spawned future's output.
    ///
    /// This method returns a [`Result`] that contains a [`RemoteHandle`], or, if spawning fails, a
    /// [`SpawnFailure`]. [`RemoteHandle`] is a future that resolves to the output of the spawned
    /// future.
    fn spawn_with_handle<Fut>(&self, future: Fut) -> (spawned: Result<
        (usize, RemoteHandle<Fut::Output>),
        SpawnFailure,
    >) where Fut: Future + Send + 'static, Fut::Output: Send
        ensures
            exists|pair: (Remote<Fut>, RemoteHandle<Fut::Output>), task: FutureObj<'static, ()>|
                {
                    &&& #[trigger] remotes(future, pair)
                    &&& #[trigger] boxes(pair.0, task)
                    &&& call_ensures(
                        Self::spawn_obj_with_id,
                        (self, task),
                        without_handle(spawned),
                    )
                    &&& match spawned {
                        Ok((id, _)) => call_ensures(
                            Self::spawn_obj_with_id,
                            (self, task),
                            Ok::<usize, SpawnFailure>(id),
                        ),
                        Err(error) => call_ensures(
                            Self::spawn_obj_with_id,
                            (self, task),
                            Err::<usize, SpawnFailure>(error),
                        ),
                    }
                    &&& spawned matches Ok((_, handle)) ==> handle == pair.1
                },
            spawned matches Ok((_, handle)) ==> handle@ == future@,
    {
        let pair = remote(future);
        assert(remotes(future, pair));
        let (future, handle) = pair;
        match self.spawn(future) {
            Ok(id) => Ok((id, handle)),
            Err(error) => Err(error),
        }
    }
}

/// Extension trait for [`LocalSpawnWithId`].
pub trait LocalSpawnWithIdExt: LocalSpawnWithId {
    /// Spawns a task that polls the given future with output `()` to completion.
    ///
    /// This method returns a [`Result`] that contains a [`SpawnFailure`] if spawning fails.
    ///
    /// You can use [`spawn_local_with_handle`](LocalSpawnWithIdExt::spawn_local_with_handle) if you
    /// want to spawn a future with output other than `()` or if you want to be able to await its
    /// completion.
    fn spawn_local<Fut>(&self, future: Fut) -> (spawned: Result<usize, SpawnFailure>) where
        Fut: Future<Output = ()> + 'static,

        ensures
            exists|task: LocalFutureObj<'static, ()>| #[trigger]
                call_ensures(Self::spawn_local_obj_with_id, (self, task), spawned) && boxes_locally(future, task),
    {
        self.spawn_local_obj_with_id(boxed_local(future))
    }

    /// Spawns a task that polls the given future to completion and returns, beside its identifier, a
    /// future that resolves to the spawned future's output.
    ///
    /// This method returns a [`Result`] that contains a [`RemoteHandle`], or, if spawning fails, a
    /// [`SpawnFailure`]. [`RemoteHandle`] is a future that resolves to the output of the spawned
    /// future.
    fn spawn_local_with_handle<Fut>(&self, future: Fut) -> (spawned: Result<
        (usize, RemoteHandle<Fut::Output>),
        SpawnFailure,
    >) where Fut: Future + 'static
        ensures
            exists|pair: (Remote<Fut>, RemoteHandle<Fut::Output>), task: LocalFutureObj<'static, ()>|
                {
                    &&& #[trigger] remotes(future, pair)
                    &&& #[trigger] boxes_locally(pair.0, task)
                    &&& call_ensures(
                        Self::spawn_local_obj_with_id,
                        (self, task),
                        without_handle(spawned),
                    )
                    &&& match spawned {
                        Ok((id, _)) => call_ensures(
                            Self::spawn_local_obj_with_id,
                            (self, task),
                            Ok::<usize, SpawnFailure>(id),
                        ),
                        Err(error) => call_ensures(
                            Self::spawn_local_obj_with_id,
                            (self, task),
                            Err::<usize, SpawnFailure>(error),
                        ),
                    }
                    &&& spawned matches Ok((_, handle)) ==> handle == pair.1
                },
            spawned matches Ok((_, handle)) ==> handle@ == future@,
    {
        let pair = remote(future);
        assert(remotes(future, pair));
        let (future, handle) = pair;
        match self.spawn_local(future) {
            Ok(id) => Ok((id, handle)),
            Err(error) => Err(error),
        }
    }
}

} // verus!
