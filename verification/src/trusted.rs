// The outside types the dispatcher is built from and the calls into them.
// What is marked `external_body` is not proved: each such contract restates
// what the outside function's source shows, and every proof in the crate
// rests on these statements. Two small types stand beside the calls whose
// arguments they fence: their fields are private to this file, so that a
// value of them can only come from the function that is named with them.

use vstd::prelude::*;
use core::marker::PhantomData;
use hashbrown::HashMap;
use shred::{ResourceId, World};
use std::sync::Arc;
use tokio::sync::lock::{Lock, LockGuard};

verus! {

/// `tokio::sync::lock::Lock`: a handle to an asynchronous mutual-exclusion
/// primitive. Clones are handles to the same primitive. In contracts the
/// value of a `Lock` stands for the primitive it is a handle of: two handles
/// are equal when they are handles of one lock, whatever either of them is
/// queued for.
#[verifier::external_type_specification]
#[verifier::external_body]
#[verifier::reject_recursive_types(T)]
pub struct ExLock<T>(Lock<T>);

/// `tokio::sync::lock::LockGuard`: the lock is held for as long as the guard
/// lives and is released when the guard is dropped.
#[verifier::external_type_specification]
#[verifier::external_body]
#[verifier::reject_recursive_types(T)]
pub struct ExLockGuard<T>(LockGuard<T>);

/// `shred::ResourceId`: the identity of one resource type. Two ids are equal
/// exactly when they name the same resource.
#[verifier::external_type_specification]
#[verifier::external_body]
pub struct ExResourceId(ResourceId);

/// `shred::World`: the store that holds the resource values themselves.
#[verifier::external_type_specification]
#[verifier::external_body]
pub struct ExWorld(World);

/// The per-resource lock table, a `hashbrown::HashMap` from resource id to
/// lock. To declare the map itself the verifier asks for the hasher behind
/// the map's default hash builder, a type that is private to the map's
/// crate. So the map is kept behind this struct and only reached through the
/// functions below.
#[verifier::external_body]
pub struct LockTable {
    locks: HashMap<ResourceId, Lock<()>>,
}

/// The ids that have a lock in the table.
pub uninterp spec fn registered_ids(table: LockTable) -> Set<ResourceId>;

/// The lock that the table holds under `id`. It says nothing of an id
/// without an entry.
pub uninterp spec fn lock_under(table: LockTable, id: ResourceId) -> Lock<()>;

/// The lock that a guard keeps taken.
pub uninterp spec fn guarded_lock(guard: LockGuard<()>) -> Lock<()>;

/// `HashMap::new`: a table without entries.
#[verifier::external_body]
pub(crate) fn lock_table_new() -> (table: LockTable)
    ensures
        registered_ids(table) == Set::<ResourceId>::empty(),
{
    LockTable { locks: HashMap::new() }
}

/// `HashMap::insert`: afterwards the table has an entry for `id`, beside the
/// entries it had, and holds `lock` under it. An earlier lock under the same
/// id is replaced; what stands under the other ids stays.
#[verifier::external_body]
pub(crate) fn lock_table_insert(table: &mut LockTable, id: ResourceId, lock: Lock<()>)
    ensures
        registered_ids(*final(table)) == registered_ids(*old(table)).insert(id),
        lock_under(*final(table), id) == lock,
        forall|other: ResourceId|
            other != id ==> #[trigger] lock_under(*final(table), other) == lock_under(
                *old(table),
                other,
            ),
{
    table.locks.insert(id, lock);
}

/// `HashMap::get`: the lock that the table holds under `id`, present exactly
/// when the table has an entry for it.
#[verifier::external_body]
pub(crate) fn lock_table_get<'a>(table: &'a LockTable, id: &ResourceId) -> (found: Option<
    &'a Lock<()>,
>)
    ensures
        found is Some <==> registered_ids(*table).contains(*id),
        found matches Some(lock) ==> *lock == lock_under(*table, *id),
{
    table.locks.get(id)
}

/// `Lock::new`: a fresh lock that nobody holds. Nothing is stated of it.
#[verifier::external_body]
pub(crate) fn new_lock() -> (lock: Lock<()>) {
    Lock::new(())
}

/// `Lock::clone`: a second handle to the same lock, holding nothing. The
/// clone shares the state of its source and starts with a permit of its own.
#[verifier::external_body]
pub(crate) fn clone_lock(lock: &Lock<()>) -> (handle: Lock<()>)
    ensures
        handle == *lock,
{
    lock.clone()
}

/// `Lock::poll_lock`: tries to take the lock without blocking. `Some` carries
/// the guard; `None` means the lock is held elsewhere and the running task
/// has been registered to be woken on release. Whether the lock is free
/// depends on the other holders, so nothing is promised of the answer.
///
/// When the lock is busy the outside function asks for the running task and
/// panics if there is none. That is why the call takes a `TaskContext`: the
/// caller has one only if `in_task` has just answered `true`.
///
/// The handle stays a handle of the same lock, and a guard that comes back
/// is a guard of that lock: the outside function builds it from a clone of
/// the handle's shared state.
#[verifier::external_body]
pub(crate) fn poll_lock(lock: &mut Lock<()>, context: &TaskContext) -> (guard: Option<
    LockGuard<()>,
>)
    ensures
        *final(lock) == *old(lock),
        guard matches Some(held) ==> guarded_lock(held) == *old(lock),
{
    match lock.poll_lock() {
        futures::Async::Ready(guard) => Some(guard),
        futures::Async::NotReady => None,
    }
}

/// `futures::task::is_in_task`: whether the calling thread is polling a task
/// right now. The answer depends on the caller's surroundings.
#[verifier::external_body]
fn in_task() -> (inside: bool) {
    futures::task::is_in_task()
}

/// Evidence that the caller is being polled as a task. It is made by
/// `TaskContext::current` alone, lives for one poll, and cannot be copied.
pub struct TaskContext {
    inside: bool,
}

impl TaskContext {
    /// The evidence, if the caller is being polled as a task right now.
    /// Verified: it asks `in_task` and does nothing else.
    pub(crate) fn current() -> (context: Option<TaskContext>) {
        if in_task() {
            Some(TaskContext { inside: true })
        } else {
            None
        }
    }
}

/// `<ResourceId as Clone>::clone`: the derived clone, equal to its source.
#[verifier::external_body]
pub(crate) fn clone_resource_id(id: &ResourceId) -> (copy: ResourceId)
    ensures
        copy == *id,
{
    id.clone()
}

/// The id of the resource type `R`. It is made by `resource_id_of::<R>`
/// alone, so it never names another type than `R`.
pub struct TypedResourceId<R> {
    id: ResourceId,
    resource: PhantomData<R>,
}

impl<R> TypedResourceId<R> {
    /// The id itself.
    pub closed spec fn id(self) -> ResourceId {
        self.id
    }

    /// The id itself. Verified: it clones the id and does nothing else.
    pub(crate) fn untyped(&self) -> (id: ResourceId)
        ensures
            id == self.id(),
    {
        clone_resource_id(&self.id)
    }
}

/// `ResourceId::new`: the id of the resource type `R`.
#[verifier::external_body]
pub(crate) fn resource_id_of<R: Send + Sync + 'static>() -> (id: TypedResourceId<R>) {
    TypedResourceId { id: ResourceId::new::<R>(), resource: PhantomData }
}

/// The ids under which the store holds a resource.
pub uninterp spec fn stored_ids(world: World) -> Set<ResourceId>;

/// `World::empty`: a store without resources.
#[verifier::external_body]
pub(crate) fn world_empty() -> (world: World)
    ensures
        stored_ids(world) == Set::<ResourceId>::empty(),
{
    World::empty()
}

/// `World::insert_by_id`: files `r` under `id`, replacing an earlier value
/// under that id. Afterwards the store holds a resource under `id`, beside
/// those it held. The outside function panics on an id of another type than
/// `R`; an id of the type taken here is the id of `R`.
#[verifier::external_body]
pub(crate) fn world_insert<R: Send + Sync + 'static>(
    world: &mut World,
    id: TypedResourceId<R>,
    r: R,
)
    ensures
        stored_ids(*final(world)) == stored_ids(*old(world)).insert(id.id()),
{
    world.insert_by_id(id.id, r);
}

/// `Arc::try_unwrap`: the inner value when `shared` is the only strong
/// reference, otherwise the same `Arc` back. Which one depends on who else
/// holds a reference.
#[verifier::external_body]
pub(crate) fn arc_try_unwrap<T>(shared: Arc<T>) -> (r: Result<T, Arc<T>>)
    ensures
        match r {
            Ok(value) => value == shared,
            Err(still_shared) => still_shared == shared,
        },
{
    Arc::try_unwrap(shared)
}

} // verus!
