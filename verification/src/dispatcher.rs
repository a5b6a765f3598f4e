use vstd::prelude::*;
use shred::{ResourceId, World};
use std::sync::atomic::{AtomicBool, AtomicUsize, Ordering};
use std::sync::Arc;
use tokio::sync::lock::Lock;
use crate::acquire_resources::AcquiredResourcesLockGuards;
use crate::trusted::{
    arc_try_unwrap, lock_table_get, lock_table_insert, lock_table_new, lock_under, new_lock,
    registered_ids, resource_id_of, stored_ids, world_empty, world_insert, LockTable,
};

verus! {

/// Collects the resources that will exist while the dispatcher runs. Every
/// inserted resource gets a lock of its own.
pub struct DispatcherBuilder {
    world: World,
    resource_locks: LockTable,
}

impl DispatcherBuilder {
    // One lock per stored resource: no lock without a resource and no
    // resource without a lock.
    #[verifier::type_invariant]
    spec fn one_lock_per_resource(&self) -> bool {
        registered_ids(self.resource_locks) == stored_ids(self.world)
    }

    /// The ids that have a lock so far.
    pub closed spec fn registered(&self) -> Set<ResourceId> {
        registered_ids(self.resource_locks)
    }

    /// The resource store as filled so far.
    pub closed spec fn store(&self) -> World {
        self.world
    }

    /// The lock registered under `id`.
    pub closed spec fn lock_of(&self, id: ResourceId) -> Lock<()> {
        lock_under(self.resource_locks, id)
    }

    /// A builder with an empty store and no lock.
    pub fn new() -> (builder: Self)
        ensures
            builder.registered() == Set::<ResourceId>::empty(),
            stored_ids(builder.store()) == Set::<ResourceId>::empty(),
    {
        DispatcherBuilder { world: world_empty(), resource_locks: lock_table_new() }
    }

    /// Files `r` in the store under the id of its type and registers a lock
    /// under the same id. What was stored and registered before stays, and
    /// the stored resources and the locks stay one to one.
    pub fn insert<R: Send + Sync + 'static>(self, r: R) -> (builder: Self)
        ensures
            exists|id: ResourceId|
                {
                    &&& builder.registered() == #[trigger] self.registered().insert(id)
                    &&& stored_ids(builder.store()) == stored_ids(self.store()).insert(id)
                },
            builder.registered() == stored_ids(builder.store()),
    {
        let (builder, id) = self.register(r);
        assert(builder.registered() == self.registered().insert(id));
        builder
    }

    /// Like `insert`, and tells under which id the resource was filed and
    /// the lock registered: the id that a task has to declare to be given
    /// `r`.
    pub fn register<R: Send + Sync + 'static>(self, r: R) -> (registered: (Self, ResourceId))
        ensures
            registered.0.registered() == self.registered().insert(registered.1),
            stored_ids(registered.0.store()) == stored_ids(self.store()).insert(registered.1),
            registered.0.registered() == stored_ids(registered.0.store()),
            forall|other: ResourceId|
                other != registered.1 ==> #[trigger] registered.0.lock_of(other) == self.lock_of(
                    other,
                ),
    {
        proof {
            use_type_invariant(&self);
        }
        let DispatcherBuilder { world, resource_locks } = self;
        let mut world = world;
        let mut resource_locks = resource_locks;
        let typed = resource_id_of::<R>();
        let id = typed.untyped();
        // The lock could be made when the resource is first asked for, but
        // the table would then have to change while tasks share it.
        lock_table_insert(&mut resource_locks, typed.untyped(), new_lock());
        world_insert(&mut world, typed, r);
        (DispatcherBuilder { world, resource_locks }, id)
    }

    /// The dispatcher over exactly the resources inserted: it owns the
    /// builder's store and has the builder's locks, one per stored resource.
    /// Nothing can be registered afterwards.
    pub fn build(self) -> (dispatcher: Dispatcher)
        ensures
            dispatcher.registered() == self.registered(),
            dispatcher.store() == self.store(),
            dispatcher.registered() == stored_ids(dispatcher.store()),
            forall|id: ResourceId| #[trigger] dispatcher.lock_of(id) == self.lock_of(id),
    {
        proof {
            use_type_invariant(&self);
        }
        Dispatcher {
            next_task_id: AtomicUsize::new(0),
            world: self.world,
            dispatch_lock: new_lock(),
            resource_locks: self.resource_locks,
            should_terminate: AtomicBool::new(false),
        }
    }
}

/// The coordination root: the resource store, one lock per registered
/// resource, the dispatch lock that serialises acquisition attempts, a
/// counter of task ids and the termination flag. Shared by reference between
/// the frame loop and every task in flight.
pub struct Dispatcher {
    next_task_id: AtomicUsize,
    world: World,
    dispatch_lock: Lock<()>,
    resource_locks: LockTable,
    should_terminate: AtomicBool,
}

impl Dispatcher {
    // One lock per stored resource, as the builder left it.
    #[verifier::type_invariant]
    spec fn one_lock_per_resource(&self) -> bool {
        registered_ids(self.resource_locks) == stored_ids(self.world)
    }

    /// The ids of the resources that have a lock. Fixed at build time.
    pub closed spec fn registered(&self) -> Set<ResourceId> {
        registered_ids(self.resource_locks)
    }

    /// The resource store the dispatcher owns.
    pub closed spec fn store(&self) -> World {
        self.world
    }

    /// The lock that serialises acquisition attempts.
    pub closed spec fn dispatch(&self) -> Lock<()> {
        self.dispatch_lock
    }

    /// The lock registered under `id`.
    pub closed spec fn lock_of(&self, id: ResourceId) -> Lock<()> {
        lock_under(self.resource_locks, id)
    }

    /// The locks registered under `ids`, in their order.
    pub open spec fn locks_of(&self, ids: Seq<ResourceId>) -> Seq<Lock<()>> {
        Seq::new(ids.len(), |i: int| self.lock_of(ids[i]))
    }

    pub(crate) fn dispatch_lock(&self) -> (lock: &Lock<()>)
        ensures
            *lock == self.dispatch(),
    {
        &self.dispatch_lock
    }

    pub(crate) fn resource_locks(&self) -> (table: &LockTable)
        ensures
            registered_ids(*table) == self.registered(),
            forall|id: ResourceId| #[trigger] lock_under(*table, id) == self.lock_of(id),
    {
        &self.resource_locks
    }

    /// A task id for diagnostics. Ids are handed out by a relaxed atomic
    /// increment; they carry no ordering.
    pub(crate) fn take_task_id(&self) -> usize {
        self.next_task_id.fetch_add(1, Ordering::Relaxed)
    }

    /// Asks the frame loop to stop. The request is seen at the next frame
    /// boundary; asking twice changes nothing.
    pub fn end_game_loop(&self) {
        self.should_terminate.swap(true, Ordering::Release);
    }

    /// Whether termination has been requested.
    pub fn termination_requested(&self) -> bool {
        self.should_terminate.load(Ordering::Acquire)
    }

    /// Whether `id` has a lock.
    pub fn has_lock(&self, id: &ResourceId) -> (found: bool)
        ensures
            found == self.registered().contains(*id),
    {
        lock_table_get(&self.resource_locks, id).is_some()
    }

    /// Whether every id in `ids` has a lock.
    pub fn has_locks(&self, ids: &Vec<ResourceId>) -> (all: bool)
        ensures
            all == forall|i: int|
                0 <= i < ids@.len() ==> self.registered().contains(#[trigger] ids@[i]),
    {
        let mut i: usize = 0;
        while i < ids.len()
            invariant
                i <= ids@.len(),
                forall|j: int| 0 <= j < i ==> self.registered().contains(#[trigger] ids@[j]),
            decreases ids@.len() - i,
        {
            if !self.has_lock(&ids[i]) {
                return false;
            }
            i += 1;
        }
        true
    }

    /// The resource store. It holds a resource under exactly the ids that
    /// have a lock. Access to a resource is only valid while a guard bundle
    /// that covers it is alive.
    pub fn world(&self) -> (world: &World)
        ensures
            *world == self.store(),
            stored_ids(*world) == self.registered(),
    {
        proof {
            use_type_invariant(self);
        }
        &self.world
    }

    /// Runs the body of a task against the resource store and hands the task
    /// back. The caller holds a guard bundle of the task that was taken from
    /// the locks of this dispatcher; it is borrowed for the whole call, and
    /// the caller lets go of it afterwards. `run_now` is the task's run
    /// operation.
    #[allow(unused_variables)]
    pub fn run_system<T, F>(
        &self,
        guards: &AcquiredResourcesLockGuards<T>,
        system: T,
        run_now: F,
    ) -> (finished: T) where F: FnOnce(T, &World) -> T
        requires
            guards.taken_from(*self),
            run_now.requires((system, &self.store())),
        ensures
            run_now.ensures((system, &self.store()), finished),
    {
        run_now(system, &self.world)
    }

    /// Takes the resource store back out of the dispatcher. Succeeds only
    /// when `dispatcher` is the last reference: no task and no pending
    /// acquisition may still hold one. Otherwise the dispatcher comes back
    /// untouched. The store that comes back is the dispatcher's own, with a
    /// resource under every id that had a lock and under no other.
    pub fn reclaim_world(dispatcher: Arc<Dispatcher>) -> (reclaimed: Result<World, Arc<Dispatcher>>)
        ensures
            match reclaimed {
                Ok(world) => world == dispatcher.store() && stored_ids(world)
                    == dispatcher.registered(),
                Err(still_shared) => still_shared == dispatcher,
            },
    {
        match arc_try_unwrap(dispatcher) {
            Ok(owned) => {
                proof {
                    use_type_invariant(&owned);
                }
                Ok(owned.world)
            },
            Err(still_shared) => Err(still_shared),
        }
    }
}

} // verus!
