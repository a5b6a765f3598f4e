use vstd::prelude::*;
use core::marker::PhantomData;
use shred::ResourceId;
use std::sync::Arc;
use tokio::sync::lock::{Lock, LockGuard};
use crate::dispatcher::Dispatcher;
use crate::protocol::{Task, TaskPhase};
use crate::required_resources::{RequiredResources, Requirements};
use crate::trusted::{
    clone_lock, clone_resource_id, guarded_lock, lock_table_get, poll_lock, TaskContext,
};

verus! {

/// One held resource lock, together with the id of the resource it guards.
pub struct ResourceGuard {
    id: ResourceId,
    _guard: LockGuard<()>,
}

impl ResourceGuard {
    /// The resource whose lock is held.
    pub closed spec fn resource(self) -> ResourceId {
        self.id
    }

    /// The lock that is held.
    pub closed spec fn lock(self) -> Lock<()> {
        guarded_lock(self._guard)
    }
}

// The ids of the resources that `guards` guard, in order.
fn guarded_ids(guards: &Vec<ResourceGuard>) -> (ids: Vec<ResourceId>)
    ensures
        ids@ == guarded(guards@),
{
    let mut ids: Vec<ResourceId> = Vec::new();
    let mut i: usize = 0;
    while i < guards.len()
        invariant
            i <= guards@.len(),
            ids@.len() == i,
            forall|j: int| 0 <= j < i ==> ids@[j] == (#[trigger] guards@[j]).resource(),
        decreases guards@.len() - i,
    {
        ids.push(clone_resource_id(&guards[i].id));
        i += 1;
    }
    assert(ids@ =~= guarded(guards@));
    ids
}

/// The resources guarded by `guards`, in order.
pub open spec fn guarded(guards: Seq<ResourceGuard>) -> Seq<ResourceId> {
    Seq::new(guards.len(), |i: int| guards[i].resource())
}

/// The locks that `guards` keep taken, in order.
pub open spec fn held(guards: Seq<ResourceGuard>) -> Seq<Lock<()>> {
    Seq::new(guards.len(), |i: int| guards[i].lock())
}

/// The guard bundle of a task of type `T`: the held locks of every resource
/// the task reads or writes. The locks are released when the bundle is
/// dropped, and in no other way.
pub struct AcquiredResourcesLockGuards<T> {
    _reads: Vec<ResourceGuard>,
    _writes: Vec<ResourceGuard>,
    phantom_data: PhantomData<T>,
}

impl<T> View for AcquiredResourcesLockGuards<T> {
    type V = Requirements;

    /// The resources the bundle covers.
    closed spec fn view(&self) -> Requirements {
        Requirements { reads: guarded(self._reads@), writes: guarded(self._writes@) }
    }
}

impl<T> AcquiredResourcesLockGuards<T> {
    /// The guards kept for what the task reads.
    pub closed spec fn read_guards(&self) -> Seq<ResourceGuard> {
        self._reads@
    }

    /// The guards kept for what the task writes.
    pub closed spec fn write_guards(&self) -> Seq<ResourceGuard> {
        self._writes@
    }

    /// Whether the bundle keeps a guard of `lock`.
    pub open spec fn holds_guard_of(&self, lock: Lock<()>) -> bool {
        held(self.read_guards()).contains(lock) || held(self.write_guards()).contains(lock)
    }

    /// Whether the bundle was taken from the locks of `dispatcher`: the guard
    /// kept for each resource it covers is a guard of the lock that
    /// `dispatcher` has registered under that resource.
    pub open spec fn taken_from(&self, dispatcher: Dispatcher) -> bool {
        &&& self@.reads == guarded(self.read_guards())
        &&& self@.writes == guarded(self.write_guards())
        &&& held(self.read_guards()) == dispatcher.locks_of(self@.reads)
        &&& held(self.write_guards()) == dispatcher.locks_of(self@.writes)
    }

    // The bundle of exactly the guards given.
    fn new(reads: Vec<ResourceGuard>, writes: Vec<ResourceGuard>) -> (bundle: Self)
        ensures
            bundle.read_guards() == reads@,
            bundle.write_guards() == writes@,
            bundle@.reads == guarded(reads@),
            bundle@.writes == guarded(writes@),
    {
        AcquiredResourcesLockGuards { _reads: reads, _writes: writes, phantom_data: PhantomData }
    }

    /// The resources whose locks are held for reading, in declared order.
    pub fn read_ids(&self) -> (ids: Vec<ResourceId>)
        ensures
            ids@ == self@.reads,
    {
        guarded_ids(&self._reads)
    }

    /// The resources whose locks are held for writing, in declared order.
    pub fn write_ids(&self) -> (ids: Vec<ResourceId>)
        ensures
            ids@ == self@.writes,
    {
        guarded_ids(&self._writes)
    }
}

/// Where an acquisition attempt stands between two polls.
pub enum AcquirePhase {
    /// Waiting for a turn to take locks.
    WaitForDispatch,
    /// The last attempt found this resource taken; waiting for its release.
    WaitForResource(ResourceId),
    /// The guard bundle has been handed out.
    Finished,
}

impl AcquirePhase {
    /// A phase in which an attempt may be left suspended that holds nothing:
    /// waiting for its turn, or waiting for one of the resources it declared.
    pub open spec fn suspended_on(self, required: Requirements) -> bool {
        match self {
            AcquirePhase::WaitForDispatch => true,
            AcquirePhase::WaitForResource(id) => required.names(id),
            AcquirePhase::Finished => false,
        }
    }

    /// What one poll may make of this phase. With a bundle, the bundle covers
    /// exactly what is required and the attempt is finished. Without one, the
    /// attempt is suspended: where it was, or waiting for its turn, or
    /// waiting for a resource it declared.
    pub open spec fn may_become(
        self,
        post: AcquirePhase,
        required: Requirements,
        bundle: Option<Requirements>,
    ) -> bool {
        match bundle {
            Some(covered) => covered == required && post == AcquirePhase::Finished,
            None => post == self || post.suspended_on(required),
        }
    }
}

enum AcquireResourcesState {
    // We think we can take every lock and wait for our turn to try.
    WaitForDispatch(Lock<()>),
    // A lock we need was taken; the handle is queued on that lock.
    WaitForResource(ResourceId, Lock<()>),
    // The locks were taken and handed out.
    Finished,
}

impl AcquireResourcesState {
    spec fn phase(self) -> AcquirePhase {
        match self {
            AcquireResourcesState::WaitForDispatch(_) => AcquirePhase::WaitForDispatch,
            AcquireResourcesState::WaitForResource(id, _) => AcquirePhase::WaitForResource(id),
            AcquireResourcesState::Finished => AcquirePhase::Finished,
        }
    }

    // The lock this state waits on, if it waits.
    spec fn awaited(self) -> Option<Lock<()>> {
        match self {
            AcquireResourcesState::WaitForDispatch(lock) => Some(lock),
            AcquireResourcesState::WaitForResource(_, lock) => Some(lock),
            AcquireResourcesState::Finished => None,
        }
    }

    // Polls the lock this state waits on: the dispatch lock or the lock of
    // the resource that blocked the last attempt. Whether that lock can be
    // had is for the lock to say; a guard that comes back is a guard of that
    // lock. A finished state waits on no lock: nothing is polled and there
    // is no guard. The phase and the lock waited on stay as they are.
    fn poll_awaited_lock(&mut self, context: &TaskContext) -> (guard: Option<LockGuard<()>>)
        ensures
            final(self).phase() == old(self).phase(),
            final(self).awaited() == old(self).awaited(),
            old(self).phase() == AcquirePhase::Finished ==> guard is None,
            guard matches Some(taken) ==> old(self).awaited() == Some(guarded_lock(taken)),
    {
        match self {
            AcquireResourcesState::WaitForDispatch(dispatch_lock) => poll_lock(
                dispatch_lock,
                context,
            ),
            AcquireResourcesState::WaitForResource(_, resource_lock) => poll_lock(
                resource_lock,
                context,
            ),
            AcquireResourcesState::Finished => None,
        }
    }

    fn current_phase(&self) -> (phase: AcquirePhase)
        ensures
            phase == self.phase(),
    {
        match self {
            AcquireResourcesState::WaitForDispatch(_) => AcquirePhase::WaitForDispatch,
            AcquireResourcesState::WaitForResource(id, _) => AcquirePhase::WaitForResource(
                clone_resource_id(id),
            ),
            AcquireResourcesState::Finished => AcquirePhase::Finished,
        }
    }

    fn waits_for_resource(&self) -> (waiting: bool)
        ensures
            waiting == (self.phase() is WaitForResource),
    {
        match self {
            AcquireResourcesState::WaitForResource(_, _) => true,
            _ => false,
        }
    }
}

enum TryTakeLocksResult {
    // Every lock was taken; the guards come in the order of the request.
    Success(Vec<ResourceGuard>),
    // This resource's lock was taken by somebody else. The handle is queued
    // on it and is the one to await before the next attempt.
    Failure(ResourceId, Lock<()>),
}

/// What one poll of an acquisition attempt produced.
pub enum Acquisition<T> {
    /// Every required lock is held; here is the bundle.
    Ready(AcquiredResourcesLockGuards<T>),
    /// Nothing is held. The task will be woken when it is worth trying again.
    NotReady,
    /// The caller is not running inside a task, so it could not be woken.
    /// Nothing was tried.
    NoTask,
}

/// Why an acquisition attempt refused to be polled.
pub enum AcquireError {
    /// The attempt has already handed out its bundle.
    AlreadyFinished,
    /// A required resource was never registered with the dispatcher.
    MissingLock,
}

/// An attempt to take the locks of everything a task of type `T` requires.
/// Polling it either yields the whole bundle or leaves the task holding
/// nothing.
///
/// A released lock is handed to the first attempt that waits for it. A woken
/// attempt lets go of the lock it waited for before it starts over, so with
/// several attempts waiting for one resource, the lock may be reserved for
/// the next of them by the time the woken one comes to take it. Attempts
/// that are polled strictly in turn go on like that for as long as they are
/// polled in that order.
pub struct AcquireResources<T> {
    id: usize,
    dispatcher: Arc<Dispatcher>,
    state: AcquireResourcesState,
    phantom_data: PhantomData<T>,
    required_reads: Vec<ResourceId>,
    required_writes: Vec<ResourceId>,
}

impl<T> AcquireResources<T> {
    // An attempt waits on handles of its dispatcher's locks and of no others.
    #[verifier::type_invariant]
    spec fn waits_on_own_locks(&self) -> bool {
        match self.state {
            AcquireResourcesState::WaitForDispatch(lock) => lock == self.dispatcher.dispatch(),
            AcquireResourcesState::WaitForResource(id, lock) => lock == self.dispatcher.lock_of(id),
            AcquireResourcesState::Finished => true,
        }
    }

    /// Where the attempt stands.
    pub closed spec fn phase(&self) -> AcquirePhase {
        self.state.phase()
    }

    /// The lock whose release the attempt waits for, if it waits.
    pub closed spec fn awaited(&self) -> Option<Lock<()>> {
        self.state.awaited()
    }

    /// Whether the attempt waits on the lock that its phase names: the
    /// dispatch lock of its dispatcher, or the lock that its dispatcher has
    /// registered under the resource that blocked it.
    pub open spec fn waits_on_its_lock(&self) -> bool {
        self.awaited() == match self.phase() {
            AcquirePhase::WaitForDispatch => Some(self.dispatcher().dispatch()),
            AcquirePhase::WaitForResource(id) => Some(self.dispatcher().lock_of(id)),
            AcquirePhase::Finished => None,
        }
    }

    /// What the task declared.
    pub closed spec fn required(&self) -> Requirements {
        Requirements { reads: self.required_reads@, writes: self.required_writes@ }
    }

    /// The dispatcher whose locks are taken.
    pub closed spec fn dispatcher(&self) -> Dispatcher {
        *self.dispatcher
    }

    /// The diagnostic id of the task.
    pub closed spec fn task_id(&self) -> usize {
        self.id
    }

    /// Every required resource has a lock.
    pub open spec fn well_formed(&self) -> bool {
        self.required().within(self.dispatcher().registered())
    }

    /// The relation between an attempt before and after one poll, and what
    /// the poll produced. The task, its requirements and its dispatcher never
    /// change. A bundle covers exactly the requirements, reads and writes in
    /// their declared order, with guards of the locks that the dispatcher
    /// has registered under them, and ends the attempt. Without a bundle the
    /// attempt holds nothing and is suspended, waiting on the lock that its
    /// phase names. Outside a task nothing moves.
    pub open spec fn polled(pre: Self, post: Self, outcome: Acquisition<T>) -> bool {
        &&& post.required() == pre.required()
        &&& post.dispatcher() == pre.dispatcher()
        &&& post.task_id() == pre.task_id()
        &&& post.waits_on_its_lock()
        &&& match outcome {
            Acquisition::Ready(bundle) => bundle.taken_from(pre.dispatcher())
                && pre.phase().may_become(post.phase(), pre.required(), Some(bundle@)),
            Acquisition::NotReady => pre.phase().may_become(post.phase(), pre.required(), None),
            Acquisition::NoTask => post.phase() == pre.phase(),
        }
    }

    /// A fresh attempt for `required_resources`, waiting for its turn on the
    /// dispatch lock of `dispatcher`.
    pub fn new(dispatcher: Arc<Dispatcher>, required_resources: RequiredResources<T>) -> (attempt:
        Self)
        ensures
            attempt.phase() == AcquirePhase::WaitForDispatch,
            attempt.awaited() == Some(dispatcher.dispatch()),
            attempt.required() == required_resources@,
            attempt.dispatcher() == *dispatcher,
    {
        let id: usize = dispatcher.take_task_id();
        let state = AcquireResourcesState::WaitForDispatch(clone_lock(dispatcher.dispatch_lock()));
        let (required_reads, required_writes) = required_resources.into_lists();
        AcquireResources {
            id,
            state,
            dispatcher,
            required_reads,
            required_writes,
            phantom_data: PhantomData,
        }
    }

    /// The diagnostic id of the task.
    pub fn id(&self) -> (id: usize)
        ensures
            id == self.task_id(),
    {
        self.id
    }

    /// The dispatcher whose locks are taken.
    pub fn shared_dispatcher(&self) -> (dispatcher: &Arc<Dispatcher>)
        ensures
            **dispatcher == self.dispatcher(),
    {
        &self.dispatcher
    }

    /// Where the attempt stands.
    pub fn current_phase(&self) -> (phase: AcquirePhase)
        ensures
            phase == self.phase(),
    {
        self.state.current_phase()
    }

    /// Whether the bundle has been handed out.
    pub fn is_finished(&self) -> (finished: bool)
        ensures
            finished == (self.phase() == AcquirePhase::Finished),
    {
        match &self.state {
            AcquireResourcesState::Finished => true,
            _ => false,
        }
    }

    /// Whether every required resource has a lock.
    pub fn is_well_formed(&self) -> (ok: bool)
        ensures
            ok == self.well_formed(),
    {
        let reads_ok = self.dispatcher.has_locks(&self.required_reads);
        let writes_ok = self.dispatcher.has_locks(&self.required_writes);
        proof {
            assert(self.required().reads == self.required_reads@);
            assert(self.required().writes == self.required_writes@);
        }
        reads_ok && writes_ok
    }

    // What a round of lock taking makes of the answer of the next lock, as
    // the protocol has it for a task in an attempt. With a guard the round has
    // taken one lock more and goes on. Without one it is blocked on that very
    // resource and hands back the handle that is queued on its lock; the
    // guards taken so far are still there for the caller to drop.
    fn lock_answered(
        guards: &mut Vec<ResourceGuard>,
        required: &Vec<ResourceId>,
        lock: Lock<()>,
        answer: Option<LockGuard<()>>,
    ) -> (blocked: Option<(ResourceId, Lock<()>)>)
        requires
            old(guards)@.len() < required@.len(),
            guarded(old(guards)@) == required@.take(old(guards)@.len() as int),
        ensures
            match (Task {
                required: required@,
                phase: TaskPhase::Attempting(old(guards)@.len()),
            }).after_answer(answer is Some) {
                TaskPhase::Attempting(taken) => blocked is None && guarded(final(guards)@)
                    == required@.take(taken as int),
                TaskPhase::WaitForResource(id) => blocked == Some((id, lock)) && final(guards)@
                    == old(guards)@,
                _ => false,
            },
            answer matches Some(guard) ==> held(final(guards)@) == held(old(guards)@).push(
                guarded_lock(guard),
            ),
    {
        let id = clone_resource_id(&required[guards.len()]);
        match answer {
            Some(guard) => {
                guards.push(ResourceGuard { id, _guard: guard });
                assert(guarded(guards@) =~= required@.take(guards@.len() as int));
                assert(held(guards@) =~= held(old(guards)@).push(guarded_lock(guard)));
                None
            },
            None => Some((id, lock)),
        }
    }

    // Tries to take the lock of every resource in `required`, in order: for
    // each the lock that the dispatcher has registered under it. On the first
    // one that is taken, gives up: the guards collected so far are dropped
    // and the blocking resource is reported with a handle queued on its
    // lock. The caller holds the dispatch lock, and shows it by `turn`.
    #[allow(unused_variables)]
    fn try_take_locks(
        &self,
        required: &Vec<ResourceId>,
        turn: &LockGuard<()>,
        context: &TaskContext,
    ) -> (taken: TryTakeLocksResult)
        requires
            guarded_lock(*turn) == self.dispatcher().dispatch(),
            forall|i: int|
                0 <= i < required@.len() ==> self.dispatcher().registered().contains(
                    #[trigger] required@[i],
                ),
        ensures
            match taken {
                TryTakeLocksResult::Success(guards) => guarded(guards@) == required@ && held(
                    guards@,
                ) == self.dispatcher().locks_of(required@),
                TryTakeLocksResult::Failure(id, lock) => required@.contains(id) && lock
                    == self.dispatcher().lock_of(id),
            },
    {
        let mut guards: Vec<ResourceGuard> = Vec::new();
        let mut i: usize = 0;
        while i < required.len()
            invariant
                i <= required@.len(),
                guards@.len() == i,
                guarded(guards@) == required@.take(i as int),
                held(guards@) == self.dispatcher().locks_of(required@.take(i as int)),
                forall|j: int|
                    0 <= j < required@.len() ==> self.dispatcher().registered().contains(
                        #[trigger] required@[j],
                    ),
            decreases required@.len() - i,
        {
            let resource = &required[i];
            let mut lock = match lock_table_get(self.dispatcher.resource_locks(), resource) {
                Some(registered) => clone_lock(registered),
                None => {
                    assert(self.dispatcher().registered().contains(required@[i as int]));
                    vstd::pervasive::unreached()
                },
            };
            let answer = poll_lock(&mut lock, context);
            match Self::lock_answered(&mut guards, required, lock, answer) {
                Some((id, lock)) => {
                    return TryTakeLocksResult::Failure(id, lock);
                },
                None => {
                    assert(guards@.len() == guarded(guards@).len());
                    assert(held(guards@) =~= self.dispatcher().locks_of(
                        required@.take(i + 1),
                    ));
                },
            }
            i += 1;
        }
        assert(required@.take(i as int) =~= required@);
        TryTakeLocksResult::Success(guards)
    }

    // What the attempt makes of the answer of the resource lock it waited
    // for. With a guard the resource has been released: the guard is dropped
    // at once, and the attempt goes back to waiting for its turn and is to
    // go on. Without one it stays where it is.
    fn woken(&mut self, released: Option<LockGuard<()>>) -> (resumed: bool)
        ensures
            resumed == (released is Some),
            final(self).waits_on_its_lock(),
            old(self).phase() matches AcquirePhase::WaitForResource(resource) ==> (Task {
                required: old(self).required().in_order(),
                phase: TaskPhase::WaitForResource(resource),
            }).after_answer(resumed).between_polls() == Some(final(self).phase()),
            final(self).phase() == if resumed {
                AcquirePhase::WaitForDispatch
            } else {
                old(self).phase()
            },
            final(self).required() == old(self).required(),
            final(self).dispatcher() == old(self).dispatcher(),
            final(self).task_id() == old(self).task_id(),
    {
        proof {
            use_type_invariant(&*self);
        }
        match released {
            Some(guard) => {
                {
                    let _released = guard;
                }
                self.state = AcquireResourcesState::WaitForDispatch(
                    clone_lock(self.dispatcher.dispatch_lock()),
                );
                true
            },
            None => false,
        }
    }

    // What the attempt makes of one round of lock taking. A round that took
    // every lock hands its guards on and leaves the attempt as it is. A
    // round that was blocked leaves the attempt waiting for the blocking
    // resource, with nothing to hand on.
    fn settle(&mut self, taken: TryTakeLocksResult) -> (guards: Option<Vec<ResourceGuard>>)
        requires
            taken matches TryTakeLocksResult::Failure(id, lock) ==> lock == old(
                self,
            ).dispatcher().lock_of(id),
        ensures
            final(self).waits_on_its_lock(),
            taken matches TryTakeLocksResult::Failure(_, lock) ==> final(self).awaited() == Some(
                lock,
            ),
            match taken {
                TryTakeLocksResult::Success(all) => guards == Some(all) && final(self).phase()
                    == old(self).phase(),
                TryTakeLocksResult::Failure(id, _) => guards is None && final(self).phase()
                    == AcquirePhase::WaitForResource(id),
            },
            final(self).required() == old(self).required(),
            final(self).dispatcher() == old(self).dispatcher(),
            final(self).task_id() == old(self).task_id(),
    {
        proof {
            use_type_invariant(&*self);
        }
        match taken {
            TryTakeLocksResult::Success(all) => Some(all),
            TryTakeLocksResult::Failure(id, lock) => {
                self.state = AcquireResourcesState::WaitForResource(id, lock);
                None
            },
        }
    }

    // Ends the attempt: the guards of both rounds become the bundle.
    fn hand_out(&mut self, reads: Vec<ResourceGuard>, writes: Vec<ResourceGuard>) -> (outcome:
        Acquisition<T>)
        ensures
            outcome matches Acquisition::Ready(bundle) && bundle@ == (Requirements {
                reads: guarded(reads@),
                writes: guarded(writes@),
            }) && bundle.read_guards() == reads@ && bundle.write_guards() == writes@,
            final(self).phase() == AcquirePhase::Finished,
            final(self).waits_on_its_lock(),
            final(self).required() == old(self).required(),
            final(self).dispatcher() == old(self).dispatcher(),
            final(self).task_id() == old(self).task_id(),
    {
        // While the bundle lives, fetching the resources from the store is safe.
        let bundle = AcquiredResourcesLockGuards::new(reads, writes);
        self.state = AcquireResourcesState::Finished;
        Acquisition::Ready(bundle)
    }

    // Polls the lock the attempt waits on. The attempt stays as it is.
    fn poll_awaited(&mut self, context: &TaskContext) -> (guard: Option<LockGuard<()>>)
        ensures
            *final(self) == *old(self),
            old(self).phase() == AcquirePhase::Finished ==> guard is None,
            guard matches Some(taken) ==> old(self).awaited() == Some(guarded_lock(taken)),
    {
        proof {
            use_type_invariant(&*self);
        }
        // The state is taken out for the poll and put back as it comes.
        let mut state = AcquireResourcesState::Finished;
        core::mem::swap(&mut self.state, &mut state);
        let guard = state.poll_awaited_lock(context);
        self.state = state;
        guard
    }

    /// Advances the attempt as far as it can go without blocking.
    ///
    /// Waiting on a resource, it first checks that the resource has been
    /// released; it does not keep that lock but starts over, since other
    /// resources may have been taken meanwhile. Waiting for its turn, it takes
    /// the dispatch lock of its dispatcher, and holding it, every read lock
    /// and every write lock in their declared order: for each resource the
    /// lock that the dispatcher has registered under it. If all are free it
    /// hands out the bundle. At the first one that is not, it lets go of
    /// everything taken in this attempt and waits for that resource. The
    /// dispatch lock is released before returning in either case.
    ///
    /// Must not be called once the bundle has been handed out, nor with a
    /// requirement that has no lock.
    pub fn poll(&mut self) -> (outcome: Acquisition<T>)
        requires
            old(self).well_formed(),
            old(self).phase() != AcquirePhase::Finished,
        ensures
            Self::polled(*old(self), *final(self), outcome),
    {
        proof {
            use_type_invariant(&*self);
        }
        let context = match TaskContext::current() {
            Some(context) => context,
            None => {
                return Acquisition::NoTask;
            },
        };
        if self.state.waits_for_resource() {
            // Without this poll nobody would wake us again.
            let released = self.poll_awaited(&context);
            if !self.woken(released) {
                return Acquisition::NotReady;
            }
        }
        // Only one task at a time may try to take resource locks.
        let dispatch_guard = match self.poll_awaited(&context) {
            Some(guard) => guard,
            None => {
                return Acquisition::NotReady;
            },
        };
        proof {
            assert(self.required().reads == self.required_reads@);
            assert(self.required().writes == self.required_writes@);
        }
        let reads = self.try_take_locks(&self.required_reads, &dispatch_guard, &context);
        let read_guards = match self.settle(reads) {
            Some(guards) => guards,
            None => {
                return Acquisition::NotReady;
            },
        };
        let writes = self.try_take_locks(&self.required_writes, &dispatch_guard, &context);
        let write_guards = match self.settle(writes) {
            Some(guards) => guards,
            None => {
                return Acquisition::NotReady;
            },
        };
        self.hand_out(read_guards, write_guards)
    }

    /// Polls the attempt if that is allowed, and says why not otherwise.
    pub fn checked_poll(&mut self) -> (polled: Result<Acquisition<T>, AcquireError>)
        ensures
            match polled {
                Ok(outcome) => {
                    &&& old(self).phase() != AcquirePhase::Finished
                    &&& old(self).well_formed()
                    &&& Self::polled(*old(self), *final(self), outcome)
                },
                Err(AcquireError::AlreadyFinished) => {
                    &&& old(self).phase() == AcquirePhase::Finished
                    &&& *final(self) == *old(self)
                },
                Err(AcquireError::MissingLock) => {
                    &&& old(self).phase() != AcquirePhase::Finished
                    &&& !old(self).well_formed()
                    &&& *final(self) == *old(self)
                },
            },
    {
        if self.is_finished() {
            Err(AcquireError::AlreadyFinished)
        } else if !self.is_well_formed() {
            Err(AcquireError::MissingLock)
        } else {
            Ok(self.poll())
        }
    }
}

/// A bundle taken from the locks of a dispatcher keeps, for every resource it
/// covers, a guard of the lock that the dispatcher has registered under that
/// resource. Two bundles of one dispatcher that cover one resource are
/// therefore two guards of one lock.
pub proof fn lemma_bundle_holds_the_lock_of_what_it_covers<T>(
    bundle: AcquiredResourcesLockGuards<T>,
    dispatcher: Dispatcher,
    resource: ResourceId,
)
    requires
        bundle.taken_from(dispatcher),
        bundle@.names(resource),
    ensures
        bundle.holds_guard_of(dispatcher.lock_of(resource)),
{
    if bundle@.reads.contains(resource) {
        let at: int = choose|at: int|
            0 <= at < bundle@.reads.len() && bundle@.reads[at] == resource;
        assert(dispatcher.locks_of(bundle@.reads)[at] == dispatcher.lock_of(resource));
        assert(held(bundle.read_guards())[at] == dispatcher.lock_of(resource));
    } else {
        let at: int = choose|at: int|
            0 <= at < bundle@.writes.len() && bundle@.writes[at] == resource;
        assert(dispatcher.locks_of(bundle@.writes)[at] == dispatcher.lock_of(resource));
        assert(held(bundle.write_guards())[at] == dispatcher.lock_of(resource));
    }
}

} // verus!
