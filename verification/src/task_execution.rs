use vstd::prelude::*;
use shred::World;
use std::sync::Arc;
use crate::acquire_resources::{AcquirePhase, AcquireResources, Acquisition};
use crate::dispatcher::Dispatcher;
use crate::required_resources::RequiredResources;

verus! {

/// What one poll of a task execution produced.
pub enum Execution<T> {
    /// The task has its locks, has run, and has let go of its locks again.
    /// Here it is, as the run left it.
    Finished(T),
    /// The task could not get its locks yet. It holds nothing and will be
    /// woken when it is worth trying again.
    NotReady,
    /// The caller is not running inside a task. Nothing was tried.
    NoTask,
}

/// One task on its way through the dispatcher: it takes the locks of what it
/// requires, runs while it holds them, and lets go of them. No lock is held
/// before the run begins or after it ends.
pub struct TaskExecution<T> {
    attempt: AcquireResources<T>,
    system: Option<T>,
}

impl<T> TaskExecution<T> {
    /// The acquisition the execution starts with.
    pub closed spec fn attempt(&self) -> AcquireResources<T> {
        self.attempt
    }

    /// The task, for as long as it has not run.
    pub closed spec fn system(&self) -> Option<T> {
        self.system
    }

    /// Every required resource has a lock, and the task is still there
    /// exactly as long as its bundle has not been handed out.
    pub open spec fn well_formed(&self) -> bool {
        &&& self.attempt().well_formed()
        &&& self.system() is Some <==> self.attempt().phase() != AcquirePhase::Finished
    }

    /// The execution of `system`, which requires `required_resources`, not
    /// yet polled.
    pub fn new(
        dispatcher: Arc<Dispatcher>,
        required_resources: RequiredResources<T>,
        system: T,
    ) -> (execution: Self)
        ensures
            execution.system() == Some(system),
            execution.attempt().phase() == AcquirePhase::WaitForDispatch,
            execution.attempt().required() == required_resources@,
            execution.attempt().dispatcher() == *dispatcher,
    {
        TaskExecution {
            attempt: AcquireResources::new(dispatcher, required_resources),
            system: Some(system),
        }
    }

    /// Whether the task has run.
    pub fn is_resolved(&self) -> (resolved: bool)
        ensures
            resolved == (self.system() is None),
    {
        self.system.is_none()
    }

    /// Whether the execution is fit to be polled, given that it has not
    /// resolved.
    pub fn is_well_formed(&self) -> (ok: bool)
        ensures
            ok == self.well_formed(),
    {
        self.attempt.is_well_formed() && (self.system.is_some() == !self.attempt.is_finished())
    }

    // What the execution makes of the outcome of polling its acquisition.
    // With the bundle, which has to be one taken from the locks of the
    // dispatcher, the task runs at once against the store of the dispatcher,
    // and the bundle is dropped as soon as the run returns. Without it
    // nothing runs and the task stays where it is.
    fn conclude<F>(
        &mut self,
        acquired: Acquisition<T>,
        run_now: F,
    ) -> (outcome: Execution<T>) where F: FnOnce(T, &World) -> T
        requires
            old(self).system() is Some,
            acquired matches Acquisition::Ready(bundle) ==> bundle.taken_from(
                old(self).attempt().dispatcher(),
            ),
            run_now.requires((old(self).system()->0, &old(self).attempt().dispatcher().store())),
        ensures
            final(self).attempt() == old(self).attempt(),
            match acquired {
                Acquisition::Ready(_) => {
                    &&& outcome matches Execution::Finished(finished) && run_now.ensures(
                        (old(self).system()->0, &old(self).attempt().dispatcher().store()),
                        finished,
                    )
                    &&& final(self).system() is None
                },
                Acquisition::NotReady => {
                    &&& outcome is NotReady
                    &&& final(self).system() == old(self).system()
                },
                Acquisition::NoTask => {
                    &&& outcome is NoTask
                    &&& final(self).system() == old(self).system()
                },
            },
    {
        match acquired {
            Acquisition::Ready(guards) => {
                let system = match self.system.take() {
                    Some(system) => system,
                    None => vstd::pervasive::unreached(),
                };
                // The bundle lives until the end of this arm: the locks are
                // held for the whole run and let go right after it.
                let finished = self.attempt.shared_dispatcher().run_system(
                    &guards,
                    system,
                    run_now,
                );
                Execution::Finished(finished)
            },
            Acquisition::NotReady => Execution::NotReady,
            Acquisition::NoTask => Execution::NoTask,
        }
    }

    /// Advances the execution as far as it can go without blocking. If every
    /// lock can be taken, the task runs at once: `run_now`, the task's run
    /// operation, gets the task and the resource store, and the bundle is
    /// dropped as soon as it returns. Otherwise nothing is held and the task
    /// stays as it is.
    pub fn poll<F>(&mut self, run_now: F) -> (outcome: Execution<T>) where F: FnOnce(T, &World) -> T
        requires
            old(self).well_formed(),
            old(self).system() is Some,
            run_now.requires((old(self).system()->0, &old(self).attempt().dispatcher().store())),
        ensures
            final(self).well_formed(),
            final(self).attempt().required() == old(self).attempt().required(),
            final(self).attempt().dispatcher() == old(self).attempt().dispatcher(),
            match outcome {
                Execution::Finished(finished) => {
                    &&& final(self).system() is None
                    &&& run_now.ensures(
                        (old(self).system()->0, &old(self).attempt().dispatcher().store()),
                        finished,
                    )
                },
                Execution::NotReady => {
                    &&& final(self).system() == old(self).system()
                    &&& old(self).attempt().phase().may_become(
                        final(self).attempt().phase(),
                        old(self).attempt().required(),
                        None,
                    )
                },
                Execution::NoTask => {
                    &&& final(self).system() == old(self).system()
                    &&& final(self).attempt().phase() == old(self).attempt().phase()
                },
            },
    {
        let acquired = self.attempt.poll();
        self.conclude(acquired, run_now)
    }
}

} // verus!
