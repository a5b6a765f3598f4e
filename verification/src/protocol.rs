// The acquisition protocol as a transition system over all tasks at once,
// and the guarantees it gives. Every step is one lock operation of one task,
// so tasks interleave at the finest grain.
//
// A lock is free or held by one task. A poll of a held lock never succeeds.
// A poll of a free lock succeeds if the lock grants it: a lock that queues
// its waiters and hands itself to the first of them on release refuses
// everybody else until that waiter has polled it. What is proved of safety
// holds whatever the locks grant. What is proved of progress is proved of
// locks that refuse a free lock at most finitely often, and is not true of
// the others.

use vstd::prelude::*;
use shred::ResourceId;
use crate::acquire_resources::AcquirePhase;
use crate::required_resources::Requirements;

verus! {

/// Where one task stands in the protocol.
pub enum TaskPhase {
    /// Suspended, holding nothing, waiting for the dispatch lock.
    WaitForDispatch,
    /// Holding the dispatch lock and the locks of the first so many required
    /// resources, about to try the next.
    Attempting(nat),
    /// Suspended, holding nothing, waiting for this resource to be released.
    WaitForResource(ResourceId),
    /// Holding every required lock: the guard bundle is alive.
    Holding,
    /// The bundle has been dropped; the task is done.
    Released,
}

impl TaskPhase {
    /// What an acquisition attempt shows of this phase between two polls.
    /// A task is never left in the middle of an attempt.
    pub open spec fn between_polls(self) -> Option<AcquirePhase> {
        match self {
            TaskPhase::WaitForDispatch => Some(AcquirePhase::WaitForDispatch),
            TaskPhase::WaitForResource(resource) => Some(AcquirePhase::WaitForResource(resource)),
            TaskPhase::Attempting(_) => None,
            TaskPhase::Holding => Some(AcquirePhase::Finished),
            TaskPhase::Released => Some(AcquirePhase::Finished),
        }
    }
}

/// One task: the resources it requires, in the order in which it takes their
/// locks, and where it stands.
pub struct Task {
    pub required: Seq<ResourceId>,
    pub phase: TaskPhase,
}

impl Task {
    /// The same task in another phase.
    pub open spec fn moved_to(self, phase: TaskPhase) -> Task {
        Task { required: self.required, phase }
    }

    /// The phase the task is in after its next lock operation. `taken` tells
    /// whether the lock it polled, if it polled one, answered with a guard. A
    /// task that waits goes on when it gets the lock it waits for. A task in
    /// an attempt takes one lock more, or gives up everything it has taken
    /// and waits for the lock that refused; with every lock taken it has its
    /// bundle, which it drops next.
    pub open spec fn after_answer(self, taken: bool) -> TaskPhase {
        match self.phase {
            TaskPhase::WaitForDispatch => if taken {
                TaskPhase::Attempting(0)
            } else {
                TaskPhase::WaitForDispatch
            },
            TaskPhase::Attempting(so_far) => if so_far >= self.required.len() {
                TaskPhase::Holding
            } else if taken {
                TaskPhase::Attempting(so_far + 1)
            } else {
                TaskPhase::WaitForResource(self.required[so_far as int])
            },
            TaskPhase::WaitForResource(resource) => if taken {
                TaskPhase::WaitForDispatch
            } else {
                TaskPhase::WaitForResource(resource)
            },
            TaskPhase::Holding => TaskPhase::Released,
            TaskPhase::Released => TaskPhase::Released,
        }
    }

    /// Whether the task holds the lock of `resource`.
    pub open spec fn holds(self, resource: ResourceId) -> bool {
        match self.phase {
            TaskPhase::Attempting(taken) => self.required.take(taken as int).contains(resource),
            TaskPhase::Holding => self.required.contains(resource),
            _ => false,
        }
    }

    /// Whether the task holds the lock of every resource it requires.
    pub open spec fn holds_everything(self) -> bool {
        forall|resource: ResourceId| self.required.contains(resource) ==> self.holds(resource)
    }

    /// Whether the task holds no lock at all.
    pub open spec fn holds_nothing(self) -> bool {
        forall|resource: ResourceId| !self.holds(resource)
    }
}

/// One step of the protocol: task number `mover` performs its next lock
/// operation, and `granted` tells whether the lock it polls, if it polls one,
/// lets itself be taken in case it is free.
pub struct Step {
    pub mover: int,
    pub granted: bool,
}

/// Whether nobody holds the lock of `resource`.
pub open spec fn is_free(tasks: Seq<Task>, resource: ResourceId) -> bool {
    forall|holder: int| 0 <= holder < tasks.len() ==> !(#[trigger] tasks[holder]).holds(resource)
}

/// Whether nobody holds the dispatch lock.
pub open spec fn dispatch_is_free(tasks: Seq<Task>) -> bool {
    forall|holder: int|
        0 <= holder < tasks.len() ==> !((#[trigger] tasks[holder]).phase is Attempting)
}

/// Whether the lock that `task` polls next answers with a guard: it is free
/// and grants itself.
pub open spec fn lock_gives(tasks: Seq<Task>, task: Task, granted: bool) -> bool {
    granted && match task.phase {
        TaskPhase::WaitForDispatch => dispatch_is_free(tasks),
        TaskPhase::Attempting(taken) => taken < task.required.len() && is_free(
            tasks,
            task.required[taken as int],
        ),
        TaskPhase::WaitForResource(resource) => is_free(tasks, resource),
        _ => false,
    }
}

/// The phase `task` is in after its next lock operation, with the locks as
/// the phases of `tasks` imply.
pub open spec fn next_phase(tasks: Seq<Task>, task: Task, granted: bool) -> TaskPhase {
    task.after_answer(lock_gives(tasks, task, granted))
}

/// The tasks after `step`. Everybody but the mover stays as they are. A step
/// whose mover names no task changes nothing.
pub open spec fn advance(tasks: Seq<Task>, step: Step) -> Seq<Task> {
    if 0 <= step.mover < tasks.len() {
        tasks.update(
            step.mover,
            tasks[step.mover].moved_to(next_phase(tasks, tasks[step.mover], step.granted)),
        )
    } else {
        tasks
    }
}

/// The tasks after the steps of `schedule`, taken from left to right.
pub open spec fn run(tasks: Seq<Task>, schedule: Seq<Step>) -> Seq<Task>
    decreases schedule.len(),
{
    if schedule.len() == 0 {
        tasks
    } else {
        advance(run(tasks, schedule.drop_last()), schedule.last())
    }
}

/// Nobody has been polled yet.
pub open spec fn all_waiting(tasks: Seq<Task>) -> bool {
    forall|task: int|
        0 <= task < tasks.len() ==> (#[trigger] tasks[task]).phase == TaskPhase::WaitForDispatch
}

/// What holds of the tasks at every moment: an attempt never counts more
/// locks than it requires, at most one task is inside an attempt, and no lock
/// has two holders.
pub open spec fn consistent(tasks: Seq<Task>) -> bool {
    &&& forall|task: int|
        0 <= task < tasks.len() ==> ((#[trigger] tasks[task]).phase matches TaskPhase::Attempting(
            taken,
        ) ==> taken <= tasks[task].required.len())
    &&& forall|first: int, second: int|
        0 <= first < tasks.len() && 0 <= second < tasks.len() && first != second ==> !((
        #[trigger] tasks[first]).phase is Attempting
            && (#[trigger] tasks[second]).phase is Attempting)
    &&& forall|first: int, second: int, resource: ResourceId|
        0 <= first < tasks.len() && 0 <= second < tasks.len() && first != second ==> !(
        #[trigger] tasks[first].holds(resource) && #[trigger] tasks[second].holds(resource))
}

/// Before anybody is polled, nobody holds anything.
pub proof fn lemma_all_waiting_is_consistent(tasks: Seq<Task>)
    requires
        all_waiting(tasks),
    ensures
        consistent(tasks),
{
}

/// A step changes the phase of the mover and nothing else.
pub proof fn lemma_advance_frame(tasks: Seq<Task>, step: Step)
    ensures
        advance(tasks, step).len() == tasks.len(),
        forall|task: int|
            0 <= task < tasks.len() ==> (#[trigger] advance(tasks, step)[task]).required
                == tasks[task].required,
        forall|task: int|
            0 <= task < tasks.len() && task != step.mover ==> #[trigger] advance(tasks, step)[task]
                == tasks[task],
{
}

/// A step takes at most one new lock, and only a free one.
proof fn lemma_mover_takes_only_free_locks(tasks: Seq<Task>, step: Step, resource: ResourceId)
    requires
        consistent(tasks),
        0 <= step.mover < tasks.len(),
        advance(tasks, step)[step.mover].holds(resource),
    ensures
        tasks[step.mover].holds(resource) || is_free(tasks, resource),
{
    let task = tasks[step.mover];
    match task.phase {
        TaskPhase::Attempting(taken) => {
            if taken >= task.required.len() {
                assert(task.required.take(taken as int) =~= task.required);
            } else if step.granted && is_free(tasks, task.required[taken as int]) {
                let grown = task.required.take((taken + 1) as int);
                let at: int = choose|at: int| 0 <= at < grown.len() && grown[at] == resource;
                if at < taken {
                    assert(task.required.take(taken as int)[at] == resource);
                }
            }
        },
        _ => {},
    }
}

/// Every step keeps the tasks consistent.
pub proof fn lemma_advance_is_consistent(tasks: Seq<Task>, step: Step)
    requires
        consistent(tasks),
    ensures
        consistent(advance(tasks, step)),
{
    let after = advance(tasks, step);
    let mover = step.mover;
    if 0 <= mover < tasks.len() {
        assert forall|first: int, second: int, resource: ResourceId|
            0 <= first < after.len() && 0 <= second < after.len() && first != second implies !(
        #[trigger] after[first].holds(resource) && #[trigger] after[second].holds(resource)) by {
            if after[first].holds(resource) && after[second].holds(resource) {
                if first == mover {
                    lemma_mover_takes_only_free_locks(tasks, step, resource);
                    assert(tasks[second].holds(resource));
                } else if second == mover {
                    lemma_mover_takes_only_free_locks(tasks, step, resource);
                    assert(tasks[first].holds(resource));
                } else {
                    assert(tasks[first].holds(resource) && tasks[second].holds(resource));
                }
            }
        }
        assert forall|first: int, second: int|
            0 <= first < after.len() && 0 <= second < after.len() && first != second implies !((
        #[trigger] after[first]).phase is Attempting
            && (#[trigger] after[second]).phase is Attempting) by {
            if after[first].phase is Attempting && after[second].phase is Attempting {
                if first == mover {
                    assert(tasks[second].phase is Attempting);
                } else if second == mover {
                    assert(tasks[first].phase is Attempting);
                } else {
                    assert(tasks[first].phase is Attempting && tasks[second].phase is Attempting);
                }
            }
        }
    }
}

/// Every run keeps the tasks consistent, and keeps who requires what.
pub proof fn lemma_run_is_consistent(tasks: Seq<Task>, schedule: Seq<Step>)
    requires
        consistent(tasks),
    ensures
        consistent(run(tasks, schedule)),
        run(tasks, schedule).len() == tasks.len(),
        forall|task: int|
            0 <= task < tasks.len() ==> (#[trigger] run(tasks, schedule)[task]).required
                == tasks[task].required,
    decreases schedule.len(),
{
    if schedule.len() > 0 {
        let before = run(tasks, schedule.drop_last());
        lemma_run_is_consistent(tasks, schedule.drop_last());
        lemma_advance_is_consistent(before, schedule.last());
        lemma_advance_frame(before, schedule.last());
    }
}

/// Mutual exclusion: at every moment of every run, whatever the locks grant,
/// a resource is in at most one live guard bundle. More than that, no lock
/// ever has two holders, not even in the middle of an attempt.
pub proof fn lemma_mutual_exclusion(
    tasks: Seq<Task>,
    schedule: Seq<Step>,
    first: int,
    second: int,
    resource: ResourceId,
)
    requires
        all_waiting(tasks),
        0 <= first < tasks.len(),
        0 <= second < tasks.len(),
        first != second,
    ensures
        !(run(tasks, schedule)[first].holds(resource) && run(tasks, schedule)[second].holds(
            resource,
        )),
        run(tasks, schedule)[first].phase is Holding && run(
            tasks,
            schedule,
        )[second].phase is Holding ==> !(tasks[first].required.contains(resource)
            && tasks[second].required.contains(resource)),
{
    lemma_all_waiting_is_consistent(tasks);
    lemma_run_is_consistent(tasks, schedule);
    let now = run(tasks, schedule);
    assert(now[first].required == tasks[first].required);
    assert(now[second].required == tasks[second].required);
    assert(!(now[first].holds(resource) && now[second].holds(resource)));
}

/// All-or-nothing acquisition: at every moment of every run, whatever the
/// locks grant, a task whose bundle is alive holds every lock it requires,
/// and a task that is suspended or done holds none. Only inside an attempt
/// does a task hold some of its locks, and there it is never stuck: its own
/// next step always moves it on, to the next lock, to the full bundle, or to
/// letting go of everything.
pub proof fn lemma_all_or_nothing(tasks: Seq<Task>, schedule: Seq<Step>, task: int, granted: bool)
    requires
        all_waiting(tasks),
        0 <= task < tasks.len(),
    ensures
        match run(tasks, schedule)[task].phase {
            TaskPhase::Holding => run(tasks, schedule)[task].holds_everything(),
            TaskPhase::Attempting(_) => advance(
                run(tasks, schedule),
                Step { mover: task, granted },
            )[task].phase != run(tasks, schedule)[task].phase,
            _ => run(tasks, schedule)[task].holds_nothing(),
        },
{
    lemma_all_waiting_is_consistent(tasks);
    lemma_run_is_consistent(tasks, schedule);
}

/// Whether every task has run and let go of its bundle.
pub open spec fn all_released(tasks: Seq<Task>) -> bool {
    forall|task: int| 0 <= task < tasks.len() ==> (#[trigger] tasks[task]).phase is Released
}

/// Whether no task requires the same resource twice. A task that does can
/// never finish: its second try of that lock finds it held, by itself.
pub open spec fn requirements_distinct(tasks: Seq<Task>) -> bool {
    forall|task: int| 0 <= task < tasks.len() ==> (#[trigger] tasks[task]).required.no_duplicates()
}

/// The sum of `weight` over the tasks.
pub open spec fn total(tasks: Seq<Task>, weight: spec_fn(Task) -> nat) -> nat
    decreases tasks.len(),
{
    if tasks.len() == 0 {
        0
    } else {
        total(tasks.drop_last(), weight) + weight(tasks.last())
    }
}

/// The resources in a live guard bundle.
pub open spec fn in_live_bundle(tasks: Seq<Task>) -> Set<ResourceId> {
    Set::new(
        |resource: ResourceId|
            exists|holder: int|
                0 <= holder < tasks.len() && (#[trigger] tasks[holder]).phase is Holding
                    && tasks[holder].required.contains(resource),
    )
}

/// 1 for a task that is not done.
pub open spec fn unreleased_weight() -> spec_fn(Task) -> nat {
    |task: Task|
        if task.phase is Released {
            0nat
        } else {
            1nat
        }
}

/// 1 for a task that has not got its bundle yet.
pub open spec fn unacquired_weight() -> spec_fn(Task) -> nat {
    |task: Task|
        if task.phase is Holding || task.phase is Released {
            0nat
        } else {
            1nat
        }
}

/// How many steps a task can still take before it either has its bundle or
/// waits for a resource that sits in a live bundle.
pub open spec fn attempt_weight(live: Set<ResourceId>) -> spec_fn(Task) -> nat {
    |task: Task|
        match task.phase {
            TaskPhase::WaitForResource(resource) => if live.contains(resource) {
                0nat
            } else {
                task.required.len() + 3
            },
            TaskPhase::WaitForDispatch => task.required.len() + 2,
            TaskPhase::Attempting(taken) => if taken <= task.required.len() {
                (task.required.len() + 1 - taken) as nat
            } else {
                0nat
            },
            _ => 0nat,
        }
}

/// The number of tasks that are not done.
pub open spec fn unreleased(tasks: Seq<Task>) -> nat {
    total(tasks, unreleased_weight())
}

/// The number of tasks that have not got their bundle yet.
pub open spec fn unacquired(tasks: Seq<Task>) -> nat {
    total(tasks, unacquired_weight())
}

/// The steps that can still be taken before a bundle is handed out or
/// dropped.
pub open spec fn remaining_effort(tasks: Seq<Task>) -> nat {
    total(tasks, attempt_weight(in_live_bundle(tasks)))
}

/// Whether `after` is closer to the end than `before`: fewer tasks not done;
/// or as many, and fewer without their bundle; or as many of both, and fewer
/// steps left before the next bundle is handed out or dropped.
pub open spec fn closer_to_the_end(after: Seq<Task>, before: Seq<Task>) -> bool {
    ||| unreleased(after) < unreleased(before)
    ||| unreleased(after) == unreleased(before) && unacquired(after) < unacquired(before)
    ||| unreleased(after) == unreleased(before) && unacquired(after) == unacquired(before)
        && remaining_effort(after) < remaining_effort(before)
}

proof fn lemma_total_update(tasks: Seq<Task>, weight: spec_fn(Task) -> nat, at: int, task: Task)
    requires
        0 <= at < tasks.len(),
    ensures
        total(tasks.update(at, task), weight) == total(tasks, weight) - weight(tasks[at]) + weight(
            task,
        ),
    decreases tasks.len(),
{
    if at == tasks.len() - 1 {
        assert(tasks.update(at, task).drop_last() =~= tasks.drop_last());
    } else {
        assert(tasks.update(at, task).drop_last() =~= tasks.drop_last().update(at, task));
        lemma_total_update(tasks.drop_last(), weight, at, task);
    }
}

// A step that neither hands out nor drops a bundle leaves the live bundles
// as they are.
proof fn lemma_live_bundles_stay(tasks: Seq<Task>, step: Step)
    requires
        0 <= step.mover < tasks.len(),
        !(tasks[step.mover].phase is Holding),
        !(advance(tasks, step)[step.mover].phase is Holding),
    ensures
        in_live_bundle(advance(tasks, step)) == in_live_bundle(tasks),
{
    let after = advance(tasks, step);
    assert forall|resource: ResourceId|
        in_live_bundle(after).contains(resource) implies in_live_bundle(tasks).contains(
        resource,
    ) by {
        let holder: int = choose|holder: int|
            0 <= holder < after.len() && (#[trigger] after[holder]).phase is Holding
                && after[holder].required.contains(resource);
        assert(tasks[holder] == after[holder]);
    }
    assert forall|resource: ResourceId|
        in_live_bundle(tasks).contains(resource) implies in_live_bundle(after).contains(
        resource,
    ) by {
        let holder: int = choose|holder: int|
            0 <= holder < tasks.len() && (#[trigger] tasks[holder]).phase is Holding
                && tasks[holder].required.contains(resource);
        assert(after[holder] == tasks[holder]);
    }
    assert(in_live_bundle(after) =~= in_live_bundle(tasks));
}

// What blocks an attempt sits in a live bundle.
proof fn lemma_blocker_is_live(tasks: Seq<Task>, mover: int, taken: nat)
    requires
        consistent(tasks),
        requirements_distinct(tasks),
        0 <= mover < tasks.len(),
        tasks[mover].phase == TaskPhase::Attempting(taken),
        taken < tasks[mover].required.len(),
        !is_free(tasks, tasks[mover].required[taken as int]),
    ensures
        in_live_bundle(tasks).contains(tasks[mover].required[taken as int]),
{
    let task = tasks[mover];
    let resource = task.required[taken as int];
    let holder: int = choose|holder: int|
        0 <= holder < tasks.len() && (#[trigger] tasks[holder]).holds(resource);
    if holder == mover {
        let held = task.required.take(taken as int);
        let at: int = choose|at: int| 0 <= at < held.len() && held[at] == resource;
        assert(task.required[at] == task.required[taken as int]);
    }
    assert(!(tasks[holder].phase is Attempting));
    assert(tasks[holder].phase is Holding);
}

// What sits in a live bundle is not free.
proof fn lemma_live_is_not_free(tasks: Seq<Task>, resource: ResourceId)
    requires
        in_live_bundle(tasks).contains(resource),
    ensures
        !is_free(tasks, resource),
{
    let holder: int = choose|holder: int|
        0 <= holder < tasks.len() && (#[trigger] tasks[holder]).phase is Holding
            && tasks[holder].required.contains(resource);
    assert(tasks[holder].holds(resource));
}

/// With locks that grant whenever they are free, every step that changes
/// anything brings the tasks closer to the end.
pub proof fn lemma_step_makes_progress(tasks: Seq<Task>, step: Step)
    requires
        consistent(tasks),
        requirements_distinct(tasks),
        step.granted,
        advance(tasks, step) != tasks,
    ensures
        closer_to_the_end(advance(tasks, step), tasks),
{
    let after = advance(tasks, step);
    let mover = step.mover;
    let task = tasks[mover];
    let moved = task.moved_to(next_phase(tasks, task, true));
    if !(0 <= mover < tasks.len()) {
        assert(false);
    }
    if next_phase(tasks, task, true) == task.phase {
        assert(after =~= tasks);
    }
    lemma_total_update(tasks, unreleased_weight(), mover, moved);
    lemma_total_update(tasks, unacquired_weight(), mover, moved);
    let live = in_live_bundle(tasks);
    lemma_total_update(tasks, attempt_weight(live), mover, moved);
    match task.phase {
        TaskPhase::WaitForDispatch => {
            lemma_live_bundles_stay(tasks, step);
        },
        TaskPhase::Attempting(taken) => {
            if taken >= task.required.len() {
            } else if is_free(tasks, task.required[taken as int]) {
                lemma_live_bundles_stay(tasks, step);
            } else {
                lemma_live_bundles_stay(tasks, step);
                lemma_blocker_is_live(tasks, mover, taken);
            }
        },
        TaskPhase::WaitForResource(resource) => {
            lemma_live_bundles_stay(tasks, step);
            if live.contains(resource) {
                lemma_live_is_not_free(tasks, resource);
            }
        },
        TaskPhase::Holding => {},
        TaskPhase::Released => {},
    }
}

/// As long as some task is not done, some task can move if the locks grant
/// what is free: there is no state in which everybody waits for somebody
/// else.
pub proof fn lemma_some_task_can_move(tasks: Seq<Task>) -> (mover: int)
    requires
        consistent(tasks),
        !all_released(tasks),
    ensures
        0 <= mover < tasks.len(),
        advance(tasks, Step { mover, granted: true }) != tasks,
{
    let mover: int = if exists|task: int|
        0 <= task < tasks.len() && (#[trigger] tasks[task]).phase is Attempting {
        choose|task: int| 0 <= task < tasks.len() && (#[trigger] tasks[task]).phase is Attempting
    } else if exists|task: int|
        0 <= task < tasks.len() && (#[trigger] tasks[task]).phase is Holding {
        choose|task: int| 0 <= task < tasks.len() && (#[trigger] tasks[task]).phase is Holding
    } else {
        choose|task: int| 0 <= task < tasks.len() && !((#[trigger] tasks[task]).phase is Released)
    };
    assert(advance(tasks, Step { mover, granted: true })[mover].phase != tasks[mover].phase) by {
        match tasks[mover].phase {
            TaskPhase::WaitForDispatch => {
                assert(dispatch_is_free(tasks));
            },
            TaskPhase::WaitForResource(resource) => {
                assert forall|holder: int| 0 <= holder < tasks.len() implies !(
                #[trigger] tasks[holder]).holds(resource) by {
                    assert(!(tasks[holder].phase is Attempting));
                    assert(!(tasks[holder].phase is Holding));
                }
            },
            _ => {},
        }
    }
    mover
}

/// The tasks at time `time` of an unending schedule: `schedule(t)` is step
/// number `t`.
pub open spec fn state_at(tasks: Seq<Task>, schedule: spec_fn(nat) -> Step, time: nat) -> Seq<Task>
    decreases time,
{
    if time == 0 {
        tasks
    } else {
        advance(state_at(tasks, schedule, (time - 1) as nat), schedule((time - 1) as nat))
    }
}

/// Whether `at` is a time not before `from` at which `task` takes a step.
pub open spec fn polled_at(schedule: spec_fn(nat) -> Step, task: int, from: nat, at: nat) -> bool {
    at >= from && schedule(at).mover == task
}

/// Whether `task` takes a step at `from` or later.
pub open spec fn polled_again(schedule: spec_fn(nat) -> Step, task: int, from: nat) -> bool {
    exists|at: nat| polled_at(schedule, task, from, at)
}

/// Whether the executor keeps polling: every one of the `tasks` tasks takes
/// a step again after any time.
pub open spec fn fair(schedule: spec_fn(nat) -> Step, tasks: nat) -> bool {
    forall|task: int, from: nat| 0 <= task < tasks ==> #[trigger] polled_again(schedule, task, from)
}

/// Whether the lock polled at time `at` grants itself if it is free.
pub open spec fn granted_at(schedule: spec_fn(nat) -> Step, at: nat) -> bool {
    schedule(at).granted
}

/// Whether the locks grant whenever they are free, at every step.
pub open spec fn always_granted(schedule: spec_fn(nat) -> Step) -> bool {
    forall|at: nat| #[trigger] granted_at(schedule, at)
}

/// Whether the locks refuse a free lock only finitely often: from some time
/// on they grant whenever they are free.
pub open spec fn eventually_granted(schedule: spec_fn(nat) -> Step) -> bool {
    exists|from: nat| #[trigger] always_granted(later(schedule, from))
}

/// The schedule from time `skipped` on.
pub open spec fn later(schedule: spec_fn(nat) -> Step, skipped: nat) -> spec_fn(nat) -> Step {
    |time: nat| schedule(time + skipped)
}

/// The first steps of an unending schedule are a run.
pub proof fn lemma_state_at_is_a_run(tasks: Seq<Task>, schedule: spec_fn(nat) -> Step, time: nat)
    ensures
        state_at(tasks, schedule, time) == run(
            tasks,
            Seq::new(time, |step: int| schedule(step as nat)),
        ),
    decreases time,
{
    let steps = Seq::new(time, |step: int| schedule(step as nat));
    if time > 0 {
        let earlier: nat = (time - 1) as nat;
        lemma_state_at_is_a_run(tasks, schedule, earlier);
        assert(steps.drop_last() =~= Seq::new(earlier, |step: int| schedule(step as nat)));
    }
}

proof fn lemma_state_at_later(
    tasks: Seq<Task>,
    schedule: spec_fn(nat) -> Step,
    skipped: nat,
    time: nat,
)
    ensures
        state_at(tasks, schedule, skipped + time) == state_at(
            state_at(tasks, schedule, skipped),
            later(schedule, skipped),
            time,
        ),
    decreases time,
{
    if time > 0 {
        lemma_state_at_later(tasks, schedule, skipped, (time - 1) as nat);
    }
}

proof fn lemma_later_is_granted(schedule: spec_fn(nat) -> Step, skipped: nat)
    requires
        always_granted(schedule),
    ensures
        always_granted(later(schedule, skipped)),
{
    let rest = later(schedule, skipped);
    assert forall|at: nat| #[trigger] granted_at(rest, at) by {
        assert(granted_at(schedule, at + skipped));
    }
}

proof fn lemma_later_is_fair(schedule: spec_fn(nat) -> Step, skipped: nat, tasks: nat)
    requires
        fair(schedule, tasks),
    ensures
        fair(later(schedule, skipped), tasks),
{
    let rest = later(schedule, skipped);
    assert forall|task: int, from: nat| 0 <= task < tasks implies #[trigger] polled_again(
        rest,
        task,
        from,
    ) by {
        let shifted: nat = from + skipped;
        assert(polled_again(schedule, task, shifted));
        let at: nat = choose|at: nat| polled_at(schedule, task, shifted, at);
        assert(polled_at(rest, task, from, (at - skipped) as nat));
    }
}

// The first step at or after `from` that changes anything, given that the
// step at `until` would.
proof fn lemma_first_move(
    tasks: Seq<Task>,
    schedule: spec_fn(nat) -> Step,
    from: nat,
    until: nat,
) -> (first: nat)
    requires
        from <= until,
        state_at(tasks, schedule, from) == tasks,
        advance(tasks, schedule(until)) != tasks,
    ensures
        first <= until,
        state_at(tasks, schedule, first) == tasks,
        advance(tasks, schedule(first)) != tasks,
    decreases until - from,
{
    if advance(tasks, schedule(from)) != tasks {
        from
    } else {
        lemma_first_move(tasks, schedule, from + 1, until)
    }
}

proof fn lemma_fair_schedule_ends(tasks: Seq<Task>, schedule: spec_fn(nat) -> Step) -> (time: nat)
    requires
        consistent(tasks),
        requirements_distinct(tasks),
        fair(schedule, tasks.len()),
        always_granted(schedule),
    ensures
        all_released(state_at(tasks, schedule, time)),
    decreases unreleased(tasks), unacquired(tasks), remaining_effort(tasks),
{
    if all_released(tasks) {
        0
    } else {
        let mover: int = lemma_some_task_can_move(tasks);
        assert(polled_again(schedule, mover, 0));
        let until: nat = choose|at: nat| polled_at(schedule, mover, 0, at);
        assert(granted_at(schedule, until));
        assert(schedule(until) == Step { mover, granted: true });
        let first: nat = lemma_first_move(tasks, schedule, 0, until);
        assert(granted_at(schedule, first));
        let moved = advance(tasks, schedule(first));
        lemma_step_makes_progress(tasks, schedule(first));
        lemma_advance_is_consistent(tasks, schedule(first));
        lemma_advance_frame(tasks, schedule(first));
        assert(requirements_distinct(moved)) by {
            assert forall|task: int| 0 <= task < moved.len() implies (
            #[trigger] moved[task]).required.no_duplicates() by {
                assert(moved[task].required == tasks[task].required);
            }
        }
        let rest = later(schedule, first + 1);
        lemma_later_is_fair(schedule, first + 1, tasks.len());
        lemma_later_is_granted(schedule, first + 1);
        let more: nat = lemma_fair_schedule_ends(moved, rest);
        lemma_state_at_later(tasks, schedule, first + 1, more);
        first + 1 + more
    }
}

/// No deadlock: whatever the tasks require, and however their steps
/// interleave, as long as the executor keeps polling every task there is a
/// time by which every task has had its bundle, run, and let go of it. This
/// is so if no task requires a resource twice and the locks refuse a free
/// lock at most finitely often.
pub proof fn lemma_no_deadlock(tasks: Seq<Task>, schedule: spec_fn(nat) -> Step) -> (time: nat)
    requires
        all_waiting(tasks),
        requirements_distinct(tasks),
        fair(schedule, tasks.len()),
        eventually_granted(schedule),
    ensures
        all_released(state_at(tasks, schedule, time)),
{
    let from: nat = choose|from: nat| #[trigger] always_granted(later(schedule, from));
    let start = state_at(tasks, schedule, from);
    lemma_all_waiting_is_consistent(tasks);
    lemma_state_at_is_a_run(tasks, schedule, from);
    lemma_run_is_consistent(tasks, Seq::new(from, |step: int| schedule(step as nat)));
    assert(requirements_distinct(start)) by {
        assert forall|task: int| 0 <= task < start.len() implies (
        #[trigger] start[task]).required.no_duplicates() by {
            assert(start[task].required == tasks[task].required);
        }
    }
    lemma_later_is_fair(schedule, from, tasks.len());
    let more: nat = lemma_fair_schedule_ends(start, later(schedule, from));
    lemma_state_at_later(tasks, schedule, from, more);
    from + more
}

// A task is done only after it has had its bundle.
proof fn lemma_released_after_holding(
    tasks: Seq<Task>,
    schedule: spec_fn(nat) -> Step,
    time: nat,
    task: int,
) -> (held_at: nat)
    requires
        0 <= task < tasks.len(),
        !(tasks[task].phase is Released),
        state_at(tasks, schedule, time).len() == tasks.len(),
        state_at(tasks, schedule, time)[task].phase is Released,
    ensures
        held_at < time,
        state_at(tasks, schedule, held_at)[task].phase is Holding,
    decreases time,
{
    let earlier: nat = (time - 1) as nat;
    let before = state_at(tasks, schedule, earlier);
    lemma_advance_frame(before, schedule(earlier));
    if before[task].phase is Released {
        lemma_released_after_holding(tasks, schedule, earlier, task)
    } else {
        earlier
    }
}

/// Every task gets its bundle: under the conditions of `lemma_no_deadlock`
/// there is, for each task, a time at which it holds every lock it requires.
pub proof fn lemma_every_task_gets_its_bundle(
    tasks: Seq<Task>,
    schedule: spec_fn(nat) -> Step,
    task: int,
) -> (time: nat)
    requires
        all_waiting(tasks),
        requirements_distinct(tasks),
        fair(schedule, tasks.len()),
        eventually_granted(schedule),
        0 <= task < tasks.len(),
    ensures
        state_at(tasks, schedule, time)[task].phase is Holding,
        state_at(tasks, schedule, time)[task].holds_everything(),
{
    let end: nat = lemma_no_deadlock(tasks, schedule);
    lemma_state_at_is_a_run(tasks, schedule, end);
    lemma_all_waiting_is_consistent(tasks);
    lemma_run_is_consistent(tasks, Seq::new(end, |step: int| schedule(step as nat)));
    lemma_released_after_holding(tasks, schedule, end, task)
}

/// The tasks after `mover` has gone on with an attempt for up to `steps`
/// steps, stopping as soon as it is out of the attempt. `grants` tells for
/// each of these steps, counted down, whether the lock polled grants itself.
pub open spec fn attempt(
    tasks: Seq<Task>,
    mover: int,
    steps: nat,
    grants: spec_fn(nat) -> bool,
) -> Seq<Task>
    decreases steps,
{
    if steps == 0 || !(tasks[mover].phase is Attempting) {
        tasks
    } else {
        attempt(
            advance(tasks, Step { mover, granted: grants(steps) }),
            mover,
            (steps - 1) as nat,
            grants,
        )
    }
}

/// The tasks after one poll of `mover` with nobody else moving meanwhile: it
/// looks at the resource it waited for, if any; then at the dispatch lock;
/// then goes through its attempt until it has its bundle or gives up.
/// `woken` and `turn` tell whether the first two locks grant themselves,
/// `grants` whether those of the attempt do.
pub open spec fn polled_once(
    tasks: Seq<Task>,
    mover: int,
    woken: bool,
    turn: bool,
    grants: spec_fn(nat) -> bool,
) -> Seq<Task> {
    let awake = if tasks[mover].phase is WaitForResource {
        advance(tasks, Step { mover, granted: woken })
    } else {
        tasks
    };
    let turned = if awake[mover].phase is WaitForDispatch {
        advance(awake, Step { mover, granted: turn })
    } else {
        awake
    };
    attempt(turned, mover, turned[mover].required.len() + 1, grants)
}

proof fn lemma_attempt_ends(tasks: Seq<Task>, mover: int, steps: nat, grants: spec_fn(nat) -> bool)
    requires
        consistent(tasks),
        0 <= mover < tasks.len(),
        tasks[mover].phase matches TaskPhase::Attempting(taken) && steps + taken
            >= tasks[mover].required.len() + 1,
    ensures
        attempt(tasks, mover, steps, grants)[mover].required == tasks[mover].required,
        match attempt(tasks, mover, steps, grants)[mover].phase {
            TaskPhase::Holding => true,
            TaskPhase::WaitForResource(resource) => tasks[mover].required.contains(resource),
            _ => false,
        },
    decreases steps,
{
    let step = Step { mover, granted: grants(steps) };
    let next = advance(tasks, step);
    lemma_advance_is_consistent(tasks, step);
    if next[mover].phase is Attempting {
        lemma_attempt_ends(next, mover, (steps - 1) as nat, grants);
    } else {
        assert(attempt(next, mover, (steps - 1) as nat, grants) == next);
    }
}

/// The protocol stays within what a poll of an acquisition attempt promises,
/// whatever the locks grant: a poll of a suspended task ends with the task
/// suspended again, holding nothing, or with its bundle, holding everything;
/// and the phase it is left in is one that the contract of a poll allows.
pub proof fn lemma_poll_keeps_the_contract(
    tasks: Seq<Task>,
    mover: int,
    requirements: Requirements,
    woken: bool,
    turn: bool,
    grants: spec_fn(nat) -> bool,
)
    requires
        consistent(tasks),
        0 <= mover < tasks.len(),
        tasks[mover].required == requirements.in_order(),
        tasks[mover].phase is WaitForDispatch || tasks[mover].phase is WaitForResource,
    ensures
        ({
            let before = tasks[mover].phase.between_polls();
            let task = polled_once(tasks, mover, woken, turn, grants)[mover];
            let after = task.phase.between_polls();
            &&& before is Some
            &&& after is Some
            &&& task.phase is Holding ==> task.holds_everything() && before->0.may_become(
                after->0,
                requirements,
                Some(requirements),
            )
            &&& !(task.phase is Holding) ==> task.holds_nothing() && before->0.may_become(
                after->0,
                requirements,
                None,
            )
        }),
{
    let first = Step { mover, granted: woken };
    let awake = if tasks[mover].phase is WaitForResource {
        advance(tasks, first)
    } else {
        tasks
    };
    lemma_advance_is_consistent(tasks, first);
    let second = Step { mover, granted: turn };
    let turned = if awake[mover].phase is WaitForDispatch {
        advance(awake, second)
    } else {
        awake
    };
    lemma_advance_is_consistent(awake, second);
    let steps: nat = turned[mover].required.len() + 1;
    if turned[mover].phase is Attempting {
        lemma_attempt_ends(turned, mover, steps, grants);
        let task = attempt(turned, mover, steps, grants)[mover];
        if let TaskPhase::WaitForResource(resource) = task.phase {
            let at: int = choose|at: int|
                0 <= at < task.required.len() && task.required[at] == resource;
            if at < requirements.reads.len() {
                assert(requirements.reads[at] == resource);
            } else {
                assert(requirements.writes[at - requirements.reads.len()] == resource);
            }
        }
    }
}

/// The phase of the protocol that an acquisition attempt is in when it
/// shows `phase` between two polls and its bundle, if handed out, is alive.
pub open spec fn in_protocol(phase: AcquirePhase) -> TaskPhase {
    match phase {
        AcquirePhase::WaitForDispatch => TaskPhase::WaitForDispatch,
        AcquirePhase::WaitForResource(resource) => TaskPhase::WaitForResource(resource),
        AcquirePhase::Finished => TaskPhase::Holding,
    }
}

/// The task that an acquisition attempt is in the protocol.
pub open spec fn task_of(phase: AcquirePhase, requirements: Requirements) -> Task {
    Task { required: requirements.in_order(), phase: in_protocol(phase) }
}

impl Task {
    /// The task after lock operations of its own, one for each entry of
    /// `answers`, each answered with a guard or not as the entry tells.
    pub open spec fn after_answers(self, answers: Seq<bool>) -> Task
        decreases answers.len(),
    {
        if answers.len() == 0 {
            self
        } else {
            let before = self.after_answers(answers.drop_last());
            before.moved_to(before.after_answer(answers.last()))
        }
    }
}

proof fn lemma_one_answer(task: Task, taken: bool)
    ensures
        task.after_answers(seq![taken]) == task.moved_to(task.after_answer(taken)),
{
    assert(seq![taken].drop_last() =~= Seq::<bool>::empty());
    assert(task.after_answers(seq![taken].drop_last()) == task);
}

proof fn lemma_answers_in_a_row(task: Task, first: Seq<bool>, second: Seq<bool>)
    ensures
        task.after_answers(first + second) == task.after_answers(first).after_answers(second),
    decreases second.len(),
{
    if second.len() == 0 {
        assert(first + second =~= first);
    } else {
        assert((first + second).drop_last() =~= first + second.drop_last());
        lemma_answers_in_a_row(task, first, second.drop_last());
    }
}

// A task in an attempt whose next locks all answer with a guard has taken
// that many locks more.
proof fn lemma_guards_in_a_row(task: Task, so_far: nat, more: nat)
    requires
        task.phase == TaskPhase::Attempting(so_far),
        so_far + more <= task.required.len(),
    ensures
        task.after_answers(Seq::new(more, |at: int| true)) == task.moved_to(
            TaskPhase::Attempting(so_far + more),
        ),
    decreases more,
{
    let answers = Seq::new(more, |at: int| true);
    if more > 0 {
        let fewer: nat = (more - 1) as nat;
        assert(answers.drop_last() =~= Seq::new(fewer, |at: int| true));
        lemma_guards_in_a_row(task, so_far, fewer);
    }
}

// What a task can come to from lock operations of its own, started between
// two polls of an attempt that has not handed out its bundle.
spec fn comes_from(phase: TaskPhase, start: AcquirePhase, requirements: Requirements) -> bool {
    match phase {
        TaskPhase::WaitForResource(resource) => start == AcquirePhase::WaitForResource(resource)
            || requirements.names(resource),
        TaskPhase::Attempting(taken) => taken <= requirements.in_order().len(),
        _ => true,
    }
}

proof fn lemma_answers_stay_in_reach(
    start: AcquirePhase,
    requirements: Requirements,
    answers: Seq<bool>,
)
    requires
        start != AcquirePhase::Finished,
    ensures
        task_of(start, requirements).after_answers(answers).required == requirements.in_order(),
        comes_from(task_of(start, requirements).after_answers(answers).phase, start, requirements),
    decreases answers.len(),
{
    if answers.len() > 0 {
        lemma_answers_stay_in_reach(start, requirements, answers.drop_last());
        let before = task_of(start, requirements).after_answers(answers.drop_last());
        if let TaskPhase::Attempting(taken) = before.phase {
            if taken < before.required.len() {
                let blocker = before.required[taken as int];
                if taken < requirements.reads.len() {
                    assert(requirements.reads[taken as int] == blocker);
                } else {
                    assert(requirements.writes[taken - requirements.reads.len()] == blocker);
                }
            }
        }
    }
}

/// The contract of a poll allows what the protocol does: whatever the locks
/// answer, and however many lock operations a task goes through, when it is
/// between two polls again it shows a phase that `may_become` allows, with
/// the bundle over exactly its requirements if it has one and without a
/// bundle otherwise.
pub proof fn lemma_protocol_keeps_the_contract(
    start: AcquirePhase,
    requirements: Requirements,
    answers: Seq<bool>,
)
    requires
        start != AcquirePhase::Finished,
    ensures
        match task_of(start, requirements).after_answers(answers).phase.between_polls() {
            Some(shown) => start.may_become(
                shown,
                requirements,
                if shown == AcquirePhase::Finished {
                    Some(requirements)
                } else {
                    None
                },
            ),
            None => true,
        },
{
    lemma_answers_stay_in_reach(start, requirements, answers);
}

/// The contract of a poll allows no more than the protocol does: whatever
/// `may_become` allows an attempt to become, lock operations of the task
/// bring it there, for some answers of the locks. With a bundle the task
/// ends holding every lock it requires, without one holding none.
pub proof fn lemma_contract_is_the_protocol(
    start: AcquirePhase,
    shown: AcquirePhase,
    requirements: Requirements,
    bundle: Option<Requirements>,
) -> (answers: Seq<bool>)
    requires
        start != AcquirePhase::Finished,
        start.may_become(shown, requirements, bundle),
    ensures
        task_of(start, requirements).after_answers(answers) == task_of(shown, requirements),
        bundle is Some ==> task_of(shown, requirements).holds_everything(),
        bundle is None ==> task_of(shown, requirements).holds_nothing(),
{
    let task = task_of(start, requirements);
    let required = requirements.in_order();
    if shown == start && bundle is None {
        Seq::<bool>::empty()
    } else {
        // First back to waiting for its turn, then into the attempt.
        let wake = if start is WaitForResource {
            seq![true]
        } else {
            Seq::<bool>::empty()
        };
        let waiting = task.moved_to(TaskPhase::WaitForDispatch);
        assert(task.after_answers(wake) == waiting) by {
            if start is WaitForResource {
                lemma_one_answer(task, true);
            }
        }
        if shown == AcquirePhase::WaitForDispatch {
            wake
        } else {
            let taken: nat = if let AcquirePhase::WaitForResource(resource) = shown {
                if requirements.reads.contains(resource) {
                    let at: int = choose|at: int|
                        0 <= at < requirements.reads.len() && requirements.reads[at] == resource;
                    assert(required[at] == resource);
                    at as nat
                } else {
                    let at: int = choose|at: int|
                        0 <= at < requirements.writes.len() && requirements.writes[at] == resource;
                    assert(required[requirements.reads.len() + at] == resource);
                    (requirements.reads.len() + at) as nat
                }
            } else {
                required.len()
            };
            let attempting = task.moved_to(TaskPhase::Attempting(0));
            lemma_one_answer(waiting, true);
            lemma_guards_in_a_row(attempting, 0, taken);
            let guards = Seq::new(taken, |at: int| true);
            let last = !(shown is WaitForResource);
            lemma_one_answer(attempting.after_answers(guards), last);
            lemma_answers_in_a_row(task, wake, seq![true]);
            lemma_answers_in_a_row(task, wake + seq![true], guards);
            lemma_answers_in_a_row(task, wake + seq![true] + guards, seq![last]);
            wake + seq![true] + guards + seq![last]
        }
    }
}

} // verus!
