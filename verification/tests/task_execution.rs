use async_dispatcher::acquire_resources::Acquisition;
use async_dispatcher::task_execution::Execution;
use async_dispatcher::{
    AcquireResources, Dispatcher, DispatcherBuilder, RequiredResources, TaskExecution,
};
use futures::Future;
use shred::{ResourceId, World};
use std::sync::Arc;

struct Counter {
    value: i32,
}

struct Unregistered;

struct Bump {
    by: i32,
    runs: u32,
}

fn in_task<R>(body: impl FnOnce() -> R) -> R {
    match futures::future::lazy(|| Ok::<R, ()>(body())).wait() {
        Ok(value) => value,
        Err(()) => unreachable!(),
    }
}

fn dispatcher() -> Arc<Dispatcher> {
    Arc::new(DispatcherBuilder::new().insert(Counter { value: 10 }).build())
}

fn writes_counter() -> RequiredResources<Bump> {
    RequiredResources::new(vec![], vec![ResourceId::new::<Counter>()])
}

fn bump(mut system: Bump, world: &World) -> Bump {
    world.fetch_mut::<Counter>().value += system.by;
    system.runs += 1;
    system
}

#[test]
fn a_task_with_free_resources_runs_at_the_first_poll() {
    let dispatcher = dispatcher();
    let mut execution =
        TaskExecution::new(dispatcher.clone(), writes_counter(), Bump { by: 5, runs: 0 });
    assert!(execution.is_well_formed());
    assert!(!execution.is_resolved());
    match in_task(|| execution.poll(bump)) {
        Execution::Finished(system) => {
            assert_eq!(system.runs, 1);
            assert_eq!(system.by, 5);
        }
        _ => panic!("a free resource was found taken"),
    }
    assert!(execution.is_resolved());
    assert!(execution.is_well_formed());
    assert_eq!(dispatcher.world().fetch::<Counter>().value, 15);
}

#[test]
fn a_finished_task_has_let_go_of_its_locks() {
    let dispatcher = dispatcher();
    let mut first =
        TaskExecution::new(dispatcher.clone(), writes_counter(), Bump { by: 1, runs: 0 });
    let mut second =
        TaskExecution::new(dispatcher.clone(), writes_counter(), Bump { by: 2, runs: 0 });
    in_task(|| {
        assert!(matches!(first.poll(bump), Execution::Finished(_)));
        assert!(matches!(second.poll(bump), Execution::Finished(_)));
    });
    assert_eq!(dispatcher.world().fetch::<Counter>().value, 13);
}

#[test]
fn a_blocked_task_does_not_run() {
    let dispatcher = dispatcher();
    let mut holder = AcquireResources::new(dispatcher.clone(), writes_counter());
    let mut execution =
        TaskExecution::new(dispatcher.clone(), writes_counter(), Bump { by: 5, runs: 0 });
    in_task(|| {
        let bundle = match holder.poll() {
            Acquisition::Ready(bundle) => bundle,
            _ => panic!("a free resource was found taken"),
        };
        assert!(matches!(execution.poll(bump), Execution::NotReady));
        assert!(!execution.is_resolved());
        assert!(execution.is_well_formed());
        assert_eq!(dispatcher.world().fetch::<Counter>().value, 10);
        drop(bundle);
        match execution.poll(bump) {
            Execution::Finished(system) => assert_eq!(system.runs, 1),
            _ => panic!("a released resource was found taken"),
        }
    });
    assert!(execution.is_resolved());
    assert_eq!(dispatcher.world().fetch::<Counter>().value, 15);
}

#[test]
fn a_task_polled_outside_a_task_does_not_run() {
    let dispatcher = dispatcher();
    let mut execution =
        TaskExecution::new(dispatcher.clone(), writes_counter(), Bump { by: 5, runs: 0 });
    assert!(matches!(execution.poll(bump), Execution::NoTask));
    assert!(!execution.is_resolved());
    assert_eq!(dispatcher.world().fetch::<Counter>().value, 10);
}

#[test]
fn a_task_on_an_unregistered_resource_is_not_well_formed() {
    let execution = TaskExecution::new(
        dispatcher(),
        RequiredResources::new(vec![ResourceId::new::<Unregistered>()], vec![]),
        Bump { by: 5, runs: 0 },
    );
    assert!(!execution.is_well_formed());
    assert!(!execution.is_resolved());
}
