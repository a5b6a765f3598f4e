use async_dispatcher::acquire_resources::Acquisition;
use async_dispatcher::{AcquireResources, Dispatcher, DispatcherBuilder, RequiredResources};
use futures::Future;
use shred::ResourceId;
use std::sync::Arc;

struct Score {
    value: i32,
}

struct Lives {
    value: i32,
}

struct Unregistered;

struct Referee {
    calls: u32,
}

fn in_task<R>(body: impl FnOnce() -> R) -> R {
    match futures::future::lazy(|| Ok::<R, ()>(body())).wait() {
        Ok(value) => value,
        Err(()) => unreachable!(),
    }
}

#[test]
fn an_empty_builder_registers_nothing() {
    let dispatcher = DispatcherBuilder::new().build();
    assert!(!dispatcher.has_lock(&ResourceId::new::<Score>()));
    assert!(dispatcher.has_locks(&vec![]));
    assert!(!dispatcher.has_locks(&vec![ResourceId::new::<Score>()]));
    assert!(!dispatcher.world().has_value::<Score>());
    assert!(!dispatcher.world().has_value::<Lives>());
}

#[test]
fn every_inserted_resource_has_a_lock_and_a_value() {
    let dispatcher = DispatcherBuilder::new()
        .insert(Score { value: 7 })
        .insert(Lives { value: 3 })
        .build();
    assert!(dispatcher.has_lock(&ResourceId::new::<Score>()));
    assert!(dispatcher.has_lock(&ResourceId::new::<Lives>()));
    assert!(!dispatcher.has_lock(&ResourceId::new::<Unregistered>()));
    assert!(dispatcher.has_locks(&vec![
        ResourceId::new::<Lives>(),
        ResourceId::new::<Score>(),
    ]));
    assert!(!dispatcher.has_locks(&vec![
        ResourceId::new::<Lives>(),
        ResourceId::new::<Unregistered>(),
        ResourceId::new::<Score>(),
    ]));
    assert!(dispatcher.world().has_value::<Score>());
    assert!(dispatcher.world().has_value::<Lives>());
    assert!(!dispatcher.world().has_value::<Unregistered>());
    assert_eq!(dispatcher.world().fetch::<Score>().value, 7);
    assert_eq!(dispatcher.world().fetch::<Lives>().value, 3);
}

#[test]
fn the_store_holds_a_resource_for_every_lock_and_no_other() {
    let (builder, score) = DispatcherBuilder::new().register(Score { value: 7 });
    let (builder, lives) = builder.register(Lives { value: 3 });
    let dispatcher = Arc::new(builder.build());
    for id in vec![score, lives] {
        assert!(dispatcher.has_lock(&id));
        assert!(dispatcher.world().has_value_raw(id));
    }
    let stranger = ResourceId::new::<Unregistered>();
    assert!(!dispatcher.has_lock(&stranger));
    assert!(!dispatcher.world().has_value_raw(stranger));
    let world = match Dispatcher::reclaim_world(dispatcher) {
        Ok(world) => world,
        Err(_) => panic!("the only reference could not reclaim the store"),
    };
    assert!(world.has_value::<Score>());
    assert!(world.has_value::<Lives>());
    assert!(!world.has_value::<Unregistered>());
}

#[test]
fn register_tells_the_id_of_the_lock() {
    let (builder, score) = DispatcherBuilder::new().register(Score { value: 7 });
    let (builder, lives) = builder.register(Lives { value: 3 });
    let dispatcher = builder.build();
    assert_eq!(score, ResourceId::new::<Score>());
    assert_eq!(lives, ResourceId::new::<Lives>());
    assert!(dispatcher.has_locks(&vec![score, lives]));
    assert_eq!(dispatcher.world().fetch::<Score>().value, 7);
    assert_eq!(dispatcher.world().fetch::<Lives>().value, 3);
}

#[test]
fn inserting_a_type_again_replaces_the_value() {
    let dispatcher = DispatcherBuilder::new()
        .insert(Score { value: 1 })
        .insert(Score { value: 2 })
        .build();
    assert!(dispatcher.has_lock(&ResourceId::new::<Score>()));
    assert_eq!(dispatcher.world().fetch::<Score>().value, 2);
}

#[test]
fn required_resources_keep_their_lists() {
    let reads = vec![ResourceId::new::<Score>(), ResourceId::new::<Lives>()];
    let writes = vec![ResourceId::new::<Unregistered>()];
    let required = RequiredResources::<Referee>::new(reads.clone(), writes.clone());
    assert_eq!(required.reads(), &reads);
    assert_eq!(required.writes(), &writes);
    let empty = RequiredResources::<Referee>::new(vec![], vec![]);
    assert!(empty.reads().is_empty());
    assert!(empty.writes().is_empty());
}

#[test]
fn termination_is_requested_once_and_for_all() {
    let dispatcher = DispatcherBuilder::new().build();
    assert!(!dispatcher.termination_requested());
    dispatcher.end_game_loop();
    assert!(dispatcher.termination_requested());
    dispatcher.end_game_loop();
    assert!(dispatcher.termination_requested());
}

#[test]
fn the_last_reference_reclaims_the_store() {
    let dispatcher = Arc::new(DispatcherBuilder::new().insert(Score { value: 11 }).build());
    match Dispatcher::reclaim_world(dispatcher) {
        Ok(world) => assert_eq!(world.fetch::<Score>().value, 11),
        Err(_) => panic!("the only reference could not reclaim the store"),
    }
}

#[test]
fn a_shared_dispatcher_keeps_its_store() {
    let dispatcher = Arc::new(DispatcherBuilder::new().insert(Score { value: 11 }).build());
    let pending = AcquireResources::<Referee>::new(
        dispatcher.clone(),
        RequiredResources::new(vec![], vec![ResourceId::new::<Score>()]),
    );
    let dispatcher = match Dispatcher::reclaim_world(dispatcher) {
        Err(still_shared) => still_shared,
        Ok(_) => panic!("the store was taken while an attempt referred to the dispatcher"),
    };
    assert_eq!(dispatcher.world().fetch::<Score>().value, 11);
    drop(pending);
    assert!(Dispatcher::reclaim_world(dispatcher).is_ok());
}

#[test]
fn run_system_runs_the_body_against_the_store() {
    let dispatcher = Arc::new(DispatcherBuilder::new().insert(Score { value: 40 }).build());
    let mut attempt = AcquireResources::<Referee>::new(
        dispatcher.clone(),
        RequiredResources::new(vec![], vec![ResourceId::new::<Score>()]),
    );
    let guards = match in_task(|| attempt.poll()) {
        Acquisition::Ready(guards) => guards,
        _ => panic!("a free resource was found taken"),
    };
    let referee = dispatcher.run_system(&guards, Referee { calls: 0 }, |mut referee, world| {
        world.fetch_mut::<Score>().value += 2;
        referee.calls += 1;
        referee
    });
    drop(guards);
    assert_eq!(referee.calls, 1);
    assert_eq!(dispatcher.world().fetch::<Score>().value, 42);
}
