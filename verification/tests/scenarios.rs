use async_dispatcher::execute_sequential::SequentialStep;
use async_dispatcher::frame_loop::FrameStep;
use async_dispatcher::task_execution::Execution;
use async_dispatcher::{
    Dispatcher, DispatcherBuilder, ExecuteParallel, ExecuteSequential, FrameLoop,
    RequiredResources, TaskExecution,
};
use futures::future::{lazy, loop_fn, Loop};
use futures::{Async, Future, Poll};
use shred::{Accessor, ReadExpect, RunNow, System, World, WriteExpect};
use std::sync::Arc;

type BoxedTask = Box<dyn Future<Item = (), Error = ()> + Send>;

// A task as the executor sees it: take the locks, run, let go.
fn task<T>(dispatcher: &Arc<Dispatcher>, system: T) -> BoxedTask
where
    T: for<'b> System<'b> + Send + 'static,
{
    let required =
        RequiredResources::<T>::new(system.accessor().reads(), system.accessor().writes());
    let mut execution = TaskExecution::new(dispatcher.clone(), required, system);
    Box::new(futures::future::poll_fn(move || {
        assert!(execution.is_well_formed());
        assert!(!execution.is_resolved());
        let run_now = |mut system: T, world: &World| {
            system.run_now(world);
            system
        };
        match execution.poll(run_now) {
            Execution::Finished(_) => Ok(Async::Ready(())),
            Execution::NotReady => Ok(Async::NotReady),
            Execution::NoTask => panic!("polled outside a task"),
        }
    }))
}

struct Sequential {
    members: Vec<BoxedTask>,
    progress: ExecuteSequential,
}

fn sequential(members: Vec<BoxedTask>) -> BoxedTask {
    let progress = ExecuteSequential::new(members.len());
    Box::new(Sequential { members, progress })
}

impl Future for Sequential {
    type Item = ();
    type Error = ();

    fn poll(&mut self) -> Poll<(), ()> {
        let mut current = self.progress.current();
        while let Some(member) = current {
            let resolved = match self.members[member].poll()? {
                Async::Ready(()) => true,
                Async::NotReady => false,
            };
            current = match self.progress.member_polled(resolved) {
                SequentialStep::Suspend => return Ok(Async::NotReady),
                SequentialStep::Poll(next) => Some(next),
                SequentialStep::Resolve => None,
            };
        }
        Ok(Async::Ready(()))
    }
}

struct Parallel {
    members: Vec<BoxedTask>,
    progress: ExecuteParallel,
}

fn parallel(members: Vec<BoxedTask>) -> BoxedTask {
    let progress = ExecuteParallel::new(members.len());
    Box::new(Parallel { members, progress })
}

impl Future for Parallel {
    type Item = ();
    type Error = ();

    fn poll(&mut self) -> Poll<(), ()> {
        let mut pending = self.progress.first_pending_from(0);
        while let Some(member) = pending {
            if let Async::Ready(()) = self.members[member].poll()? {
                self.progress.member_resolved(member);
            }
            pending = self.progress.first_pending_from(member + 1);
        }
        if self.progress.is_resolved() {
            Ok(Async::Ready(()))
        } else {
            Ok(Async::NotReady)
        }
    }
}

// Runs frames until termination is requested and hands the store back.
fn run_frames(dispatcher: Dispatcher, frame: fn(Arc<Dispatcher>) -> BoxedTask) -> World {
    let dispatcher = Arc::new(dispatcher);
    let loop_dispatcher = dispatcher.clone();
    let frames = loop_fn(FrameLoop::new(), move |frames| {
        let boundary_dispatcher = loop_dispatcher.clone();
        frame(loop_dispatcher.clone()).map(move |_| {
            let mut frames = frames;
            match frames.frame_finished(boundary_dispatcher.termination_requested()) {
                FrameStep::Break => Loop::Break(()),
                FrameStep::Continue => Loop::Continue(frames),
            }
        })
    });
    tokio::run(frames);
    match Dispatcher::reclaim_world(dispatcher) {
        Ok(world) => world,
        Err(_) => panic!("a task outlived the loop"),
    }
}

struct ResourceA {
    value: i32,
}

struct ResourceB {
    value: i32,
}

struct Frames {
    run: u32,
}

struct Trace {
    entries: Vec<u32>,
}

// Reads A, writes B: B += A.
struct AddAToB;

impl<'a> System<'a> for AddAToB {
    type SystemData = (ReadExpect<'a, ResourceA>, WriteExpect<'a, ResourceB>);

    fn run(&mut self, (a, mut b): Self::SystemData) {
        b.value += a.value;
    }
}

struct IncrementA;

impl<'a> System<'a> for IncrementA {
    type SystemData = WriteExpect<'a, ResourceA>;

    fn run(&mut self, mut a: Self::SystemData) {
        a.value += 1;
    }
}

struct IncrementB;

impl<'a> System<'a> for IncrementB {
    type SystemData = WriteExpect<'a, ResourceB>;

    fn run(&mut self, mut b: Self::SystemData) {
        b.value += 1;
    }
}

// Counts the frames and asks for termination after the given number.
struct StopAfter {
    frames: u32,
    dispatcher: Arc<Dispatcher>,
}

impl<'a> System<'a> for StopAfter {
    type SystemData = WriteExpect<'a, Frames>;

    fn run(&mut self, mut frames: Self::SystemData) {
        frames.run += 1;
        if frames.run >= self.frames {
            self.dispatcher.end_game_loop();
        }
    }
}

struct Append {
    entry: u32,
}

impl<'a> System<'a> for Append {
    type SystemData = WriteExpect<'a, Trace>;

    fn run(&mut self, mut trace: Self::SystemData) {
        trace.entries.push(self.entry);
    }
}

fn stop_after(dispatcher: &Arc<Dispatcher>, frames: u32) -> BoxedTask {
    task(dispatcher, StopAfter { frames, dispatcher: dispatcher.clone() })
}

fn a_is_1_b_is_0() -> Dispatcher {
    DispatcherBuilder::new()
        .insert(ResourceA { value: 1 })
        .insert(ResourceB { value: 0 })
        .insert(Frames { run: 0 })
        .build()
}

#[test]
fn one_frame_adds_a_to_b_once() {
    let world = run_frames(a_is_1_b_is_0(), |dispatcher| {
        sequential(vec![task(&dispatcher, AddAToB), stop_after(&dispatcher, 1)])
    });
    assert_eq!(world.fetch::<ResourceB>().value, 1);
    assert_eq!(world.fetch::<ResourceA>().value, 1);
    assert_eq!(world.fetch::<Frames>().run, 1);
}

#[test]
fn ten_frames_add_a_to_b_ten_times() {
    let world = run_frames(a_is_1_b_is_0(), |dispatcher| {
        sequential(vec![task(&dispatcher, AddAToB), stop_after(&dispatcher, 10)])
    });
    assert_eq!(world.fetch::<ResourceB>().value, 10);
    assert_eq!(world.fetch::<Frames>().run, 10);
}

#[test]
fn parallel_tasks_on_disjoint_resources_finish_in_the_same_frame() {
    let world = run_frames(a_is_1_b_is_0(), |dispatcher| {
        sequential(vec![
            parallel(vec![task(&dispatcher, IncrementA), task(&dispatcher, IncrementB)]),
            stop_after(&dispatcher, 1),
        ])
    });
    assert_eq!(world.fetch::<Frames>().run, 1);
    assert_eq!(world.fetch::<ResourceA>().value, 2);
    assert_eq!(world.fetch::<ResourceB>().value, 1);
}

#[test]
fn parallel_tasks_on_one_resource_lose_no_update() {
    let world = run_frames(a_is_1_b_is_0(), |dispatcher| {
        sequential(vec![
            parallel(vec![task(&dispatcher, IncrementA), task(&dispatcher, IncrementA)]),
            stop_after(&dispatcher, 1),
        ])
    });
    assert_eq!(world.fetch::<ResourceA>().value, 3);
    assert_eq!(world.fetch::<ResourceB>().value, 0);
}

#[test]
fn tasks_spawned_side_by_side_lose_no_update() {
    // Each resource is required by two of the three tasks, so a lock never
    // has more than one task waiting for it.
    for _ in 0..50 {
        let dispatcher = Arc::new(a_is_1_b_is_0());
        let spawner = dispatcher.clone();
        tokio::run(lazy(move || {
            tokio::spawn(task(&spawner, IncrementA));
            tokio::spawn(task(&spawner, AddAToB));
            tokio::spawn(task(&spawner, IncrementB));
            Ok(())
        }));
        let world = match Dispatcher::reclaim_world(dispatcher) {
            Ok(world) => world,
            Err(_) => panic!("a task outlived the runtime"),
        };
        // B gets 1 from its increment and the value of A before or after the
        // increment of A.
        let a = world.fetch::<ResourceA>().value;
        let b = world.fetch::<ResourceB>().value;
        assert_eq!(a, 2);
        assert!(b == 1 + 1 || b == 1 + 2);
    }
}

#[test]
fn sequential_tasks_run_in_list_order() {
    let dispatcher = DispatcherBuilder::new()
        .insert(Trace { entries: vec![] })
        .insert(Frames { run: 0 })
        .build();
    let world = run_frames(dispatcher, |dispatcher| {
        sequential(vec![
            task(&dispatcher, Append { entry: 1 }),
            task(&dispatcher, Append { entry: 2 }),
            parallel(vec![task(&dispatcher, Append { entry: 3 })]),
            task(&dispatcher, Append { entry: 4 }),
            stop_after(&dispatcher, 2),
        ])
    });
    assert_eq!(world.fetch::<Trace>().entries, vec![1, 2, 3, 4, 1, 2, 3, 4]);
}

#[test]
fn a_request_during_a_frame_stops_the_loop_at_its_boundary() {
    let world = run_frames(a_is_1_b_is_0(), |dispatcher| {
        sequential(vec![
            stop_after(&dispatcher, 3),
            // The frame in which termination is requested still runs to its end.
            task(&dispatcher, IncrementB),
        ])
    });
    assert_eq!(world.fetch::<Frames>().run, 3);
    assert_eq!(world.fetch::<ResourceB>().value, 3);
}
