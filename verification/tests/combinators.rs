use async_dispatcher::execute_sequential::SequentialStep;
use async_dispatcher::frame_loop::FrameStep;
use async_dispatcher::{ExecuteParallel, ExecuteSequential, FrameLoop};

#[test]
fn sequential_members_are_polled_in_list_order() {
    let mut composite = ExecuteSequential::new(3);
    assert_eq!(composite.current(), Some(0));
    assert_eq!(composite.member_polled(true), SequentialStep::Poll(1));
    assert_eq!(composite.current(), Some(1));
    assert_eq!(composite.member_polled(true), SequentialStep::Poll(2));
    assert_eq!(composite.current(), Some(2));
    assert_eq!(composite.member_polled(true), SequentialStep::Resolve);
    assert_eq!(composite.current(), None);
}

#[test]
fn sequential_waits_for_the_current_member() {
    let mut composite = ExecuteSequential::new(2);
    assert_eq!(composite.member_polled(false), SequentialStep::Suspend);
    assert_eq!(composite.current(), Some(0));
    assert_eq!(composite.member_polled(false), SequentialStep::Suspend);
    assert_eq!(composite.current(), Some(0));
    assert_eq!(composite.member_polled(true), SequentialStep::Poll(1));
    assert_eq!(composite.member_polled(false), SequentialStep::Suspend);
    assert_eq!(composite.current(), Some(1));
    assert_eq!(composite.member_polled(true), SequentialStep::Resolve);
}

#[test]
fn sequential_without_members_has_nothing_to_poll() {
    let mut composite = ExecuteSequential::new(0);
    assert_eq!(composite.current(), None);
    assert_eq!(composite.member_polled(true), SequentialStep::Resolve);
    assert_eq!(composite.member_polled(false), SequentialStep::Resolve);
    assert_eq!(composite.current(), None);
}

#[test]
fn sequential_stays_resolved() {
    let mut composite = ExecuteSequential::new(1);
    assert_eq!(composite.member_polled(true), SequentialStep::Resolve);
    assert_eq!(composite.member_polled(true), SequentialStep::Resolve);
    assert_eq!(composite.current(), None);
}

#[test]
fn parallel_resolves_when_the_last_member_does() {
    let mut composite = ExecuteParallel::new(3);
    assert_eq!(composite.len(), 3);
    assert!(!composite.is_resolved());
    composite.member_resolved(2);
    assert!(!composite.is_resolved());
    composite.member_resolved(0);
    assert!(!composite.is_resolved());
    assert!(composite.is_pending(1));
    assert!(!composite.is_pending(0));
    assert!(!composite.is_pending(2));
    composite.member_resolved(1);
    assert!(composite.is_resolved());
}

#[test]
fn parallel_resolves_in_any_order() {
    let orders: [[usize; 3]; 6] =
        [[0, 1, 2], [0, 2, 1], [1, 0, 2], [1, 2, 0], [2, 0, 1], [2, 1, 0]];
    for order in orders.iter() {
        let mut composite = ExecuteParallel::new(3);
        composite.member_resolved(order[0]);
        assert!(!composite.is_resolved());
        composite.member_resolved(order[1]);
        assert!(!composite.is_resolved());
        composite.member_resolved(order[2]);
        assert!(composite.is_resolved());
    }
}

#[test]
fn parallel_names_the_pending_members_in_turn() {
    let mut composite = ExecuteParallel::new(4);
    assert_eq!(composite.first_pending_from(0), Some(0));
    composite.member_resolved(0);
    composite.member_resolved(2);
    assert_eq!(composite.first_pending_from(0), Some(1));
    assert_eq!(composite.first_pending_from(1), Some(1));
    assert_eq!(composite.first_pending_from(2), Some(3));
    assert_eq!(composite.first_pending_from(4), None);
    assert_eq!(composite.first_pending_from(9), None);
    composite.member_resolved(3);
    assert_eq!(composite.first_pending_from(2), None);
    assert_eq!(composite.first_pending_from(0), Some(1));
}

#[test]
fn parallel_ignores_resolutions_twice_and_out_of_range() {
    let mut composite = ExecuteParallel::new(2);
    composite.member_resolved(0);
    composite.member_resolved(0);
    composite.member_resolved(5);
    assert!(!composite.is_resolved());
    assert!(composite.is_pending(1));
    assert!(!composite.is_pending(5));
    composite.member_resolved(1);
    assert!(composite.is_resolved());
}

#[test]
fn parallel_without_members_is_resolved() {
    let composite = ExecuteParallel::new(0);
    assert_eq!(composite.len(), 0);
    assert!(composite.is_resolved());
    assert_eq!(composite.first_pending_from(0), None);
}

#[test]
fn the_frame_loop_continues_until_termination_is_seen() {
    let mut frames = FrameLoop::new();
    assert!(frames.is_running());
    assert_eq!(frames.frame_finished(false), FrameStep::Continue);
    assert_eq!(frames.frame_finished(false), FrameStep::Continue);
    assert!(frames.is_running());
    assert_eq!(frames.frame_finished(true), FrameStep::Break);
    assert!(!frames.is_running());
}

#[test]
fn the_frame_loop_stays_stopped() {
    let mut frames = FrameLoop::new();
    assert_eq!(frames.frame_finished(true), FrameStep::Break);
    assert_eq!(frames.frame_finished(false), FrameStep::Break);
    assert!(!frames.is_running());
}
