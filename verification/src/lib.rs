// A dispatcher that lets tasks declare the shared resources they read and
// write, and hands each task the locks for exactly those resources without
// ever deadlocking. Tasks on disjoint resources run concurrently.

pub mod trusted;
pub mod required_resources;
pub mod dispatcher;
pub mod acquire_resources;
pub mod task_execution;
pub mod execute_sequential;
pub mod execute_parallel;
pub mod frame_loop;
pub mod protocol;

pub use acquire_resources::AcquireResources;
pub use acquire_resources::AcquiredResourcesLockGuards;
pub use dispatcher::Dispatcher;
pub use dispatcher::DispatcherBuilder;
pub use execute_parallel::ExecuteParallel;
pub use execute_sequential::ExecuteSequential;
pub use frame_loop::FrameLoop;
pub use required_resources::RequiredResources;
pub use task_execution::TaskExecution;
