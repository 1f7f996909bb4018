//! Future related synchronization primitives of the `futures` task model.
pub mod atomic_task;
pub mod atomic_waker;

pub use self::atomic_task::AtomicTask;
pub use self::atomic_waker::AtomicWaker;
