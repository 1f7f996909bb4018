//! Future related synchronization primitives.
pub mod atomic_waker;

pub use self::atomic_waker::AtomicWaker;
