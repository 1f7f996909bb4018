//! Mock implementations of the `std::sync` primitives.
pub mod atomic;
pub mod condvar;
pub mod mpsc;

pub use self::condvar::{Condvar, WaitTimeoutResult};
