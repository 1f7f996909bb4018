//! Small data structures.
pub mod cached;

pub use self::cached::CachedVec;
