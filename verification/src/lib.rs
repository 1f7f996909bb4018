//! Loom, a tool for testing concurrent programs by permutation: vector clocks, the
//! depth-first exploration path, the thread set and the DPOR scheduler, the
//! memory-model state of atomics and causally checked cells.
use vstd::prelude::*;

pub mod track;
pub mod cell;
pub mod future;
pub mod futures;
pub mod fuzz;
pub mod hint;
pub mod rt;
pub mod sync;
pub mod thread;
pub mod util;

verus! {

/// Maximum number of threads that can be included in a model.
pub const MAX_THREADS: usize = 5;

/// Maximum number of atomic stores tracked per atomic cell.
pub const MAX_ATOMIC_HISTORY: usize = 7;

} // verus!
