//! Mocked versions of `std::hint` functions.
use vstd::prelude::*;

use crate::rt::execution::Execution;
use crate::rt::thread::yielded;
use crate::rt::trace::Trace;
use crate::rt::Failure;

verus! {

/// Signals the processor that it is entering a busy-wait spin-loop: the
/// active thread yields. Returns whether to switch threads.
pub fn spin_loop(execution: &mut Execution, trace: &Trace) -> (r: Result<bool, Failure>)
    requires
        old(execution).running(),
        old(execution).threads.active_thread().yield_count < usize::MAX,
    ensures
        yielded(*old(execution), *final(execution), r),
{
    crate::sync::atomic::spin_loop_hint(execution, trace)
}

} // verus!
