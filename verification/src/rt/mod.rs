use vstd::prelude::*;

use crate::rt::execution::{active_set_keep, scheduled, yield_set, Execution};
use crate::rt::thread::{active_causality, yielded};
use crate::rt::trace::Trace;

pub mod allocation;
pub mod arc;
pub mod condvar;
pub mod atomic;
pub mod causal;
pub mod cell;
pub mod execution;
pub mod mpsc;
pub mod mutex;
pub mod notify;
pub mod object;
pub mod path;
pub mod rwlock;
pub mod synchronize;
pub mod thread;
pub mod trace;
pub mod vv;

verus! {

/// Why a model run cannot go on. The driver reports each as a test failure.
#[derive(Debug, Clone, Copy, PartialEq, Eq, Structural)]
pub enum Failure {
    /// The model exceeded the maximum number of branches; this is often
    /// caused by an algorithm requiring the processor to make progress, e.g.
    /// spin locks without a yield.
    BranchLimit,
    /// The model did not replay the same sequence of operations as the
    /// execution it is being steered along: it is not fully deterministic.
    Nondeterministic,
    /// A thread was preempted more often than the preemption counter holds.
    PreemptionOverflow,
    /// No thread can run and not all threads have terminated.
    Deadlock,
    /// Two accesses to a cell are not ordered by happens-before although the
    /// memory model requires them to be.
    CausalityViolation,
    /// An atomic cell was accessed while its value was mutably borrowed.
    AtomicMutating,
    /// An atomic cell was stored to more often than its store counter holds.
    StoreOverflow,
    /// A cell was entered while a conflicting access to it was still in
    /// progress.
    CellBusy,
    /// An allocation or a reference-counted object was still alive at the
    /// end of an execution.
    Leak,
    /// The model created more threads than it was configured for.
    ThreadLimit,
}

/// Parks the active thread. If it was unparked while it was running, it
/// consumes that unpark and goes on; otherwise it blocks, and the scheduler
/// picks another thread. Returns whether to switch threads.
pub fn park(execution: &mut Execution, trace: &Trace) -> (r: Result<bool, Failure>)
    requires
        old(execution).running(),
    ensures
        old(execution).threads.active_thread().state == (thread::State::Runnable { unparked: true }) ==> {
            &&& r == Ok::<bool, Failure>(false)
            &&& final(execution).running()
            &&& active_set_keep(
                *old(execution),
                *final(execution),
                thread::State::Runnable { unparked: false },
                old(execution).threads.active_thread().operation,
            )
        },
        old(execution).threads.active_thread().state != (thread::State::Runnable { unparked: true }) ==> exists|
            mid: Execution,
        |
            active_set_keep(*old(execution), mid, thread::State::Blocked, None) && #[trigger] scheduled(
                mid,
                *final(execution),
                r,
            ),
{
    let a = execution.threads.active.unwrap();
    let st = execution.threads.threads[a].state;
    match st {
        // The thread was previously unparked while it was active. Instead of
        // parking, consume the unpark.
        thread::State::Runnable { unparked: true } => {
            let op = execution.threads.threads[a].operation;
            execution.set_active(thread::State::Runnable { unparked: false }, op);
            return Ok(false);
        },
        _ => {},
    }
    // The thread doesn't have a saved unpark; it blocks.
    execution.set_active(thread::State::Blocked, None);
    let ghost mid = *execution;
    let r = execution.schedule(trace);
    assert(scheduled(mid, *execution, r));
    r
}

/// Yields the active thread, so that other threads can make progress. It
/// runs again once another thread ran, or when no other thread can.
/// Returns whether to switch threads.
pub fn yield_now(execution: &mut Execution, trace: &Trace) -> (r: Result<bool, Failure>)
    requires
        old(execution).running(),
        old(execution).threads.active_thread().yield_count < usize::MAX,
    ensures
        yielded(*old(execution), *final(execution), r),
{
    execution.yield_active();
    let ghost mid = *execution;
    let r = execution.schedule(trace);
    assert(yield_set(*old(execution), mid) && scheduled(mid, *execution, r));
    r
}

/// The active thread has finished: it terminates and the scheduler picks
/// the next thread.
pub fn thread_done(execution: &mut Execution, trace: &Trace) -> (r: Result<bool, Failure>)
    requires
        old(execution).running(),
    ensures
        exists|mid: Execution|
            active_set_keep(*old(execution), mid, thread::State::Terminated, None) && #[trigger] scheduled(
                mid,
                *final(execution),
                r,
            ),
{
    execution.set_active(thread::State::Terminated, None);
    let ghost mid = *execution;
    let r = execution.schedule(trace);
    assert(scheduled(mid, *execution, r));
    r
}

/// Tells loom to explore possible concurrent executions starting at
/// this point.
pub fn explore(execution: &mut Execution)
    requires
        old(execution).wf(),
    ensures
        final(execution).wf(),
        final(execution).threads == old(execution).threads,
        final(execution).objects == old(execution).objects,
        final(execution).path.exploring == (old(execution).path.exploring || !old(execution).path.skipping),
        final(execution).path.skipping == old(execution).path.skipping,
        final(execution).path.branches == old(execution).path.branches,
        final(execution).path.pos == old(execution).path.pos,
{
    execution.path.explore_state();
}

/// Tells loom to stop exploring possible concurrent executions
/// starting at this point; `explore` enables it again.
pub fn stop_exploring(execution: &mut Execution)
    requires
        old(execution).wf(),
    ensures
        final(execution).wf(),
        final(execution).threads == old(execution).threads,
        final(execution).objects == old(execution).objects,
        !final(execution).path.exploring,
        final(execution).path.skipping == old(execution).path.skipping,
        final(execution).path.branches == old(execution).path.branches,
        final(execution).path.pos == old(execution).path.pos,
{
    execution.path.critical();
}

/// Tells loom to stop exploring possible concurrent executions
/// starting at this point. Unlike `stop_exploring`, exploration cannot be
/// restarted by `explore`.
pub fn skip_branch(execution: &mut Execution)
    requires
        old(execution).wf(),
    ensures
        final(execution).wf(),
        final(execution).threads == old(execution).threads,
        final(execution).objects == old(execution).objects,
        !final(execution).path.exploring,
        final(execution).path.skipping,
        final(execution).path.branches == old(execution).path.branches,
        final(execution).path.pos == old(execution).path.pos,
{
    execution.path.skip_branch();
}

} // verus!
