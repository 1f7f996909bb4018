//! A waker slot that synchronizes its registration with its wake-up.
use vstd::prelude::*;

use crate::futures::atomic_task::{branched_on, causality_acquired};
use crate::rt::condvar::{is_condvar, Condvar};
use crate::rt::execution::{lemma_causality_update, Execution};
use crate::rt::object::Object;
use crate::rt::synchronize::Synchronize;
use crate::rt::thread::active_causality;
use crate::rt::trace::Trace;
use crate::rt::vv::vv_join;
use crate::rt::Failure;
use std::sync::atomic::Ordering;

verus! {

/// Mock implementation of `tokio::sync::AtomicWaker` in the `futures` task
/// model, over wakers of type `W`. A waker that is to be woken is handed
/// back to the caller, who wakes it.
#[derive(Debug)]
pub struct AtomicWaker<W> {
    task: Option<W>,
    object: Object,
    sync: Synchronize,
}

impl<W> AtomicWaker<W> {
    /// The waker registered last and not yet woken.
    pub closed spec fn registered(&self) -> Option<W> {
        self.task
    }

    /// The object of the execution that stands for this slot.
    pub closed spec fn obj(&self) -> Object {
        self.object
    }

    /// The causality released by the wake-ups so far.
    pub closed spec fn released(&self) -> Seq<usize> {
        self.sync@
    }

    /// The slot belongs to the execution `e`.
    pub closed spec fn fits(&self, e: Execution) -> bool {
        is_condvar(e, self.object) && self.sync@.len() == e.max_threads
    }

    /// Create a new instance of `AtomicWaker`, with no waker registered.
    pub fn new(execution: &mut Execution) -> (r: Self)
        requires
            old(execution).wf(),
        ensures
            final(execution).wf(),
            final(execution).same_config(old(execution)),
            final(execution).path == old(execution).path,
            final(execution).threads == old(execution).threads,
            final(execution).objects.causal_cells == old(execution).objects.causal_cells,
            final(execution).objects.entries@.drop_last() == old(execution).objects.entries@,
            r.obj().index == old(execution).objects.entries@.len(),
            r.fits(*final(execution)),
            r.registered() is None,
            r.released() == Seq::new(old(execution).max_threads as nat, |i: int| 0usize),
    {
        let cv = Condvar::new(execution);
        let max = execution.threads.max();
        AtomicWaker { task: None, object: cv.obj, sync: Synchronize::new(max) }
    }

    /// The branching point of registering a waker; `register` then registers
    /// it. Returns whether to switch threads.
    pub fn register_branch(&self, execution: &mut Execution, trace: &Trace) -> (r: Result<bool, Failure>)
        requires
            old(execution).running(),
            self.fits(*old(execution)),
        ensures
            branched_on(*old(execution), *final(execution), self.obj(), r),
    {
        self.object.branch_opaque(execution, trace)
    }

    /// Registers `waker` to be woken on calls to `wake`: the active thread
    /// acquires the causality released by the wake-ups.
    pub fn register(&mut self, execution: &mut Execution, waker: W)
        requires
            old(execution).running(),
            old(self).fits(*old(execution)),
        ensures
            causality_acquired(*old(execution), *final(execution), old(self).released()),
            final(self).fits(*final(execution)),
            final(self).obj() == old(self).obj(),
            final(self).released() == old(self).released(),
            final(self).registered() == Some(waker),
    {
        let ghost old_e = *execution;
        self.sync.sync_load(&mut execution.threads, Ordering::Acquire);
        proof {
            lemma_causality_update(old_e, *execution);
        }
        self.task = Some(waker);
    }

    /// The branching point of waking; `wake` then takes the waker. Returns
    /// whether to switch threads.
    pub fn wake_branch(&self, execution: &mut Execution, trace: &Trace) -> (r: Result<bool, Failure>)
        requires
            old(execution).running(),
            self.fits(*old(execution)),
        ensures
            branched_on(*old(execution), *final(execution), self.obj(), r),
    {
        self.object.branch_opaque(execution, trace)
    }

    /// Wakes the waker registered last: the slot releases the active
    /// thread's causality, and the waker is taken and handed back to be
    /// woken.
    pub fn wake(&mut self, execution: &mut Execution) -> (r: Option<W>)
        requires
            old(execution).running(),
            old(self).fits(*old(execution)),
        ensures
            *final(execution) == *old(execution),
            final(self).fits(*final(execution)),
            final(self).obj() == old(self).obj(),
            final(self).released() == vv_join(old(self).released(), active_causality(old(execution).threads)),
            r == old(self).registered(),
            final(self).registered() is None,
    {
        self.sync.sync_store(&mut execution.threads, Ordering::Release);
        self.task.take()
    }
}

impl<W: Clone> AtomicWaker<W> {
    /// Registers a clone of `waker`, as `register` does.
    pub fn register_by_ref(&mut self, execution: &mut Execution, waker: &W)
        requires
            old(execution).running(),
            old(self).fits(*old(execution)),
        ensures
            causality_acquired(*old(execution), *final(execution), old(self).released()),
            final(self).fits(*final(execution)),
            final(self).obj() == old(self).obj(),
            final(self).released() == old(self).released(),
            final(self).registered() matches Some(w) && cloned(*waker, w),
    {
        let w = waker.clone();
        self.register(execution, w);
    }
}

} // verus!
