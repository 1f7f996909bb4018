//! A task slot that synchronizes its registration with its notification.
use vstd::prelude::*;

use crate::rt::condvar::{is_condvar, Condvar};
use crate::rt::execution::{active_set_keep, lemma_causality_update, scheduled, Execution};
use crate::rt::object::{Action, Object, Operation};
use crate::rt::synchronize::Synchronize;
use crate::rt::thread::{acquired, active_causality};
use crate::rt::trace::Trace;
use crate::rt::vv::vv_join;
use crate::rt::Failure;
use std::sync::atomic::Ordering;

verus! {

/// `new` is `old` after the active thread acquired the causality `v`; the
/// rest of the execution is unchanged.
pub open spec fn causality_acquired(old: Execution, new: Execution, v: Seq<usize>) -> bool {
    &&& new.running()
    &&& new.same_config(&old)
    &&& new.path == old.path
    &&& new.objects == old.objects
    &&& acquired(old.threads, new.threads, v)
}

/// The branching point on a notification object `obj`: the active thread
/// is about to operate on it, then the scheduler runs.
pub open spec fn branched_on(old: Execution, new: Execution, obj: Object, r: Result<bool, Failure>) -> bool {
    exists|mid: Execution|
        active_set_keep(old, mid, old.threads.active_thread().state, Some(Operation { obj, action: Action::Opaque }))
            && #[trigger] scheduled(mid, new, r)
}

/// Mock implementation of `futures::task::AtomicTask`, over tasks of type
/// `T`. A task that is to be notified is handed back to the caller, who
/// notifies it.
#[derive(Debug)]
pub struct AtomicTask<T> {
    task: Option<T>,
    object: Object,
    sync: Synchronize,
}

impl<T> AtomicTask<T> {
    /// The task registered last and not yet notified.
    pub closed spec fn registered(&self) -> Option<T> {
        self.task
    }

    /// The object of the execution that stands for this slot.
    pub closed spec fn obj(&self) -> Object {
        self.object
    }

    /// The causality released by the notifications so far.
    pub closed spec fn released(&self) -> Seq<usize> {
        self.sync@
    }

    /// The slot belongs to the execution `e`.
    pub closed spec fn fits(&self, e: Execution) -> bool {
        is_condvar(e, self.object) && self.sync@.len() == e.max_threads
    }

    /// Create a new instance of `AtomicTask`, with no task registered.
    pub fn new(execution: &mut Execution) -> (r: Self)
        requires
            old(execution).wf(),
        ensures
            final(execution).wf(),
            final(execution).same_config(old(execution)),
            final(execution).path == old(execution).path,
            final(execution).threads == old(execution).threads,
            final(execution).objects.causal_cells == old(execution).objects.causal_cells,
            final(execution).objects.entries@.drop_last() == old(execution).objects.entries@,
            r.obj().index == old(execution).objects.entries@.len(),
            r.fits(*final(execution)),
            r.registered() is None,
            r.released() == Seq::new(old(execution).max_threads as nat, |i: int| 0usize),
    {
        let cv = Condvar::new(execution);
        let max = execution.threads.max();
        AtomicTask { task: None, object: cv.obj, sync: Synchronize::new(max) }
    }

    /// The branching point of registering a task; `register_task` then
    /// registers it. Returns whether to switch threads.
    pub fn register_branch(&self, execution: &mut Execution, trace: &Trace) -> (r: Result<bool, Failure>)
        requires
            old(execution).running(),
            self.fits(*old(execution)),
        ensures
            branched_on(*old(execution), *final(execution), self.obj(), r),
    {
        self.object.branch_opaque(execution, trace)
    }

    /// Registers the current task, `current`, to be notified on calls to
    /// `notify`.
    pub fn register(&mut self, execution: &mut Execution, current: T)
        requires
            old(execution).running(),
            old(self).fits(*old(execution)),
        ensures
            causality_acquired(*old(execution), *final(execution), old(self).released()),
            final(self).fits(*final(execution)),
            final(self).obj() == old(self).obj(),
            final(self).released() == old(self).released(),
            final(self).registered() == Some(current),
    {
        self.register_task(execution, current)
    }

    /// Registers `task` to be notified on calls to `notify`: the active
    /// thread acquires the causality released by the notifications.
    pub fn register_task(&mut self, execution: &mut Execution, task: T)
        requires
            old(execution).running(),
            old(self).fits(*old(execution)),
        ensures
            causality_acquired(*old(execution), *final(execution), old(self).released()),
            final(self).fits(*final(execution)),
            final(self).obj() == old(self).obj(),
            final(self).released() == old(self).released(),
            final(self).registered() == Some(task),
    {
        let ghost old_e = *execution;
        self.sync.sync_load(&mut execution.threads, Ordering::Acquire);
        proof {
            lemma_causality_update(old_e, *execution);
        }
        self.task = Some(task);
    }

    /// The branching point of notifying; `notify` then takes the task.
    /// Returns whether to switch threads.
    pub fn notify_branch(&self, execution: &mut Execution, trace: &Trace) -> (r: Result<bool, Failure>)
        requires
            old(execution).running(),
            self.fits(*old(execution)),
        ensures
            branched_on(*old(execution), *final(execution), self.obj(), r),
    {
        self.object.branch_opaque(execution, trace)
    }

    /// Notifies the task that last called `register`: the slot releases the
    /// active thread's causality, and the task is taken and handed back to
    /// be notified.
    pub fn notify(&mut self, execution: &mut Execution) -> (r: Option<T>)
        requires
            old(execution).running(),
            old(self).fits(*old(execution)),
        ensures
            *final(execution) == *old(execution),
            final(self).fits(*final(execution)),
            final(self).obj() == old(self).obj(),
            final(self).released() == vv_join(old(self).released(), active_causality(old(execution).threads)),
            r == old(self).registered(),
            final(self).registered() is None,
    {
        self.sync.sync_store(&mut execution.threads, Ordering::Release);
        self.task.take()
    }
}

} // verus!
