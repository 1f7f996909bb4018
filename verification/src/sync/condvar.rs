//! Mock implementation of `std::sync::Condvar`.
use vstd::prelude::*;

use crate::rt;
use crate::rt::condvar::{condvar_waiters, is_condvar, notified_all, notified_first};
use crate::rt::execution::{unparked, Execution};
use crate::rt::mutex::{entry_changed, is_mutex, lock_released, Mutex};
use crate::rt::object::Object;

verus! {

/// Mock implementation of `std::sync::Condvar`.
#[derive(Debug)]
pub struct Condvar {
    object: rt::condvar::Condvar,
}

/// A type indicating whether a timed wait on a condition variable returned
/// due to a time out or not.
#[derive(Debug)]
pub struct WaitTimeoutResult(bool);

impl Condvar {
    /// The condition variable object of the execution.
    pub closed spec fn obj(&self) -> Object {
        self.object.obj
    }

    /// Creates a new condition variable which is ready to be waited on and
    /// notified.
    pub fn new(execution: &mut Execution) -> (r: Condvar)
        requires
            old(execution).wf(),
        ensures
            final(execution).wf(),
            final(execution).same_config(old(execution)),
            final(execution).path == old(execution).path,
            final(execution).threads == old(execution).threads,
            final(execution).objects.causal_cells == old(execution).objects.causal_cells,
            final(execution).objects.entries@.drop_last() == old(execution).objects.entries@,
            r.obj().index == old(execution).objects.entries@.len(),
            is_condvar(*final(execution), r.obj()),
            condvar_waiters(*final(execution), r.obj()).len() == 0,
    {
        Condvar { object: rt::condvar::Condvar::new(execution) }
    }

    /// Blocks the current thread until this condition variable receives a
    /// notification: the thread joins the waiters and releases `mutex`.
    /// The caller then parks the thread and, once it runs again, takes the
    /// mutex again.
    pub fn wait(&self, execution: &mut Execution, mutex: &Mutex)
        requires
            old(execution).running(),
            is_condvar(*old(execution), self.obj()),
            is_mutex(*old(execution), mutex.obj),
        ensures
            final(execution).running(),
            exists|mid: Execution|
                {
                    &&& entry_changed(*old(execution), mid, self.obj(), mid.objects.entries@[self.obj().index as int])
                    &&& mid.threads == old(execution).threads
                    &&& is_condvar(mid, self.obj())
                    &&& condvar_waiters(mid, self.obj()) == condvar_waiters(*old(execution), self.obj()).push(
                        old(execution).threads.active_id_spec(),
                    )
                    &&& mid.objects.entries@[self.obj().index as int]->Condvar_0.last_access
                        == old(execution).objects.entries@[self.obj().index as int]->Condvar_0.last_access
                    &&& #[trigger] lock_released(mid, *final(execution), mutex.obj)
                },
    {
        self.object.wait(execution, mutex);
    }

    /// Wakes up one blocked thread on this condvar: the first to wait.
    pub fn notify_one(&self, execution: &mut Execution)
        requires
            old(execution).running(),
            is_condvar(*old(execution), self.obj()),
        ensures
            final(execution).running(),
            is_condvar(*final(execution), self.obj()),
            condvar_waiters(*old(execution), self.obj()).len() == 0 ==> *final(execution) == *old(execution),
            condvar_waiters(*old(execution), self.obj()).len() > 0 ==> notified_first(
                *old(execution),
                *final(execution),
                self.obj(),
            ),
    {
        self.object.notify_one(execution);
    }

    /// Wakes up all blocked threads on this condvar.
    pub fn notify_all(&self, execution: &mut Execution)
        requires
            old(execution).running(),
            is_condvar(*old(execution), self.obj()),
        ensures
            final(execution).running(),
            is_condvar(*final(execution), self.obj()),
            condvar_waiters(*final(execution), self.obj()).len() == 0,
            notified_all(*old(execution), *final(execution), self.obj()),
    {
        self.object.notify_all(execution);
    }
}

} // verus!
