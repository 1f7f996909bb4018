//! A waker slot guarded by a mocked mutex.
use vstd::prelude::*;

use crate::rt::execution::{active_set_keep, scheduled, Execution};
use crate::rt::mutex::{fresh_mutex, is_mutex, lock_acquired, lock_released, mutex_state, Mutex};
use crate::rt::object::{Action, Entry, Object, Operation};
use crate::rt::thread;
use crate::rt::trace::Trace;
use crate::rt::Failure;

verus! {

/// The lock of the mutex `obj` was taken from `old` on, then released,
/// giving `new`.
pub open spec fn locked_then_released(old: Execution, new: Execution, obj: Object) -> bool {
    exists|mid: Execution| lock_acquired(old, mid, obj) && #[trigger] lock_released(mid, new, obj)
}

/// Mock implementation of `tokio::sync::AtomicWaker`, over wakers of type
/// `W`. A waker that is to be woken is handed back to the caller, who wakes
/// it.
#[derive(Debug)]
pub struct AtomicWaker<W> {
    waker: Option<W>,
    object: Mutex,
}

impl<W> AtomicWaker<W> {
    /// The waker registered last and not yet woken.
    pub closed spec fn registered(&self) -> Option<W> {
        self.waker
    }

    /// The mutex guarding the waker.
    pub closed spec fn lock(&self) -> Object {
        self.object.obj
    }

    /// Create a new instance of `AtomicWaker`, with no waker registered.
    pub fn new(execution: &mut Execution) -> (r: Self)
        requires
            old(execution).wf(),
        ensures
            final(execution).wf(),
            final(execution).same_config(old(execution)),
            final(execution).path == old(execution).path,
            final(execution).threads == old(execution).threads,
            final(execution).objects.causal_cells == old(execution).objects.causal_cells,
            final(execution).objects.entries@.drop_last() == old(execution).objects.entries@,
            final(execution).objects.entries@.last() matches Entry::Mutex(s) && fresh_mutex(s, false, old(execution).max_threads as nat),
            r.lock().index == old(execution).objects.entries@.len(),
            is_mutex(*final(execution), r.lock()),
            r.registered() is None,
    {
        AtomicWaker { waker: None, object: Mutex::new(execution, false) }
    }

    /// The branching point of registering a waker: an attempt to take the
    /// lock. `register` then registers the waker. Returns whether to switch
    /// threads.
    pub fn register_branch(&self, execution: &mut Execution, trace: &Trace) -> (r: Result<bool, Failure>)
        requires
            old(execution).running(),
            is_mutex(*old(execution), self.lock()),
        ensures
            exists|mid: Execution|
                active_set_keep(
                    *old(execution),
                    mid,
                    old(execution).threads.active_thread().state,
                    Some(Operation { obj: self.lock(), action: Action::Opaque }),
                ) && #[trigger] scheduled(mid, *final(execution), r),
    {
        self.object.try_acquire_lock(execution, trace)
    }

    /// Registers `waker` to be woken by `wake`, under the lock. If the lock
    /// is held, nothing is registered and the waker is handed back, to be
    /// woken at once.
    pub fn register(&mut self, execution: &mut Execution, waker: W) -> (r: Option<W>)
        requires
            old(execution).running(),
            is_mutex(*old(execution), old(self).lock()),
        ensures
            final(execution).running(),
            final(self).lock() == old(self).lock(),
            mutex_state(*old(execution), old(self).lock()).lock is Some ==> {
                &&& r == Some(waker)
                &&& final(self).registered() == old(self).registered()
                &&& *final(execution) == *old(execution)
            },
            mutex_state(*old(execution), old(self).lock()).lock is None ==> {
                &&& r is None
                &&& final(self).registered() == Some(waker)
                &&& locked_then_released(*old(execution), *final(execution), old(self).lock())
            },
    {
        let ghost old_e = *execution;
        if !self.object.post_acquire(execution) {
            return Some(waker);
        }
        let ghost mid = *execution;
        self.waker = Some(waker);
        self.object.release_lock(execution);
        assert(lock_acquired(old_e, mid, self.object.obj) && lock_released(mid, *execution, self.object.obj));
        None
    }

    /// The branching point of waking: the active thread waits for the lock.
    /// `wake` then takes the waker. Returns whether to switch threads.
    pub fn wake_branch(&self, execution: &mut Execution, trace: &Trace) -> (r: Result<bool, Failure>)
        requires
            old(execution).running(),
            is_mutex(*old(execution), self.lock()),
        ensures
            exists|mid: Execution|
                active_set_keep(
                    *old(execution),
                    mid,
                    if mutex_state(*old(execution), self.lock()).lock is Some {
                        thread::State::Blocked
                    } else {
                        old(execution).threads.active_thread().state
                    },
                    Some(Operation { obj: self.lock(), action: Action::Opaque }),
                ) && #[trigger] scheduled(mid, *final(execution), r),
    {
        self.object.acquire_lock(execution, trace)
    }

    /// Takes the waker registered last, under the lock, and hands it back to
    /// be woken.
    pub fn wake(&mut self, execution: &mut Execution) -> (r: Option<W>)
        requires
            old(execution).running(),
            is_mutex(*old(execution), old(self).lock()),
            mutex_state(*old(execution), old(self).lock()).lock is None,
        ensures
            final(execution).running(),
            final(self).lock() == old(self).lock(),
            r == old(self).registered(),
            final(self).registered() is None,
            locked_then_released(*old(execution), *final(execution), old(self).lock()),
    {
        let ghost old_e = *execution;
        self.object.post_acquire(execution);
        let ghost mid = *execution;
        let waker = self.waker.take();
        self.object.release_lock(execution);
        assert(lock_acquired(old_e, mid, self.object.obj) && lock_released(mid, *execution, self.object.obj));
        waker
    }
}

impl<W: Clone> AtomicWaker<W> {
    /// Registers a clone of `waker`, as `register` does.
    pub fn register_by_ref(&mut self, execution: &mut Execution, waker: &W) -> (r: Option<W>)
        requires
            old(execution).running(),
            is_mutex(*old(execution), old(self).lock()),
        ensures
            final(execution).running(),
            final(self).lock() == old(self).lock(),
            mutex_state(*old(execution), old(self).lock()).lock is Some ==> {
                &&& r matches Some(w) && cloned(*waker, w)
                &&& final(self).registered() == old(self).registered()
                &&& *final(execution) == *old(execution)
            },
            mutex_state(*old(execution), old(self).lock()).lock is None ==> {
                &&& r is None
                &&& final(self).registered() matches Some(w) && cloned(*waker, w)
                &&& locked_then_released(*old(execution), *final(execution), old(self).lock())
            },
    {
        let w = waker.clone();
        self.register(execution, w)
    }
}

} // verus!
