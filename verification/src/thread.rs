//! Mock implementation of `std::thread`.
use vstd::prelude::*;

use crate::rt;
use crate::rt::execution::{active_set_keep, scheduled, Execution};
use crate::rt::trace::Trace;
use crate::rt::Failure;

pub use crate::rt::yield_now;

verus! {

/// Mock implementation of `std::thread::ThreadId`.
#[derive(Debug, Clone, Copy, PartialEq, Eq, Structural, Hash)]
pub struct ThreadId {
    id: rt::thread::Id,
}

impl ThreadId {
    /// The identifier of the thread `id` of the execution.
    pub fn new(id: rt::thread::Id) -> (r: ThreadId)
        ensures
            r.id() == id,
    {
        ThreadId { id }
    }

    /// The thread of the execution.
    pub closed spec fn id(&self) -> rt::thread::Id {
        self.id
    }
}

/// Thread factory, which can be used in order to configure the properties
/// of a new thread.
#[derive(Debug)]
pub struct Builder {
    /// The name of the thread-to-be.
    pub name: Option<String>,
    /// The size of the stack, in bytes, of the thread-to-be.
    pub stack_size: Option<usize>,
}

impl Builder {
    /// Generates the base configuration for spawning a thread, from which
    /// configuration methods can be chained.
    pub fn new() -> (r: Builder)
        ensures
            r.name is None,
            r.stack_size is None,
    {
        Builder { name: None, stack_size: None }
    }

    /// Names the thread-to-be. Currently the name is used for
    /// identification only in panic messages.
    pub fn name(self, name: String) -> (r: Builder)
        ensures
            r.name == Some(name),
            r.stack_size == self.stack_size,
    {
        Builder { name: Some(name), stack_size: self.stack_size }
    }

    /// Sets the size of the stack (in bytes) for the new thread.
    pub fn stack_size(self, size: usize) -> (r: Builder)
        ensures
            r.name == self.name,
            r.stack_size == Some(size),
    {
        Builder { name: self.name, stack_size: Some(size) }
    }
}

/// The threads of a scope that are still running, and the notify object
/// that each thread of the scope signals when it finishes.
#[derive(Debug)]
pub struct ScopeThreads {
    count: usize,
    notify_on_finished: Vec<rt::notify::Notify>,
}

impl ScopeThreads {
    /// The number of threads of the scope still running.
    pub closed spec fn running(&self) -> nat {
        self.count as nat
    }

    /// The notify objects of the threads spawned in the scope, in the order
    /// in which they were spawned.
    pub closed spec fn notifies(&self) -> Seq<rt::notify::Notify> {
        self.notify_on_finished@
    }

    /// A scope in which no thread was spawned yet.
    pub fn new() -> (r: ScopeThreads)
        ensures
            r.running() == 0,
            r.notifies() == Seq::<rt::notify::Notify>::empty(),
    {
        ScopeThreads { count: 0, notify_on_finished: Vec::new() }
    }

    /// A thread is spawned in the scope; it signals `notify` when it
    /// finishes.
    pub fn add_running_thread(&mut self, notify: rt::notify::Notify)
        requires
            old(self).running() < usize::MAX,
        ensures
            final(self).running() == old(self).running() + 1,
            final(self).notifies() == old(self).notifies().push(notify),
    {
        self.count = self.count + 1;
        self.notify_on_finished.push(notify);
    }

    /// A thread of the scope finished. Returns whether it was the last one
    /// running, when the thread that waits for the scope is unparked.
    pub fn remove_running_thread(&mut self) -> (r: bool)
        requires
            old(self).running() > 0,
        ensures
            final(self).running() == old(self).running() - 1,
            final(self).notifies() == old(self).notifies(),
            r == (final(self).running() == 0),
    {
        self.count = self.count - 1;
        self.count == 0
    }

    /// The number of threads of the scope still running.
    pub fn count(&self) -> (r: usize)
        ensures
            r == self.running(),
    {
        self.count
    }

    /// Whether every thread of the scope finished.
    pub fn is_finished(&self) -> (r: bool)
        ensures
            r == (self.running() == 0),
    {
        self.count == 0
    }

    /// The notify objects of the threads spawned in the scope, each to be
    /// waited on once the scope ends.
    pub fn notify_on_finished(&self) -> (r: &Vec<rt::notify::Notify>)
        ensures
            r@ == self.notifies(),
    {
        &self.notify_on_finished
    }
}

/// Blocks unless or until the current thread's token is made available.
/// A thread that was unparked while it ran consumes the token and goes on;
/// otherwise it blocks and another thread is scheduled. Returns whether to
/// switch threads.
pub fn park(execution: &mut Execution, trace: &Trace) -> (r: Result<bool, Failure>)
    requires
        old(execution).running(),
    ensures
        old(execution).threads.active_thread().state == (rt::thread::State::Runnable { unparked: true }) ==> {
            &&& r == Ok::<bool, Failure>(false)
            &&& final(execution).running()
            &&& active_set_keep(
                *old(execution),
                *final(execution),
                rt::thread::State::Runnable { unparked: false },
                old(execution).threads.active_thread().operation,
            )
        },
        old(execution).threads.active_thread().state != (rt::thread::State::Runnable { unparked: true }) ==> exists|
            mid: Execution,
        |
            active_set_keep(*old(execution), mid, rt::thread::State::Blocked, None) && #[trigger] scheduled(
                mid,
                *final(execution),
                r,
            ),
{
    rt::park(execution, trace)
}

} // verus!
