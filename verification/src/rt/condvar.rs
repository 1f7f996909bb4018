//! Waiter state of a mocked condition variable.
use vstd::prelude::*;

use crate::rt::execution::{lemma_entry_insert, lemma_entry_update, unparked, waiters_ok, Execution};
use crate::rt::mutex::{entry_changed, is_mutex, lock_released, Mutex};
use crate::rt::object::{access_view, clone_access, Access, Entry, Object};
use crate::rt::thread;
use crate::rt::vv::VersionVec;

verus! {

#[derive(Debug)]
pub struct State {
    /// Tracks access to the condvar
    pub last_access: Option<Access>,
    /// Threads waiting on the condvar, in arrival order
    pub waiters: Vec<thread::Id>,
}

impl State {
    pub fn last_dependent_access(&self) -> (r: Option<Access>)
        ensures
            access_view(r) == access_view(self.last_access),
    {
        clone_access(&self.last_access)
    }

    pub fn set_last_access(&mut self, path_id: usize, version: &VersionVec)
        requires
            old(self).last_access matches Some(a) ==> a.dpor_vv@.len() == version@.len(),
        ensures
            access_view(final(self).last_access) == Some((path_id, version@)),
            final(self).waiters == old(self).waiters,
    {
        Access::set_or_create(&mut self.last_access, path_id, version);
    }
}

/// A mocked condition variable: a handle to its waiters in the execution.
#[derive(Debug, Clone, Copy, PartialEq, Eq, Structural)]
pub struct Condvar {
    pub obj: Object,
}

/// The object is a condition variable of the execution.
pub open spec fn is_condvar(e: Execution, obj: Object) -> bool {
    &&& obj.execution_id == e.objects.execution_id
    &&& obj.index < e.objects.entries@.len()
    &&& e.objects.entries@[obj.index as int] is Condvar
}

/// The waiters of the condition variable `obj`, in arrival order.
pub open spec fn condvar_waiters(e: Execution, obj: Object) -> Seq<thread::Id> {
    e.objects.entries@[obj.index as int]->Condvar_0.waiters@
}

/// Notifying the condition variable `obj` from `old` to `new` woke its
/// first waiter: the waiter leaves the queue and is unparked by the active
/// thread.
pub open spec fn notified_first(old: Execution, new: Execution, obj: Object) -> bool {
    &&& condvar_waiters(old, obj).len() > 0
    &&& is_condvar(new, obj)
    &&& condvar_waiters(new, obj) == condvar_waiters(old, obj).drop_first()
    &&& exists|mid: Execution|
        {
            &&& entry_changed(old, mid, obj, mid.objects.entries@[obj.index as int])
            &&& mid.threads == old.threads
            &&& condvar_waiters(mid, obj) == condvar_waiters(old, obj).drop_first()
            &&& #[trigger] unparked(mid, new, condvar_waiters(old, obj)[0])
        }
}

/// Notifying every waiter of `obj` from `old` to `new`: a chain of
/// executions in which each step wakes the first waiter left, so that the
/// `i`-th step unparks the `i`-th waiter of `old`, in arrival order, until
/// none is left.
pub open spec fn notified_all(old: Execution, new: Execution, obj: Object) -> bool {
    exists|es: Seq<Execution>|
        {
            &&& es.len() == condvar_waiters(old, obj).len() + 1
            &&& es[0] == old
            &&& es.last() == new
            &&& forall|i: int|
                0 <= i < es.len() - 1 ==> #[trigger] notified_first(es[i], es[i + 1], obj)
                    && condvar_waiters(es[i], obj) == condvar_waiters(old, obj).skip(i)
        }
}

impl Condvar {
    /// Create a new condition variable object.
    pub fn new(execution: &mut Execution) -> (r: Condvar)
        requires
            old(execution).wf(),
        ensures
            final(execution).wf(),
            final(execution).same_config(old(execution)),
            final(execution).path == old(execution).path,
            final(execution).threads == old(execution).threads,
            final(execution).objects.causal_cells == old(execution).objects.causal_cells,
            final(execution).objects.execution_id == old(execution).objects.execution_id,
            final(execution).objects.entries@.drop_last() == old(execution).objects.entries@,
            r.obj.index == old(execution).objects.entries@.len(),
            r.obj.execution_id == old(execution).id,
            is_condvar(*final(execution), r.obj),
            condvar_waiters(*final(execution), r.obj).len() == 0,
            final(execution).objects.entries@.last()->Condvar_0.last_access is None,
    {
        let ghost old_e = *execution;
        let state = State { last_access: None, waiters: Vec::new() };
        let obj = execution.objects.insert(Entry::Condvar(state));
        proof {
            assert(execution.objects.entries@.drop_last() =~= old_e.objects.entries@);
            lemma_entry_insert(old_e, *execution);
        }
        Condvar { obj }
    }

    /// Waiting on the condition variable: the active thread joins the
    /// waiters and releases `mutex`. The caller then parks the thread and,
    /// once it runs again, acquires the mutex again.
    pub fn wait(&self, execution: &mut Execution, mutex: &Mutex)
        requires
            old(execution).running(),
            is_condvar(*old(execution), self.obj),
            is_mutex(*old(execution), mutex.obj),
        ensures
            final(execution).running(),
            exists|mid: Execution|
                {
                    &&& entry_changed(*old(execution), mid, self.obj, mid.objects.entries@[self.obj.index as int])
                    &&& mid.threads == old(execution).threads
                    &&& is_condvar(mid, self.obj)
                    &&& condvar_waiters(mid, self.obj) == condvar_waiters(*old(execution), self.obj).push(
                        old(execution).threads.active_id_spec(),
                    )
                    &&& mid.objects.entries@[self.obj.index as int]->Condvar_0.last_access
                        == old(execution).objects.entries@[self.obj.index as int]->Condvar_0.last_access
                    &&& #[trigger] lock_released(mid, *final(execution), mutex.obj)
                },
    {
        let ghost old_e = *execution;
        let id = execution.threads.active_id();
        match &mut execution.objects.entries[self.obj.index] {
            Entry::Condvar(state) => {
                // Track the current thread as a waiter
                state.waiters.push(id);
            },
            _ => {},
        }
        proof {
            lemma_entry_update(old_e, *execution, self.obj.index as int);
        }
        let ghost mid = *execution;
        // Release the lock
        mutex.release_lock(execution);
        assert(lock_released(mid, *execution, mutex.obj));
    }

    /// Wakes up the first thread waiting on this condition variable.
    pub fn notify_one(&self, execution: &mut Execution)
        requires
            old(execution).running(),
            is_condvar(*old(execution), self.obj),
        ensures
            final(execution).running(),
            is_condvar(*final(execution), self.obj),
            condvar_waiters(*old(execution), self.obj).len() == 0 ==> *final(execution) == *old(execution),
            condvar_waiters(*old(execution), self.obj).len() > 0 ==> notified_first(
                *old(execution),
                *final(execution),
                self.obj,
            ),
    {
        let ghost old_e = *execution;
        let mut thread: Option<thread::Id> = None;
        if self.waiter_count(execution) > 0 {
            match &mut execution.objects.entries[self.obj.index] {
                Entry::Condvar(state) => {
                    // Notify the first waiter
                    thread = Some(state.waiters.remove(0));
                },
                _ => {},
            }
            proof {
                let s = old_e.objects.entries@[self.obj.index as int]->Condvar_0;
                assert(condvar_waiters(*execution, self.obj) =~= s.waiters@.drop_first());
                lemma_entry_update(old_e, *execution, self.obj.index as int);
            }
        }
        if let Some(t) = thread {
            let ghost mid = *execution;
            proof {
                assert(waiters_ok(old_e.objects.entries@[self.obj.index as int], old_e.id, old_e.threads.threads@.len() as int));
            }
            execution.unpark_thread(t);
            assert(unparked(mid, *execution, t));
        }
    }

    /// Wakes up every thread waiting on this condition variable, in arrival
    /// order.
    pub fn notify_all(&self, execution: &mut Execution)
        requires
            old(execution).running(),
            is_condvar(*old(execution), self.obj),
        ensures
            final(execution).running(),
            is_condvar(*final(execution), self.obj),
            condvar_waiters(*final(execution), self.obj).len() == 0,
            notified_all(*old(execution), *final(execution), self.obj),
    {
        let ghost old_e = *execution;
        let ghost ws = condvar_waiters(old_e, self.obj);
        let ghost mut es: Seq<Execution> = seq![old_e];
        while self.waiter_count(execution) > 0
            invariant
                execution.running(),
                is_condvar(*execution, self.obj),
                ws == condvar_waiters(old_e, self.obj),
                1 <= es.len() <= ws.len() + 1,
                es[0] == old_e,
                es.last() == *execution,
                condvar_waiters(*execution, self.obj) == ws.skip(es.len() - 1),
                forall|i: int|
                    0 <= i < es.len() - 1 ==> #[trigger] notified_first(es[i], es[i + 1], self.obj)
                        && condvar_waiters(es[i], self.obj) == ws.skip(i),
            decreases condvar_waiters(*execution, self.obj).len(),
        {
            let ghost prev = *execution;
            let ghost pes = es;
            self.notify_one(execution);
            proof {
                es = es.push(*execution);
                assert(ws.skip(pes.len() - 1).drop_first() =~= ws.skip(pes.len() as int));
                assert forall|i: int| 0 <= i < es.len() - 1 implies #[trigger] notified_first(es[i], es[i + 1], self.obj)
                    && condvar_waiters(es[i], self.obj) == ws.skip(i) by {
                    if i < pes.len() - 1 {
                        assert(es[i] == pes[i] && es[i + 1] == pes[i + 1]);
                    } else {
                        assert(es[i] == prev);
                    }
                }
            }
        }
        proof {
            assert(ws.skip(es.len() - 1).len() == 0);
            assert(notified_all(old_e, *execution, self.obj));
        }
    }

    /// Number of threads waiting.
    pub fn waiter_count(&self, execution: &Execution) -> (r: usize)
        requires
            is_condvar(*execution, self.obj),
        ensures
            r == condvar_waiters(*execution, self.obj).len(),
    {
        match &execution.objects.entries[self.obj.index] {
            Entry::Condvar(state) => state.waiters.len(),
            _ => 0,
        }
    }
}

} // verus!
