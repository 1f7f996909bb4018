//! Lock state of a mocked mutex.
use vstd::prelude::*;

use crate::rt::execution::{
    active_set_keep, entry_bound, lemma_wf_update, same_but_state, same_kind, scheduled, waiters_ok, waiting_on,
    Execution,
};
use crate::rt::object::{access_view, clone_access, entry_accesses_ok, entry_wf, Access, Action, Entry, Object, Operation};
use crate::rt::synchronize::Synchronize;
use crate::rt::thread::{self, active_causality, ThreadSet};
use crate::rt::trace::Trace;
use crate::rt::vv::{lemma_join_least_upper_bound, lemma_le_partial_order, vv_join, vv_le, VersionVec};
use crate::rt::Failure;
use std::sync::atomic::Ordering;

verus! {

#[derive(Debug)]
pub struct State {
    /// If the mutex should establish sequential consistency.
    pub seq_cst: bool,
    /// `Some` when the mutex is in the locked state. The `thread::Id`
    /// references the thread that currently holds the mutex.
    pub lock: Option<thread::Id>,
    /// Tracks access to the mutex
    pub last_access: Option<Access>,
    /// Causality transfers between threads
    pub synchronize: Synchronize,
}

impl State {
    pub fn last_dependent_access(&self) -> (r: Option<Access>)
        ensures
            access_view(r) == access_view(self.last_access),
    {
        clone_access(&self.last_access)
    }

    pub fn set_last_access(&mut self, path_id: usize, version: &VersionVec)
        requires
            old(self).last_access matches Some(a) ==> a.dpor_vv@.len() == version@.len(),
        ensures
            access_view(final(self).last_access) == Some((path_id, version@)),
            final(self).seq_cst == old(self).seq_cst,
            final(self).lock == old(self).lock,
            final(self).synchronize == old(self).synchronize,
    {
        Access::set_or_create(&mut self.last_access, path_id, version);
    }
}

/// A mocked mutex: a handle to its lock state in the execution.
#[derive(Debug, Clone, Copy, PartialEq, Eq, Structural)]
pub struct Mutex {
    pub obj: Object,
}

/// The object is a mutex of the execution.
pub open spec fn is_mutex(e: Execution, obj: Object) -> bool {
    &&& obj.execution_id == e.objects.execution_id
    &&& obj.index < e.objects.entries@.len()
    &&& e.objects.entries@[obj.index as int] is Mutex
}

/// The lock state of the mutex `obj`.
pub open spec fn mutex_state(e: Execution, obj: Object) -> State {
    e.objects.entries@[obj.index as int]->Mutex_0
}

/// The two threads differ at most in their causality clock.
pub open spec fn same_but_causality(o: thread::Thread, n: thread::Thread) -> bool {
    &&& n.id == o.id
    &&& n.state == o.state
    &&& n.critical == o.critical
    &&& n.operation == o.operation
    &&& n.dpor_vv == o.dpor_vv
    &&& n.notified == o.notified
    &&& n.pending == o.pending
    &&& n.last_yield == o.last_yield
    &&& n.yield_count == o.yield_count
}

/// The other threads about to operate on `obj` get the state `st`.
pub open spec fn others_waiting_set(o: ThreadSet, n: ThreadSet, obj: Object, action: Option<Action>, st: thread::State) -> bool {
    let a = o.active->0 as int;
    &&& n.execution_id == o.execution_id
    &&& n.max == o.max
    &&& n.active == o.active
    &&& n.threads@.len() == o.threads@.len()
    &&& forall|k: int|
        0 <= k < o.threads@.len() && k != a ==> same_but_state(o.threads@[k], #[trigger] n.threads@[k])
            && n.threads@[k].state == if waiting_on(o.threads@[k], obj, action) {
            st
        } else {
            o.threads@[k].state
        }
}

/// The active thread's causality becomes `c` and the sequential-consistency
/// clock `sc`; the other threads about to operate on `obj` (with `action`,
/// if given) get the state `st`.
pub open spec fn threads_synced(o: ThreadSet, n: ThreadSet, c: Seq<usize>, sc: Seq<usize>, obj: Object, action: Option<Action>, st: thread::State) -> bool {
    let a = o.active->0 as int;
    &&& others_waiting_set(o, n, obj, action, st)
    &&& n.seq_cst_causality@ == sc
    &&& n.threads@[a].causality@ == c
    &&& same_but_causality(o.threads@[a], n.threads@[a])
}

/// Of the objects, only the entry of `obj` changed, to `entry`.
pub open spec fn objects_changed(old: Execution, new: Execution, obj: Object, entry: Entry) -> bool {
    &&& new.same_config(&old)
    &&& new.objects.execution_id == old.objects.execution_id
    &&& new.objects.causal_cells == old.objects.causal_cells
    &&& new.objects.entries@ == old.objects.entries@.update(obj.index as int, entry)
}

/// Only the entry of `obj` changed, to `entry`; the path too is unchanged.
pub open spec fn entry_changed(old: Execution, new: Execution, obj: Object, entry: Entry) -> bool {
    &&& objects_changed(old, new, obj, entry)
    &&& new.path == old.path
}

/// The effect of taking the lock of the mutex `obj`: the active thread holds
/// it and acquires its causality (and, for a sequentially consistent mutex,
/// synchronizes with the sequential-consistency clock); the other threads
/// about to operate on the mutex are blocked.
pub open spec fn lock_acquired(old: Execution, new: Execution, obj: Object) -> bool {
    let s = mutex_state(old, obj);
    let o = old.threads;
    let a = o.active->0;
    let j = vv_join(active_causality(o), s.synchronize@);
    let c = if s.seq_cst {
        vv_join(j, o.seq_cst_causality@)
    } else {
        j
    };
    &&& entry_changed(
        old,
        new,
        obj,
        Entry::Mutex(State { lock: Some(thread::Id { execution_id: o.execution_id, id: a }), ..s }),
    )
    &&& threads_synced(o, new.threads, c, if s.seq_cst { c } else { o.seq_cst_causality@ }, obj, None, thread::State::Blocked)
}

/// The effect of releasing the lock of the mutex `obj`: it is free and holds
/// the active thread's causality (and, for a sequentially consistent mutex,
/// the thread synchronizes with the sequential-consistency clock); the other
/// threads about to operate on the mutex may run.
pub open spec fn lock_released(old: Execution, new: Execution, obj: Object) -> bool {
    let s = mutex_state(old, obj);
    let o = old.threads;
    let c = active_causality(o);
    let sc = vv_join(c, o.seq_cst_causality@);
    &&& new.objects.entries@[obj.index as int] is Mutex
    &&& mutex_state(new, obj).lock is None
    &&& mutex_state(new, obj).seq_cst == s.seq_cst
    &&& mutex_state(new, obj).last_access == s.last_access
    &&& mutex_state(new, obj).synchronize@ == vv_join(s.synchronize@, c)
    &&& entry_changed(old, new, obj, new.objects.entries@[obj.index as int])
    &&& threads_synced(
        o,
        new.threads,
        if s.seq_cst { sc } else { c },
        if s.seq_cst { sc } else { o.seq_cst_causality@ },
        obj,
        None,
        thread::State::Runnable { unparked: false },
    )
}

/// A mutex with these settings and no history.
pub open spec fn fresh_mutex(s: State, seq_cst: bool, max: nat) -> bool {
    &&& s.seq_cst == seq_cst
    &&& s.lock is None
    &&& s.last_access is None
    &&& s.synchronize@ == Seq::new(max, |i: int| 0usize)
}

impl Mutex {
    /// A new, unlocked mutex.
    pub fn new(execution: &mut Execution, seq_cst: bool) -> (r: Mutex)
        requires
            old(execution).wf(),
        ensures
            final(execution).wf(),
            final(execution).same_config(old(execution)),
            final(execution).path == old(execution).path,
            final(execution).threads == old(execution).threads,
            final(execution).objects.causal_cells == old(execution).objects.causal_cells,
            final(execution).objects.execution_id == old(execution).objects.execution_id,
            r.obj.index == old(execution).objects.entries@.len(),
            r.obj.execution_id == old(execution).id,
            final(execution).objects.entries@.len() == old(execution).objects.entries@.len() + 1,
            final(execution).objects.entries@.drop_last() == old(execution).objects.entries@,
            final(execution).objects.entries@.last() matches Entry::Mutex(s) && fresh_mutex(s, seq_cst, old(execution).max_threads as nat),
            is_mutex(*final(execution), r.obj),
    {
        let ghost old_e = *execution;
        let max = execution.threads.max();
        let state = State { seq_cst, lock: None, last_access: None, synchronize: Synchronize::new(max) };
        let obj = execution.objects.insert(Entry::Mutex(state));
        proof {
            assert(execution.objects.entries@.drop_last() =~= old_e.objects.entries@);
            assert forall|i: int| 0 <= i < old_e.objects.entries@.len() implies same_kind(#[trigger] old_e.objects.entries@[i], execution.objects.entries@[i]) by {}
            assert forall|i: int| 0 <= i < execution.objects.entries@.len() implies {
                &&& entry_wf(#[trigger] execution.objects.entries@[i], execution.max_threads as nat)
                &&& entry_accesses_ok(execution.objects.entries@[i], execution.max_threads as nat, execution.path.branches@)
                &&& entry_bound(execution.objects.entries@[i], execution.path.pos as int)
                &&& waiters_ok(execution.objects.entries@[i], execution.id, execution.threads.threads@.len() as int)
            } by {
                if i < old_e.objects.entries@.len() {
                    assert(entry_wf(old_e.objects.entries@[i], execution.max_threads as nat));
                    assert(entry_accesses_ok(old_e.objects.entries@[i], execution.max_threads as nat, execution.path.branches@));
                    assert(entry_bound(old_e.objects.entries@[i], execution.path.pos as int));
                    assert(waiters_ok(old_e.objects.entries@[i], execution.id, execution.threads.threads@.len() as int));
                }
            }
            lemma_wf_update(old_e, *execution);
            assert(execution.objects.entries@[obj.index as int] == Entry::Mutex(state));
        }
        Mutex { obj }
    }

    /// Returns `true` if the mutex is currently locked.
    pub fn is_locked(&self, execution: &Execution) -> (r: bool)
        requires
            is_mutex(*execution, self.obj),
        ensures
            r == mutex_state(*execution, self.obj).lock is Some,
    {
        match &execution.objects.entries[self.obj.index] {
            Entry::Mutex(s) => s.lock.is_some(),
            _ => false,
        }
    }

    /// The branching point of acquiring the lock: while it is held, the
    /// active thread is blocked. Once the thread runs again, `post_acquire`
    /// takes the lock. Returns whether to switch threads.
    pub fn acquire_lock(&self, execution: &mut Execution, trace: &Trace) -> (r: Result<bool, Failure>)
        requires
            old(execution).running(),
            is_mutex(*old(execution), self.obj),
        ensures
            exists|mid: Execution|
                active_set_keep(
                    *old(execution),
                    mid,
                    if mutex_state(*old(execution), self.obj).lock is Some {
                        thread::State::Blocked
                    } else {
                        old(execution).threads.active_thread().state
                    },
                    Some(Operation { obj: self.obj, action: Action::Opaque }),
                ) && #[trigger] scheduled(mid, *final(execution), r),
    {
        let locked = self.is_locked(execution);
        self.obj.branch_acquire(execution, locked, trace)
    }

    /// The branching point of trying to take the lock; `post_acquire` then
    /// tells whether it was taken. Returns whether to switch threads.
    pub fn try_acquire_lock(&self, execution: &mut Execution, trace: &Trace) -> (r: Result<bool, Failure>)
        requires
            old(execution).running(),
            is_mutex(*old(execution), self.obj),
        ensures
            exists|mid: Execution|
                active_set_keep(
                    *old(execution),
                    mid,
                    old(execution).threads.active_thread().state,
                    Some(Operation { obj: self.obj, action: Action::Opaque }),
                ) && #[trigger] scheduled(mid, *final(execution), r),
    {
        self.obj.branch_opaque(execution, trace)
    }
}

/// Changing the state of the mutex `obj` within its kind, and the threads'
/// clocks only, keeps the execution well formed.
proof fn lemma_entry_kept(old: Execution, new: Execution, obj: Object)
    requires
        old.running(),
        is_mutex(old, obj),
        new.threads.wf(),
        new.id == old.id,
        new.path == old.path,
        new.max_threads == old.max_threads,
        new.max_history == old.max_history,
        new.log == old.log,
        new.threads.execution_id == old.threads.execution_id,
        new.threads.max == old.threads.max,
        new.threads.active == old.threads.active,
        new.threads.threads@.len() == old.threads.threads@.len(),
        forall|i: int|
            0 <= i < old.threads.threads@.len() ==> (#[trigger] new.threads.threads@[i]).dpor_vv
                == old.threads.threads@[i].dpor_vv && new.threads.threads@[i].operation
                == old.threads.threads@[i].operation,
        new.objects.execution_id == old.objects.execution_id,
        new.objects.causal_cells == old.objects.causal_cells,
        new.objects.entries@.len() == old.objects.entries@.len(),
        forall|i: int| 0 <= i < old.objects.entries@.len() && i != obj.index ==> #[trigger] new.objects.entries@[i] == old.objects.entries@[i],
        new.objects.entries@[obj.index as int] is Mutex,
        mutex_state(new, obj).last_access == mutex_state(old, obj).last_access,
        mutex_state(new, obj).synchronize@.len() == mutex_state(old, obj).synchronize@.len(),
    ensures
        new.running(),
{
    assert forall|i: int| 0 <= i < old.objects.entries@.len() implies same_kind(#[trigger] old.objects.entries@[i], new.objects.entries@[i]) by {}
    assert forall|i: int| 0 <= i < new.objects.entries@.len() implies {
        &&& entry_wf(#[trigger] new.objects.entries@[i], new.max_threads as nat)
        &&& entry_accesses_ok(new.objects.entries@[i], new.max_threads as nat, new.path.branches@)
        &&& entry_bound(new.objects.entries@[i], new.path.pos as int)
        &&& waiters_ok(new.objects.entries@[i], new.id, new.threads.threads@.len() as int)
    } by {
        assert(entry_wf(old.objects.entries@[i], old.max_threads as nat));
        assert(entry_accesses_ok(old.objects.entries@[i], old.max_threads as nat, old.path.branches@));
        assert(entry_bound(old.objects.entries@[i], old.path.pos as int));
        assert(waiters_ok(old.objects.entries@[i], old.id, old.threads.threads@.len() as int));
    }
    lemma_wf_update(old, new);
}

/// Composing a clock change of the active thread with a state change of the
/// threads waiting on `obj`.
pub proof fn lemma_synced(old: Execution, mid: Execution, new: Execution, obj: Object, action: Option<Action>, st: thread::State)
    requires
        old.running(),
        mid.threads.threads@.len() == old.threads.threads@.len(),
        mid.threads.active == old.threads.active,
        mid.threads.execution_id == old.threads.execution_id,
        mid.threads.max == old.threads.max,
        forall|k: int| 0 <= k < old.threads.threads@.len() && k != old.threads.active->0 ==> #[trigger] mid.threads.threads@[k] == old.threads.threads@[k],
        same_but_causality(old.threads.threads@[old.threads.active->0 as int], mid.threads.threads@[old.threads.active->0 as int]),
        new.threads.threads@.len() == mid.threads.threads@.len(),
        new.threads.active == mid.threads.active,
        new.threads.execution_id == mid.threads.execution_id,
        new.threads.max == mid.threads.max,
        new.threads.seq_cst_causality == mid.threads.seq_cst_causality,
        forall|k: int|
            0 <= k < mid.threads.threads@.len() ==> same_but_state(
                mid.threads.threads@[k],
                #[trigger] new.threads.threads@[k],
            ) && new.threads.threads@[k].state == if k != mid.threads.active->0 && waiting_on(
                mid.threads.threads@[k],
                obj,
                action,
            ) {
                st
            } else {
                mid.threads.threads@[k].state
            },
    ensures
        threads_synced(
            old.threads,
            new.threads,
            new.threads.threads@[old.threads.active->0 as int].causality@,
            new.threads.seq_cst_causality@,
            obj,
            action,
            st,
        ),
{
    let a = old.threads.active->0 as int;
    assert(same_but_state(mid.threads.threads@[a], new.threads.threads@[a]));
    assert forall|k: int|
        0 <= k < old.threads.threads@.len() && k != a implies same_but_state(old.threads.threads@[k], #[trigger] new.threads.threads@[k])
            && new.threads.threads@[k].state == if waiting_on(old.threads.threads@[k], obj, action) {
            st
        } else {
            old.threads.threads@[k].state
        } by {
        assert(mid.threads.threads@[k] == old.threads.threads@[k]);
        assert(same_but_state(mid.threads.threads@[k], new.threads.threads@[k]));
    }
}

impl Mutex {
    /// Takes the lock for the active thread, unless it is held. The thread
    /// acquires the causality released with the lock (for a sequentially
    /// consistent mutex, it also synchronizes with the sequential-consistency
    /// clock), and the other threads about to operate on the mutex are
    /// blocked. Returns whether the lock was taken.
    pub fn post_acquire(&self, execution: &mut Execution) -> (r: bool)
        requires
            old(execution).running(),
            is_mutex(*old(execution), self.obj),
        ensures
            final(execution).running(),
            r == mutex_state(*old(execution), self.obj).lock is None,
            !r ==> *final(execution) == *old(execution),
            r ==> lock_acquired(*old(execution), *final(execution), self.obj),
    {
        let ghost old_e = *execution;
        let idx = self.obj.index;
        let thread_id = execution.threads.active_id();
        let mut seq_cst = false;
        if self.is_locked(execution) {
            return false;
        }
        match &mut execution.objects.entries[idx] {
            Entry::Mutex(state) => {
                // Set the lock to the current thread
                state.lock = Some(thread_id);
                state.synchronize.sync_load(&mut execution.threads, Ordering::Acquire);
                seq_cst = state.seq_cst;
            },
            _ => {
                return false;
            },
        }
        if seq_cst {
            // Establish sequential consistency between locks
            execution.threads.seq_cst();
        }
        proof {
            lemma_entry_kept(old_e, *execution, self.obj);
        }
        let ghost mid = *execution;
        // Block all **other** threads attempting to acquire the mutex
        execution.set_waiting_state(self.obj, None, thread::State::Blocked);
        proof {
            lemma_synced(old_e, mid, *execution, self.obj, None, thread::State::Blocked);
        }
        true
    }

    /// Releases the lock: the mutex keeps the active thread's causality for
    /// the next thread to take it (for a sequentially consistent mutex, the
    /// thread also synchronizes with the sequential-consistency clock), and
    /// the other threads about to operate on the mutex may run.
    pub fn release_lock(&self, execution: &mut Execution)
        requires
            old(execution).running(),
            is_mutex(*old(execution), self.obj),
        ensures
            final(execution).running(),
            lock_released(*old(execution), *final(execution), self.obj),
    {
        let ghost old_e = *execution;
        let idx = self.obj.index;
        let mut seq_cst = false;
        match &mut execution.objects.entries[idx] {
            Entry::Mutex(state) => {
                // Release the lock flag
                state.lock = None;
                state.synchronize.sync_store(&mut execution.threads, Ordering::Release);
                seq_cst = state.seq_cst;
            },
            _ => {},
        }
        if seq_cst {
            // Establish sequential consistency between the lock's operations.
            execution.threads.seq_cst();
        }
        proof {
            lemma_entry_kept(old_e, *execution, self.obj);
        }
        let ghost mid = *execution;
        execution.set_waiting_state(self.obj, None, thread::State::Runnable { unparked: false });
        proof {
            lemma_synced(old_e, mid, *execution, self.obj, None, thread::State::Runnable { unparked: false });
        }
    }
}

/// In a running execution, the clock of a mutex and the active thread's
/// causality have one entry per thread.
proof fn lemma_mutex_lens(e: Execution, obj: Object)
    requires
        e.running(),
        is_mutex(e, obj),
    ensures
        mutex_state(e, obj).synchronize@.len() == e.max_threads,
        active_causality(e.threads).len() == e.max_threads,
        e.threads.seq_cst_causality@.len() == e.max_threads,
{
    assert(crate::rt::object::entry_wf(e.objects.entries@[obj.index as int], e.max_threads as nat));
    crate::rt::thread::lemma_active_wf(e.threads);
}

/// A mutex's clock only grows: taking the lock keeps it, and releasing the
/// lock joins the releasing thread's causality into it.
pub proof fn lemma_mutex_clock_grows(e0: Execution, e1: Execution, obj: Object)
    requires
        e0.running(),
        is_mutex(e0, obj),
    ensures
        lock_acquired(e0, e1, obj) ==> mutex_state(e1, obj).synchronize@ == mutex_state(e0, obj).synchronize@,
        lock_released(e0, e1, obj) ==> vv_le(mutex_state(e0, obj).synchronize@, mutex_state(e1, obj).synchronize@),
{
    lemma_mutex_lens(e0, obj);
    if lock_released(e0, e1, obj) {
        lemma_join_least_upper_bound(
            mutex_state(e0, obj).synchronize@,
            active_causality(e0.threads),
            mutex_state(e1, obj).synchronize@,
        );
    }
}

/// What a release of a mutex hands to the thread that takes the lock next:
/// every event of the releasing thread up to the release happens before
/// the acquiring thread once it holds the lock. In between, the mutex's
/// clock may only have grown (see `lemma_mutex_clock_grows`).
pub proof fn lemma_release_then_acquire(e0: Execution, e1: Execution, e2: Execution, e3: Execution, obj: Object)
    requires
        e0.running(),
        e2.running(),
        is_mutex(e0, obj),
        is_mutex(e2, obj),
        lock_released(e0, e1, obj),
        vv_le(mutex_state(e1, obj).synchronize@, mutex_state(e2, obj).synchronize@),
        lock_acquired(e2, e3, obj),
    ensures
        vv_le(active_causality(e0.threads), active_causality(e3.threads)),
{
    let c0 = active_causality(e0.threads);
    let s1 = mutex_state(e1, obj).synchronize@;
    let s2 = mutex_state(e2, obj).synchronize@;
    let c2 = active_causality(e2.threads);
    let j = vv_join(c2, s2);
    let c3 = active_causality(e3.threads);
    lemma_mutex_lens(e0, obj);
    lemma_mutex_lens(e2, obj);
    lemma_join_least_upper_bound(mutex_state(e0, obj).synchronize@, c0, s1);
    lemma_join_least_upper_bound(c2, s2, j);
    lemma_join_least_upper_bound(j, e2.threads.seq_cst_causality@, j);
    lemma_le_partial_order(c0, s1, s2);
    lemma_le_partial_order(c0, s2, j);
    lemma_le_partial_order(c0, j, c3);
}

/// Mutual exclusion: a thread that took the lock holds it, so that taking
/// it again (`post_acquire`, by any thread) fails until it is released; a
/// release leaves the mutex free.
pub proof fn lemma_lock_excludes(e0: Execution, e1: Execution, obj: Object)
    requires
        e0.running(),
        is_mutex(e0, obj),
    ensures
        lock_acquired(e0, e1, obj) ==> is_mutex(e1, obj) && mutex_state(e1, obj).lock == Some(
            thread::Id { execution_id: e0.threads.execution_id, id: e0.threads.active->0 },
        ),
        lock_released(e0, e1, obj) ==> is_mutex(e1, obj) && mutex_state(e1, obj).lock is None,
{
}

} // verus!
