//! Lock state of a mocked reader-writer lock.
use vstd::prelude::*;

use crate::rt::execution::{active_set_keep, lemma_entry_insert, lemma_entry_update, scheduled, Execution};
use crate::rt::mutex::{entry_changed, lemma_synced, threads_synced};
use crate::rt::object::{access_view, clone_access, Access, Action, Entry, Object, Operation};
use crate::rt::synchronize::Synchronize;
use crate::rt::thread::{self, active_causality};
use crate::rt::trace::Trace;
use crate::rt::vv::{lemma_join_least_upper_bound, lemma_le_partial_order, vv_join, vv_le, VersionVec};
use crate::rt::Failure;
use std::sync::atomic::Ordering;

verus! {

/// How a reader-writer lock is held.
#[derive(Debug)]
pub enum Locked {
    /// By these readers, each once.
    Read(Vec<thread::Id>),
    /// By one writer.
    Write(thread::Id),
}

#[derive(Debug)]
pub struct State {
    /// A single `thread::Id` when write locked; the readers when read locked.
    pub lock: Option<Locked>,
    /// Tracks access to the lock.
    pub last_access: Option<Access>,
    /// Causality transfers between threads
    pub synchronize: Synchronize,
}

/// A mocked reader-writer lock: a handle to its state in the execution.
#[derive(Debug, Clone, Copy, PartialEq, Eq, Structural)]
pub struct RwLock {
    pub obj: Object,
}

/// The object is a reader-writer lock of the execution.
pub open spec fn is_rwlock(e: Execution, obj: Object) -> bool {
    &&& obj.execution_id == e.objects.execution_id
    &&& obj.index < e.objects.entries@.len()
    &&& e.objects.entries@[obj.index as int] is RwLock
}

/// The state of the lock `obj`.
pub open spec fn rwlock_state(e: Execution, obj: Object) -> State {
    e.objects.entries@[obj.index as int]->RwLock_0
}

/// The lock is held by readers.
pub open spec fn read_locked(s: State) -> bool {
    s.lock matches Some(Locked::Read(_))
}

/// The lock is held by a writer.
pub open spec fn write_locked(s: State) -> bool {
    s.lock matches Some(Locked::Write(_))
}

/// The readers holding the lock, or none.
pub open spec fn readers(s: State) -> Seq<thread::Id> {
    match s.lock {
        Some(Locked::Read(v)) => v@,
        _ => Seq::empty(),
    }
}

/// The readers after `t` takes a read lock: each thread once.
pub open spec fn with_reader(rs: Seq<thread::Id>, t: thread::Id) -> Seq<thread::Id> {
    if rs.contains(t) {
        rs
    } else {
        rs.push(t)
    }
}

/// The effect of taking the lock (for reading when `read`): the lock
/// records the holder, the active thread acquires the lock's causality and
/// synchronizes with the sequential-consistency clock; for a read lock, the
/// other threads about to operate on the lock are blocked.
pub open spec fn rw_acquired(old: Execution, new: Execution, obj: Object, read: bool) -> bool {
    let s = rwlock_state(old, obj);
    let o = old.threads;
    let ns = rwlock_state(new, obj);
    let c = vv_join(vv_join(active_causality(o), s.synchronize@), o.seq_cst_causality@);
    &&& new.objects.entries@[obj.index as int] is RwLock
    &&& entry_changed(old, new, obj, new.objects.entries@[obj.index as int])
    &&& ns.last_access == s.last_access && ns.synchronize == s.synchronize
    &&& read ==> read_locked(ns) && readers(ns) == with_reader(readers(s), o.active_id_spec())
    &&& !read ==> ns.lock == Some(Locked::Write(o.active_id_spec()))
    &&& read ==> threads_synced(o, new.threads, c, c, obj, None, thread::State::Blocked)
    &&& !read ==> {
        let a = o.active_index();
        &&& new.threads.execution_id == o.execution_id
        &&& new.threads.max == o.max
        &&& new.threads.active == o.active
        &&& new.threads.seq_cst_causality@ == c
        &&& new.threads.threads@[a].causality@ == c
        &&& crate::rt::mutex::same_but_causality(o.threads@[a], new.threads.threads@[a])
        &&& crate::rt::execution::others_same(o, new.threads, a)
    }
}

/// The effect of releasing the lock: it is free and holds the active
/// thread's causality, which synchronizes with the sequential-consistency
/// clock; the other threads about to operate on the lock may run.
pub open spec fn rw_released(old: Execution, new: Execution, obj: Object) -> bool {
    let s = rwlock_state(old, obj);
    let o = old.threads;
    let ns = rwlock_state(new, obj);
    let c = active_causality(o);
    let sc = vv_join(c, o.seq_cst_causality@);
    &&& new.objects.entries@[obj.index as int] is RwLock
    &&& entry_changed(old, new, obj, new.objects.entries@[obj.index as int])
    &&& ns.lock is None && ns.last_access == s.last_access
    &&& ns.synchronize@ == vv_join(s.synchronize@, c)
    &&& threads_synced(o, new.threads, sc, sc, obj, None, thread::State::Runnable { unparked: false })
}

impl State {
    pub fn last_dependent_access(&self) -> (r: Option<Access>)
        ensures
            access_view(r) == access_view(self.last_access),
    {
        clone_access(&self.last_access)
    }

    pub fn set_last_access(&mut self, path_id: usize, version: &VersionVec)
        requires
            old(self).last_access matches Some(a) ==> a.dpor_vv@.len() == version@.len(),
        ensures
            access_view(final(self).last_access) == Some((path_id, version@)),
            final(self).lock == old(self).lock,
            final(self).synchronize == old(self).synchronize,
    {
        Access::set_or_create(&mut self.last_access, path_id, version);
    }
}

/// `true` when `t` is among the readers.
fn contains_reader(rs: &Vec<thread::Id>, t: thread::Id) -> (r: bool)
    ensures
        r == rs@.contains(t),
{
    let mut i: usize = 0;
    while i < rs.len()
        invariant
            i <= rs@.len(),
            forall|k: int| 0 <= k < i ==> rs@[k] != t,
        decreases rs@.len() - i,
    {
        if rs[i] == t {
            return true;
        }
        i = i + 1;
    }
    false
}

impl RwLock {
    /// A new, unlocked reader-writer lock.
    pub fn new(execution: &mut Execution) -> (r: RwLock)
        requires
            old(execution).wf(),
        ensures
            final(execution).wf(),
            final(execution).same_config(old(execution)),
            final(execution).path == old(execution).path,
            final(execution).threads == old(execution).threads,
            final(execution).objects.causal_cells == old(execution).objects.causal_cells,
            final(execution).objects.execution_id == old(execution).objects.execution_id,
            final(execution).objects.entries@.drop_last() == old(execution).objects.entries@,
            r.obj.index == old(execution).objects.entries@.len(),
            r.obj.execution_id == old(execution).id,
            is_rwlock(*final(execution), r.obj),
            rwlock_state(*final(execution), r.obj).lock is None,
            rwlock_state(*final(execution), r.obj).last_access is None,
    {
        let ghost old_e = *execution;
        let max = execution.threads.max();
        let state = State { lock: None, last_access: None, synchronize: Synchronize::new(max) };
        let obj = execution.objects.insert(Entry::RwLock(state));
        proof {
            assert(execution.objects.entries@.drop_last() =~= old_e.objects.entries@);
            lemma_entry_insert(old_e, *execution);
            assert(execution.objects.entries@[obj.index as int] == Entry::RwLock(state));
        }
        RwLock { obj }
    }

    /// Returns `true` if the lock is held by readers.
    pub fn is_read_locked(&self, execution: &Execution) -> (r: bool)
        requires
            is_rwlock(*execution, self.obj),
        ensures
            r == read_locked(rwlock_state(*execution, self.obj)),
    {
        match &execution.objects.entries[self.obj.index] {
            Entry::RwLock(s) => match &s.lock {
                Some(Locked::Read(_)) => true,
                _ => false,
            },
            _ => false,
        }
    }

    /// Returns `true` if the lock is held by a writer.
    pub fn is_write_locked(&self, execution: &Execution) -> (r: bool)
        requires
            is_rwlock(*execution, self.obj),
        ensures
            r == write_locked(rwlock_state(*execution, self.obj)),
    {
        match &execution.objects.entries[self.obj.index] {
            Entry::RwLock(s) => match &s.lock {
                Some(Locked::Write(_)) => true,
                _ => false,
            },
            _ => false,
        }
    }

    /// The branching point of taking a read lock: blocked while a writer
    /// holds it. `post_acquire_read_lock` then takes it.
    pub fn acquire_read_lock(&self, execution: &mut Execution, trace: &Trace) -> (r: Result<bool, Failure>)
        requires
            old(execution).running(),
            is_rwlock(*old(execution), self.obj),
        ensures
            exists|mid: Execution|
                active_set_keep(
                    *old(execution),
                    mid,
                    if write_locked(rwlock_state(*old(execution), self.obj)) {
                        thread::State::Blocked
                    } else {
                        old(execution).threads.active_thread().state
                    },
                    Some(Operation { obj: self.obj, action: Action::Opaque }),
                ) && #[trigger] scheduled(mid, *final(execution), r),
    {
        let locked = self.is_write_locked(execution);
        self.obj.branch_acquire(execution, locked, trace)
    }

    /// The branching point of taking the write lock: blocked while anyone
    /// holds it. `post_acquire_write_lock` then takes it.
    pub fn acquire_write_lock(&self, execution: &mut Execution, trace: &Trace) -> (r: Result<bool, Failure>)
        requires
            old(execution).running(),
            is_rwlock(*old(execution), self.obj),
        ensures
            exists|mid: Execution|
                active_set_keep(
                    *old(execution),
                    mid,
                    if rwlock_state(*old(execution), self.obj).lock is Some {
                        thread::State::Blocked
                    } else {
                        old(execution).threads.active_thread().state
                    },
                    Some(Operation { obj: self.obj, action: Action::Opaque }),
                ) && #[trigger] scheduled(mid, *final(execution), r),
    {
        let locked = self.is_write_locked(execution) || self.is_read_locked(execution);
        self.obj.branch_acquire(execution, locked, trace)
    }

    /// The branching point of trying to take the lock, for reading or
    /// writing.
    pub fn try_acquire_lock(&self, execution: &mut Execution, trace: &Trace) -> (r: Result<bool, Failure>)
        requires
            old(execution).running(),
            is_rwlock(*old(execution), self.obj),
        ensures
            exists|mid: Execution|
                active_set_keep(
                    *old(execution),
                    mid,
                    old(execution).threads.active_thread().state,
                    Some(Operation { obj: self.obj, action: Action::Opaque }),
                ) && #[trigger] scheduled(mid, *final(execution), r),
    {
        self.obj.branch_opaque(execution, trace)
    }
}

impl RwLock {
    /// Takes a read lock for the active thread, unless a writer holds it:
    /// the thread joins the readers, acquires the lock's causality and
    /// synchronizes with the sequential-consistency clock; the other threads
    /// about to operate on the lock are blocked. Returns whether the lock
    /// was taken.
    pub fn post_acquire_read_lock(&self, execution: &mut Execution) -> (r: bool)
        requires
            old(execution).running(),
            is_rwlock(*old(execution), self.obj),
        ensures
            final(execution).running(),
            r == !write_locked(rwlock_state(*old(execution), self.obj)),
            !r ==> *final(execution) == *old(execution),
            r ==> rw_acquired(*old(execution), *final(execution), self.obj, true),
    {
        let ghost old_e = *execution;
        if self.is_write_locked(execution) {
            return false;
        }
        let thread_id = execution.threads.active_id();
        match &mut execution.objects.entries[self.obj.index] {
            Entry::RwLock(state) => {
                // Set the lock to the current thread
                let lock = match &state.lock {
                    Some(Locked::Read(current)) => {
                        let mut readers = current.clone();
                        if !contains_reader(&readers, thread_id) {
                            readers.push(thread_id);
                        }
                        Locked::Read(readers)
                    },
                    _ => {
                        let mut readers: Vec<thread::Id> = Vec::new();
                        readers.push(thread_id);
                        Locked::Read(readers)
                    },
                };
                state.lock = Some(lock);
                state.synchronize.sync_load(&mut execution.threads, Ordering::Acquire);
            },
            _ => {},
        }
        execution.threads.seq_cst();
        proof {
            lemma_entry_update(old_e, *execution, self.obj.idx());
        }
        let ghost mid = *execution;
        // Block all writer threads from attempting to acquire the lock
        execution.set_waiting_state(self.obj, None, thread::State::Blocked);
        proof {
            lemma_synced(old_e, mid, *execution, self.obj, None, thread::State::Blocked);
        }
        true
    }

    /// Takes the write lock for the active thread, unless readers or a
    /// writer hold it: the thread becomes the holder, acquires the lock's causality and
    /// synchronizes with the sequential-consistency clock. Returns whether
    /// the lock was taken.
    pub fn post_acquire_write_lock(&self, execution: &mut Execution) -> (r: bool)
        requires
            old(execution).running(),
            is_rwlock(*old(execution), self.obj),
        ensures
            final(execution).running(),
            r == (rwlock_state(*old(execution), self.obj).lock is None),
            !r ==> *final(execution) == *old(execution),
            r ==> rw_acquired(*old(execution), *final(execution), self.obj, false),
    {
        let ghost old_e = *execution;
        if self.is_read_locked(execution) || self.is_write_locked(execution) {
            return false;
        }
        let thread_id = execution.threads.active_id();
        match &mut execution.objects.entries[self.obj.index] {
            Entry::RwLock(state) => {
                // Set the lock to the current thread
                state.lock = Some(Locked::Write(thread_id));
                state.synchronize.sync_load(&mut execution.threads, Ordering::Acquire);
            },
            _ => {},
        }
        // Establish sequential consistency between locks
        execution.threads.seq_cst();
        proof {
            lemma_entry_update(old_e, *execution, self.obj.idx());
        }
        true
    }

    /// Releases a read lock, as `release` does.
    pub fn release_read_lock(&self, execution: &mut Execution)
        requires
            old(execution).running(),
            is_rwlock(*old(execution), self.obj),
        ensures
            final(execution).running(),
            rw_released(*old(execution), *final(execution), self.obj),
    {
        self.release(execution);
    }

    /// Releases the write lock, as `release` does.
    pub fn release_write_lock(&self, execution: &mut Execution)
        requires
            old(execution).running(),
            is_rwlock(*old(execution), self.obj),
        ensures
            final(execution).running(),
            rw_released(*old(execution), *final(execution), self.obj),
    {
        self.release(execution);
    }

    /// Releases the lock, held for reading or writing: it is free and holds
    /// the active thread's causality, which synchronizes with the
    /// sequential-consistency clock; the other threads about to operate on
    /// the lock may run.
    fn release(&self, execution: &mut Execution)
        requires
            old(execution).running(),
            is_rwlock(*old(execution), self.obj),
        ensures
            final(execution).running(),
            rw_released(*old(execution), *final(execution), self.obj),
    {
        let ghost old_e = *execution;
        match &mut execution.objects.entries[self.obj.index] {
            Entry::RwLock(state) => {
                state.lock = None;
                state.synchronize.sync_store(&mut execution.threads, Ordering::Release);
            },
            _ => {},
        }
        // Establish sequential consistency between the lock's operations.
        execution.threads.seq_cst();
        proof {
            lemma_entry_update(old_e, *execution, self.obj.idx());
        }
        let ghost mid = *execution;
        execution.set_waiting_state(self.obj, None, thread::State::Runnable { unparked: false });
        proof {
            lemma_synced(old_e, mid, *execution, self.obj, None, thread::State::Runnable { unparked: false });
        }
    }
}

/// In a running execution, the clock of a reader-writer lock and the
/// active thread's causality have one entry per thread.
proof fn lemma_rwlock_lens(e: Execution, obj: Object)
    requires
        e.running(),
        is_rwlock(e, obj),
    ensures
        rwlock_state(e, obj).synchronize@.len() == e.max_threads,
        active_causality(e.threads).len() == e.max_threads,
        e.threads.seq_cst_causality@.len() == e.max_threads,
{
    assert(crate::rt::object::entry_wf(e.objects.entries@[obj.index as int], e.max_threads as nat));
    crate::rt::thread::lemma_active_wf(e.threads);
}

/// What a release of a reader-writer lock hands to the thread that takes
/// it next, for reading or for writing: every event of the releasing thread
/// up to the release happens before the acquiring thread once it holds the
/// lock. In between, the lock's clock may only have grown: taking the lock
/// keeps it and releasing it joins into it.
pub proof fn lemma_release_then_acquire(e0: Execution, e1: Execution, e2: Execution, e3: Execution, obj: Object, read: bool)
    requires
        e0.running(),
        e2.running(),
        is_rwlock(e0, obj),
        is_rwlock(e2, obj),
        rw_released(e0, e1, obj),
        vv_le(rwlock_state(e1, obj).synchronize@, rwlock_state(e2, obj).synchronize@),
        rw_acquired(e2, e3, obj, read),
    ensures
        vv_le(active_causality(e0.threads), active_causality(e3.threads)),
{
    let c0 = active_causality(e0.threads);
    let s1 = rwlock_state(e1, obj).synchronize@;
    let s2 = rwlock_state(e2, obj).synchronize@;
    let j = vv_join(active_causality(e2.threads), s2);
    let c = vv_join(j, e2.threads.seq_cst_causality@);
    lemma_rwlock_lens(e0, obj);
    lemma_rwlock_lens(e2, obj);
    lemma_join_least_upper_bound(rwlock_state(e0, obj).synchronize@, c0, s1);
    lemma_join_least_upper_bound(active_causality(e2.threads), s2, j);
    lemma_join_least_upper_bound(j, e2.threads.seq_cst_causality@, c);
    lemma_le_partial_order(c0, s1, s2);
    lemma_le_partial_order(c0, s2, j);
    lemma_le_partial_order(c0, j, c);
    assert(active_causality(e3.threads) == c);
}

/// Readers exclude a writer and a writer excludes readers: once threads
/// took the lock for reading, it is read locked (with the active thread
/// among the readers), so that taking it for writing
/// (`post_acquire_write_lock`) fails; once a thread took it for writing, it
/// is write locked by that thread, so that taking it for reading
/// (`post_acquire_read_lock`) or for writing again
/// (`post_acquire_write_lock`) fails.
pub proof fn lemma_readers_writer_exclusion(e0: Execution, e1: Execution, obj: Object, read: bool)
    requires
        e0.running(),
        is_rwlock(e0, obj),
        rw_acquired(e0, e1, obj, read),
    ensures
        is_rwlock(e1, obj),
        read ==> read_locked(rwlock_state(e1, obj)) && readers(rwlock_state(e1, obj)).contains(e0.threads.active_id_spec()),
        !read ==> write_locked(rwlock_state(e1, obj)) && rwlock_state(e1, obj).lock == Some(
            Locked::Write(e0.threads.active_id_spec()),
        ),
{
    if read {
        let rs = readers(rwlock_state(e0, obj));
        let t = e0.threads.active_id_spec();
        if !rs.contains(t) {
            assert(rs.push(t)[rs.len() as int] == t);
        }
    }
}

} // verus!
