//! One execution of a model: its path, threads and objects, and the DPOR
//! scheduler that picks the thread to run at each branching point.
use vstd::prelude::*;

use crate::rt::object::{access_len, access_ok, dependent_access, entry_access_lens, op_ok, Access, Entry, Operation, Store};
use crate::rt::path::{
    self, bt_threads, first_index, has_thread, is_first, kinds_preserved, only_explored, prev_overflows, schedule_explored,
    seeded, threads_of, with_active, Path,
};
use crate::rt::trace::{trace_matches, Trace};
use crate::rt::vv::vv_le;
use crate::rt::thread::{self, active_causality, ThreadSet};
use crate::rt::vv::{vv_join, VersionVec};
use crate::rt::Failure;
use crate::MAX_THREADS;

verus! {

/// Uniquely identifies an execution.
#[derive(Debug, Clone, Copy, PartialEq, Eq, Structural, Hash)]
pub struct Id(pub usize);

impl Id {
    /// An execution identifier built from the next value of the process-wide
    /// counter, which the caller draws.
    pub fn new(next: usize) -> (id: Id)
        ensures
            id.0 == next,
    {
        Id(next)
    }
}

/// The state of one execution of the model.
#[derive(Debug)]
pub struct Execution {
    /// Uniquely identifies an execution
    pub id: Id,
    /// Execution path taken
    pub path: Path,
    pub threads: ThreadSet,
    pub objects: Store,
    /// Maximum number of concurrent threads
    pub max_threads: usize,
    pub max_history: usize,
    /// Log execution output
    pub log: bool,
}

// ===== specifications =====

/// Every entry of the clock is at most `n`.
pub open spec fn clock_bound(c: Seq<usize>, n: int) -> bool {
    forall|k: int| 0 <= k < c.len() ==> #[trigger] c[k] <= n
}

/// A recorded access, if any, has a clock bounded by `n`.
pub open spec fn access_bound(a: Option<Access>, n: int) -> bool {
    a matches Some(x) ==> clock_bound(x.dpor_vv@, n)
}

/// Every recorded access of an entry has a clock bounded by `n`.
pub open spec fn entry_bound(e: Entry, n: int) -> bool {
    match e {
        Entry::Arc(s) => access_bound(s.last_ref_inc, n) && access_bound(s.last_ref_dec, n),
        Entry::Atomic(s) => access_bound(s.last_access, n) && access_bound(s.last_non_load_access, n),
        Entry::Mutex(s) => access_bound(s.last_access, n),
        Entry::Condvar(s) => access_bound(s.last_access, n),
        Entry::Notify(s) => access_bound(s.last_access, n),
        Entry::RwLock(s) => access_bound(s.last_access, n),
        Entry::Channel(s) => access_bound(s.last_send_access, n) && access_bound(s.last_recv_access, n),
        _ => true,
    }
}

/// The threads waiting on a condition variable are threads of the
/// execution.
pub open spec fn waiters_ok(e: Entry, id: Id, n: int) -> bool {
    e matches Entry::Condvar(s) ==> forall|k: int|
        0 <= k < s.waiters@.len() ==> (#[trigger] s.waiters@[k]).id < n && s.waiters@[k].execution_id == id
}

/// Two entries are objects of the same kind.
pub open spec fn same_kind(a: Entry, b: Entry) -> bool {
    &&& a is Alloc <==> b is Alloc
    &&& a is Arc <==> b is Arc
    &&& a is Atomic <==> b is Atomic
    &&& a is Mutex <==> b is Mutex
    &&& a is Condvar <==> b is Condvar
    &&& a is Notify <==> b is Notify
    &&& a is Channel <==> b is Channel
    &&& a is Cell <==> b is Cell
    &&& a is RwLock <==> b is RwLock
}

impl Execution {
    /// The execution's invariant.
    pub open spec fn wf(&self) -> bool {
        self.inner_wf() && self.bounded(self.path.pos as int)
    }

    /// The invariant but for the bound on the DPOR clocks.
    pub open spec fn inner_wf(&self) -> bool {
        &&& self.threads.wf()
        &&& self.threads.max == self.max_threads
        &&& self.max_threads <= MAX_THREADS
        &&& self.threads.execution_id == self.id
        &&& self.objects.execution_id == self.id
        &&& self.path.wf()
        &&& self.path.max_branches < usize::MAX
        &&& self.objects.wf(self.max_threads as nat, self.path.branches@)
        &&& forall|i: int|
            0 <= i < self.threads.threads@.len() ==> ((#[trigger] self.threads.threads@[i]).operation matches Some(
                op,
            ) ==> op_ok(self.objects, op))
        &&& forall|i: int|
            0 <= i < self.objects.entries@.len() ==> waiters_ok(
                #[trigger] self.objects.entries@[i],
                self.id,
                self.threads.threads@.len() as int,
            )
    }

    /// Every DPOR clock, of a thread or of a recorded access, is bounded by
    /// `n`. Each scheduling point advances one entry by one and moves the
    /// path on, so the clocks stay bounded by the path position.
    pub open spec fn bounded(&self, n: int) -> bool {
        &&& forall|i: int|
            0 <= i < self.threads.threads@.len() ==> clock_bound(
                (#[trigger] self.threads.threads@[i]).dpor_vv@,
                n,
            )
        &&& forall|i: int|
            0 <= i < self.objects.entries@.len() ==> entry_bound(
                #[trigger] self.objects.entries@[i],
                n,
            )
    }

    /// The execution has a running thread.
    pub open spec fn running(&self) -> bool {
        self.wf() && self.threads.active is Some
    }

    /// Everything a model run configures is unchanged.
    pub open spec fn same_config(&self, other: &Execution) -> bool {
        &&& self.id == other.id
        &&& self.max_threads == other.max_threads
        &&& self.max_history == other.max_history
        &&& self.log == other.log
        &&& self.path.same_config(&other.path)
    }
}

/// Entries of `old` keep their kind in `new`, which may have more.
pub open spec fn kinds_kept(old: Seq<Entry>, new: Seq<Entry>) -> bool {
    &&& old.len() <= new.len()
    &&& forall|i: int| 0 <= i < old.len() ==> same_kind(#[trigger] old[i], new[i])
}

/// A store stays well formed when the branch points keep their kinds.
pub proof fn lemma_store_wf_kinds(s: Store, max: nat, bs1: Seq<path::Entry>, bs2: Seq<path::Entry>)
    requires
        s.wf(max, bs1),
        kinds_preserved(bs1, bs2),
    ensures
        s.wf(max, bs2),
{
    assert forall|i: int| 0 <= i < s.entries@.len() implies crate::rt::object::entry_accesses_ok(
        #[trigger] s.entries@[i],
        max,
        bs2,
    ) by {
        assert(crate::rt::object::entry_accesses_ok(s.entries@[i], max, bs1));
    }
}

/// The threads of an execution that just started: only the root thread,
/// active and runnable, with zero clocks, no yield, no pending operation,
/// outside any critical section; the sequential-consistency clock is zero.
pub open spec fn root_only(ts: ThreadSet, id: Id, max: usize) -> bool {
    let t = ts.threads@[0];
    &&& ts.execution_id == id
    &&& ts.max == max
    &&& ts.threads@.len() == 1
    &&& ts.active == Some(0usize)
    &&& ts.seq_cst_causality@ == Seq::new(max as nat, |i: int| 0usize)
    &&& t.id == (thread::Id { execution_id: id, id: 0 })
    &&& t.state == (thread::State::Runnable { unparked: false })
    &&& t.causality@ == Seq::new(max as nat, |i: int| 0usize)
    &&& t.dpor_vv@ == Seq::new(max as nat, |i: int| 0usize)
    &&& !t.critical
    &&& t.operation is None
    &&& !t.notified
    &&& !t.pending
    &&& t.last_yield is None
    &&& t.yield_count == 0
}

impl Execution {
    /// Create a new execution with its root thread running.
    ///
    /// This is only called at the start of a model run; `step` reuses it for
    /// the following executions.
    pub fn new(max_threads: usize, max_branches: usize, preemption_bound: Option<u8>, id: usize) -> (r: Execution)
        requires
            0 < max_threads <= MAX_THREADS,
            max_branches < usize::MAX,
        ensures
            r.running(),
            r.id == Id(id),
            r.max_threads == max_threads,
            r.max_history == 7,
            !r.log,
            r.path.max_branches == max_branches,
            r.path.preemption_bound == preemption_bound,
            r.path.pos == 0,
            r.path.branches@.len() == 0,
            r.path.exploring,
            !r.path.inconsistent,
            root_only(r.threads, Id(id), max_threads),
            r.objects.entries@.len() == 0,
            r.objects.causal_cells@.len() == 0,
    {
        let id = Id::new(id);
        let mut threads = ThreadSet::new(id, max_threads);
        // Create the root thread
        let _ = threads.new_thread();
        let r = Execution {
            id,
            path: Path::new(max_branches, preemption_bound),
            threads,
            objects: Store::new(id),
            max_threads,
            max_history: 7,
            log: false,
        };
        proof {
            assert(r.threads.threads@[0].dpor_vv@ =~= Seq::new(max_threads as nat, |i: int| 0usize));
            assert(r.objects.causal_cells@ =~= Seq::empty());
            assert(crate::rt::causal::cells_view(r.objects.causal_cells@) =~= Seq::empty());
        }
        r
    }

    /// A new execution with its root thread running that follows `path`, as
    /// read back from a checkpoint; `None` when the path is not well formed
    /// or may hold as many branches as a `usize` counts.
    pub fn resume(max_threads: usize, path: Path, id: usize) -> (r: Option<Execution>)
        requires
            0 < max_threads <= MAX_THREADS,
        ensures
            r is Some <==> path.wf() && path.max_branches < usize::MAX,
            r matches Some(e) ==> {
                &&& e.running()
                &&& e.path == path
                &&& e.id == Id(id)
                &&& e.max_threads == max_threads
                &&& e.max_history == 7
                &&& !e.log
                &&& root_only(e.threads, Id(id), max_threads)
                &&& e.objects.entries@.len() == 0
                &&& e.objects.causal_cells@.len() == 0
            },
    {
        if !path.is_wf() || path.max_branches == usize::MAX {
            return None;
        }
        let id = Id::new(id);
        let mut threads = ThreadSet::new(id, max_threads);
        let _ = threads.new_thread();
        let r = Execution {
            id,
            path,
            threads,
            objects: Store::new(id),
            max_threads,
            max_history: 7,
            log: false,
        };
        proof {
            assert(r.threads.threads@[0].dpor_vv@ =~= Seq::new(max_threads as nat, |i: int| 0usize));
            assert(crate::rt::causal::cells_view(r.objects.causal_cells@) =~= Seq::empty());
        }
        Some(r)
    }

    pub fn id(&self) -> (r: Id)
        ensures
            r == self.id,
    {
        self.id
    }
}

/// Every entry of the active thread's causality clock can still advance.
pub open spec fn can_tick(ts: ThreadSet) -> bool {
    forall|k: int| 0 <= k < active_causality(ts).len() ==> #[trigger] active_causality(ts)[k] < usize::MAX
}

/// The threads other than `i` are unchanged.
pub open spec fn others_same(old: ThreadSet, new: ThreadSet, i: int) -> bool {
    &&& new.threads@.len() == old.threads@.len()
    &&& forall|k: int| 0 <= k < old.threads@.len() && k != i ==> #[trigger] new.threads@[k] == old.threads@[k]
}

/// `new` is `old` after unparking thread `id` (see
/// `Execution::unpark_thread`).
pub open spec fn unparked(old: Execution, new: Execution, id: thread::Id) -> bool {
    &&& new.running()
    &&& new.same_config(&old)
    &&& new.path == old.path
    &&& new.objects == old.objects
    &&& new.threads.active == old.threads.active
    &&& new.threads.seq_cst_causality == old.threads.seq_cst_causality
    &&& id.id == old.threads.active->0 ==> new.threads == old.threads
    &&& id.id != old.threads.active->0 ==> {
        let o = old.threads.threads@[id.id as int];
        let t = new.threads.threads@[id.id as int];
        &&& others_same(old.threads, new.threads, id.id as int)
        &&& t.causality@ == vv_join(o.causality@, active_causality(old.threads))
        &&& t.state == if o.state == thread::State::Blocked || o.state == thread::State::Yield {
            thread::State::Runnable { unparked: false }
        } else {
            o.state
        }
        &&& t.id == o.id && t.operation == o.operation && t.dpor_vv == o.dpor_vv
        &&& t.critical == o.critical && t.yield_count == o.yield_count && t.last_yield == o.last_yield
        &&& t.notified == o.notified && t.pending == o.pending
    }
}

impl Execution {
    /// Create state to track a new thread. The new thread starts with the
    /// spawning thread's clocks; both threads then advance their own entry,
    /// so that an access by either is ordered after the spawn.
    pub fn new_thread(&mut self) -> (r: Result<thread::Id, Failure>)
        requires
            old(self).running(),
            can_tick(old(self).threads),
        ensures
            final(self).running(),
            final(self).same_config(old(self)),
            final(self).path == old(self).path,
            final(self).objects == old(self).objects,
            r is Err <==> old(self).threads.threads@.len() >= old(self).max_threads,
            r is Err ==> r == Err::<thread::Id, Failure>(Failure::ThreadLimit) && *final(self) == *old(self),
            r matches Ok(id) ==> {
                let n = old(self).threads.threads@.len() as int;
                let a = old(self).threads.active->0 as int;
                let ac = active_causality(old(self).threads);
                let nt = final(self).threads.threads@[n];
                let at = final(self).threads.threads@[a];
                &&& id == (thread::Id { execution_id: old(self).id, id: n as usize })
                &&& final(self).threads.threads@.len() == n + 1
                &&& final(self).threads.active == old(self).threads.active
                &&& final(self).threads.seq_cst_causality == old(self).threads.seq_cst_causality
                &&& nt.causality@ == ac.update(n, (ac[n] + 1) as usize)
                &&& nt.dpor_vv@ == old(self).threads.threads@[a].dpor_vv@
                &&& nt.state == (thread::State::Runnable { unparked: false })
                &&& nt.operation is None
                &&& nt.yield_count == 0
                &&& nt.last_yield is None
                &&& !nt.critical
                &&& at.causality@ == ac.update(a, (ac[a] + 1) as usize)
                &&& at.id == old(self).threads.threads@[a].id
                &&& at.state == old(self).threads.threads@[a].state
                &&& at.operation == old(self).threads.threads@[a].operation
                &&& at.dpor_vv == old(self).threads.threads@[a].dpor_vv
                &&& at.critical == old(self).threads.threads@[a].critical
                &&& at.yield_count == old(self).threads.threads@[a].yield_count
                &&& at.last_yield == old(self).threads.threads@[a].last_yield
                &&& at.notified == old(self).threads.threads@[a].notified
                &&& at.pending == old(self).threads.threads@[a].pending
                &&& forall|k: int| 0 <= k < n && k != a ==> #[trigger] final(self).threads.threads@[k] == old(self).threads.threads@[k]
            },
    {
        if self.threads.threads.len() >= self.threads.max() {
            // Model exceeded maximum number of threads
            return Err(Failure::ThreadLimit);
        }
        let ghost old_threads = self.threads;
        let a = self.threads.active.unwrap();
        proof {
            assert(self.threads.threads@[a as int].wf(self.max_threads as nat));
        }
        let active_id = self.threads.active_id();
        let ac = self.threads.get(a).causality.clone();
        let ad = self.threads.get(a).dpor_vv.clone();
        let thread_id = self.threads.new_thread();
        let n = thread_id.id;
        proof {
            assert(self.threads.threads@[n as int].wf(self.max_threads as nat));
            crate::rt::atomic::lemma_join_zeros(ac@);
            crate::rt::atomic::lemma_join_zeros(ad@);
            assert(active_causality(old_threads)[n as int] < usize::MAX);
            assert(active_causality(old_threads)[a as int] < usize::MAX);
            assert(self.threads.threads@[n as int].causality@ =~= crate::rt::atomic::zeros(ac@.len()));
            assert(self.threads.threads@[n as int].dpor_vv@ =~= crate::rt::atomic::zeros(ad@.len()));
        }
        let new = self.threads.get_mut(n);
        new.causality.join(&ac);
        new.dpor_vv.join(&ad);
        new.causality.inc(thread_id);
        let active = self.threads.get_mut(a);
        active.causality.inc(active_id);
        proof {
            let ts = self.threads;
            assert forall|i: int| 0 <= i < ts.threads@.len() implies (#[trigger] ts.threads@[i]).wf(ts.max as nat)
                && ts.threads@[i].id == (thread::Id { execution_id: ts.execution_id, id: i as usize }) by {
                if i < n {
                    assert(old_threads.threads@[i].wf(ts.max as nat));
                }
            }
            assert forall|i: int| 0 <= i < ts.threads@.len() implies clock_bound(
                (#[trigger] ts.threads@[i]).dpor_vv@,
                self.path.pos as int,
            ) by {
                if i < n {
                    assert(clock_bound(old_threads.threads@[i].dpor_vv@, self.path.pos as int));
                } else {
                    assert(clock_bound(old_threads.threads@[a as int].dpor_vv@, self.path.pos as int));
                }
            }
            assert forall|i: int| 0 <= i < self.objects.entries@.len() implies waiters_ok(
                #[trigger] self.objects.entries@[i],
                self.id,
                ts.threads@.len() as int,
            ) by {
                assert(waiters_ok(self.objects.entries@[i], self.id, old_threads.threads@.len() as int));
            }
        }
        Ok(thread_id)
    }

    /// Wakes the thread `id`: it acquires the causality of the active
    /// thread, and becomes runnable if it was blocked or yielding. Unparking
    /// the active thread does nothing.
    pub fn unpark_thread(&mut self, id: thread::Id)
        requires
            old(self).running(),
            id.id < old(self).threads.threads@.len(),
        ensures
            unparked(*old(self), *final(self), id),
    {
        let a = self.threads.active.unwrap();
        if id.id == a {
            return;
        }
        proof {
            assert(self.threads.threads@[a as int].wf(self.max_threads as nat));
            assert(self.threads.threads@[id.id as int].wf(self.max_threads as nat));
        }
        let ghost old_threads = self.threads;
        // Synchronize memory
        let ac = self.threads.get(a).causality.clone();
        let th = self.threads.get_mut(id.id);
        th.causality.join(&ac);
        if th.is_blocked() || th.is_yield() {
            th.set_runnable();
        }
        proof {
            let ts = self.threads;
            assert forall|i: int| 0 <= i < ts.threads@.len() implies (#[trigger] ts.threads@[i]).wf(ts.max as nat)
                && ts.threads@[i].id == (thread::Id { execution_id: ts.execution_id, id: i as usize }) by {
                assert(old_threads.threads@[i].wf(ts.max as nat));
            }
            assert forall|i: int| 0 <= i < ts.threads@.len() implies clock_bound(
                (#[trigger] ts.threads@[i]).dpor_vv@,
                self.path.pos as int,
            ) by {
                assert(clock_bound(old_threads.threads@[i].dpor_vv@, self.path.pos as int));
            }
            assert forall|i: int| 0 <= i < ts.threads@.len() implies ((#[trigger] ts.threads@[i]).operation matches Some(op) ==> op_ok(self.objects, op)) by {
                assert(old_threads.threads@[i].operation == ts.threads@[i].operation);
            }
        }
    }

    /// Marks the active thread as in a critical section.
    pub fn set_critical(&mut self)
        requires
            old(self).running(),
        ensures
            final(self).running(),
            final(self).same_config(old(self)),
            final(self).path == old(self).path,
            final(self).objects == old(self).objects,
            final(self).threads.active_thread().critical,
            final(self).threads.active == old(self).threads.active,
            active_causality(final(self).threads) == active_causality(old(self).threads),
    {
        let a = self.threads.active.unwrap();
        let ghost old_threads = self.threads;
        let th = self.threads.get_mut(a);
        th.critical = true;
        proof {
            let ts = self.threads;
            assert forall|i: int| 0 <= i < ts.threads@.len() implies (#[trigger] ts.threads@[i]).wf(ts.max as nat)
                && ts.threads@[i].id == (thread::Id { execution_id: ts.execution_id, id: i as usize }) by {
                assert(old_threads.threads@[i].wf(ts.max as nat));
            }
            assert forall|i: int| 0 <= i < ts.threads@.len() implies clock_bound(
                (#[trigger] ts.threads@[i]).dpor_vv@,
                self.path.pos as int,
            ) by {
                assert(clock_bound(old_threads.threads@[i].dpor_vv@, self.path.pos as int));
            }
            assert forall|i: int| 0 <= i < ts.threads@.len() implies ((#[trigger] ts.threads@[i]).operation matches Some(op) ==> op_ok(self.objects, op)) by {
                assert(old_threads.threads@[i].operation == ts.threads@[i].operation);
            }
        }
    }

    /// Marks the active thread as out of its critical section.
    pub fn unset_critical(&mut self)
        requires
            old(self).running(),
        ensures
            final(self).running(),
            final(self).same_config(old(self)),
            final(self).path == old(self).path,
            final(self).objects == old(self).objects,
            !final(self).threads.active_thread().critical,
            final(self).threads.active == old(self).threads.active,
            active_causality(final(self).threads) == active_causality(old(self).threads),
    {
        let a = self.threads.active.unwrap();
        let ghost old_threads = self.threads;
        let th = self.threads.get_mut(a);
        th.critical = false;
        proof {
            let ts = self.threads;
            assert forall|i: int| 0 <= i < ts.threads@.len() implies (#[trigger] ts.threads@[i]).wf(ts.max as nat)
                && ts.threads@[i].id == (thread::Id { execution_id: ts.execution_id, id: i as usize }) by {
                assert(old_threads.threads@[i].wf(ts.max as nat));
            }
            assert forall|i: int| 0 <= i < ts.threads@.len() implies clock_bound(
                (#[trigger] ts.threads@[i]).dpor_vv@,
                self.path.pos as int,
            ) by {
                assert(clock_bound(old_threads.threads@[i].dpor_vv@, self.path.pos as int));
            }
            assert forall|i: int| 0 <= i < ts.threads@.len() implies ((#[trigger] ts.threads@[i]).operation matches Some(op) ==> op_ok(self.objects, op)) by {
                assert(old_threads.threads@[i].operation == ts.threads@[i].operation);
            }
        }
    }

    /// Resets the execution state for the next execution of the model:
    /// objects and threads are dropped, the root thread is created again,
    /// and the path moves on to its next alternative. `None` when every
    /// execution has been explored. An execution whose model did not replay
    /// its operations cannot step; the next one gets a fresh identifier.
    pub fn step(self, next_id: usize) -> (r: Option<Execution>)
        requires
            self.wf(),
            !self.path.inconsistent,
            next_id != self.id.0,
        ensures
            r is None ==> forall|j: int|
                0 <= j < self.path.branches@.len() ==> path::exhausted(#[trigger] self.path.branches@[j]),
            r matches Some(e) ==> {
                &&& e.running()
                &&& e.id == Id(next_id)
                &&& e.id != self.id
                &&& e.max_threads == self.max_threads
                &&& e.max_history == self.max_history
                &&& e.log == self.log
                &&& e.path.same_config(&self.path)
                &&& e.path.pos == 0
                &&& !e.path.inconsistent
                &&& path::stepped(self.path.branches@, e.path.branches@)
                &&& root_only(e.threads, Id(next_id), self.max_threads)
                &&& e.objects.entries@.len() == 0
                &&& e.objects.causal_cells@.len() == 0
            },
    {
        let id = Id::new(next_id);
        let max_threads = self.max_threads;
        let max_history = self.max_history;
        let log = self.log;
        let mut path = self.path;
        let mut objects = self.objects;
        let mut threads = self.threads;
        objects.clear(id);
        if !path.step() {
            return None;
        }
        threads.clear(id);
        let _ = threads.new_thread();
        let r = Execution { id, path, threads, objects, max_threads, max_history, log };
        proof {
            assert(r.threads.threads@[0].dpor_vv@ =~= Seq::new(max_threads as nat, |i: int| 0usize));
            assert(crate::rt::causal::cells_view(r.objects.causal_cells@) =~= Seq::empty());
        }
        Some(r)
    }
}

// ===== scheduling =====

/// The branch point that a thread's next operation races with: the position
/// of the last dependent access of its object, when that access does not
/// happen before the thread's DPOR clock.
pub open spec fn race_point(objects: Store, th: thread::Thread) -> Option<int> {
    match th.operation {
        Some(op) => match dependent_access(objects.entries@[op.obj.index as int], op.action) {
            Some(acc) => if !vv_le(acc.1, th.dpor_vv@) {
                Some(acc.0 as int)
            } else {
                None
            },
            None => None,
        },
        None => None,
    }
}

/// Thread `t` will be explored from the scheduling branch point `p`, unless
/// the preemption bound is reached there.
pub open spec fn explored_at(bs: Seq<path::Entry>, p: int, t: int, bound: Option<u8>) -> bool {
    &&& 0 <= p < bs.len()
    &&& bs[p] is Schedule
    &&& 0 <= t < threads_of(bs[p]).len()
    &&& (bound matches Some(b) && bs[p]->Schedule_0.preemptions == b) || threads_of(bs[p])[t] != path::Thread::Skip
}

/// The branch point `k` is where thread `t`'s next operation races with an
/// earlier dependent access, or the earlier branch point that
/// preemption-bounded backtracking marks with it.
pub open spec fn race_target(e: Execution, t: int, k: int) -> bool {
    race_point(e.objects, e.threads.threads@[t]) matches Some(p) && (k == p || k == path::second_target(
        e.path.branches@,
        p,
        e.path.preemption_bound,
    ))
}

/// Of the branch points of `old`, `bs` changes only those where a thread's
/// next operation races: equivalent interleavings are not explored again.
pub open spec fn only_races_explored(old: Execution, bs: Seq<path::Entry>) -> bool {
    forall|k: int|
        0 <= k < old.path.branches@.len() && bs[k] != old.path.branches@[k] ==> exists|t: int|
            0 <= t < old.threads.threads@.len() && #[trigger] race_target(old, t, k)
}

/// Exploring more threads keeps the first active thread of a branch point.
proof fn lemma_first_active_kept(a: path::Entry, b: path::Entry)
    requires
        explored_or_same(a, b),
    ensures
        path::first_index(threads_of(a), path::Thread::Active) == path::first_index(threads_of(b), path::Thread::Active),
{
    if a != b {
        let x = threads_of(a);
        let y = threads_of(b);
        path::lemma_first_index(x, path::Thread::Active);
        path::lemma_first_index(y, path::Thread::Active);
        assert(path::is_first(y, path::Thread::Active, path::first_index(x, path::Thread::Active)));
    }
}

/// Exploring more threads keeps the branch points that preemption-bounded
/// backtracking walks back to.
proof fn lemma_chain_target_kept(a: Seq<path::Entry>, b: Seq<path::Entry>, c: int)
    requires
        a.len() == b.len(),
        all_explored_or_same(a, b),
    ensures
        path::chain_target(a, c) == path::chain_target(b, c),
    decreases c,
{
    if 0 <= c < a.len() {
        assert(explored_or_same(a[c], b[c]));
        if let path::Entry::Schedule(s) = a[c] {
            if let Some(p) = s.prev {
                if 0 <= p < c {
                    assert(explored_or_same(a[p as int], b[p as int]));
                    lemma_first_active_kept(a[c], b[c]);
                    lemma_first_active_kept(a[p as int], b[p as int]);
                    lemma_chain_target_kept(a, b, p as int);
                }
            }
        }
    }
}

/// Exploring more threads keeps the second target of a backtrack.
proof fn lemma_second_target_kept(a: Seq<path::Entry>, b: Seq<path::Entry>, p: int, bound: Option<u8>)
    requires
        a.len() == b.len(),
        all_explored_or_same(a, b),
        0 <= p < a.len(),
    ensures
        path::second_target(a, p, bound) == path::second_target(b, p, bound),
{
    assert(explored_or_same(a[p], b[p]));
    if let path::Entry::Schedule(s) = a[p] {
        if let Some(q) = s.prev {
            lemma_chain_target_kept(a, b, q as int);
        }
    }
}

/// The branch point is unchanged, or only has more threads to explore.
pub open spec fn explored_or_same(a: path::Entry, b: path::Entry) -> bool {
    a == b || schedule_explored(a, b)
}

/// Branch points that only gain threads to explore keep their kinds.
pub open spec fn all_explored_or_same(a: Seq<path::Entry>, b: Seq<path::Entry>) -> bool {
    &&& a.len() <= b.len()
    &&& forall|k: int| 0 <= k < a.len() ==> explored_or_same(#[trigger] a[k], b[k])
}

proof fn lemma_explored_trans(a: path::Entry, b: path::Entry, c: path::Entry)
    requires
        explored_or_same(a, b),
        explored_or_same(b, c),
    ensures
        explored_or_same(a, c),
{
    if a != b && b != c {
        match (a, b, c) {
            (path::Entry::Schedule(x), path::Entry::Schedule(y), path::Entry::Schedule(z)) => {
                assert(only_explored(x.threads@, y.threads@));
                assert(only_explored(y.threads@, z.threads@));
                assert forall|t: int| 0 <= t < x.threads@.len() implies #[trigger] z.threads@[t] == x.threads@[t] || (
                x.threads@[t] == path::Thread::Skip && z.threads@[t] == path::Thread::Pending) by {
                    assert(y.threads@[t] == x.threads@[t] || (x.threads@[t] == path::Thread::Skip && y.threads@[t]
                        == path::Thread::Pending));
                    assert(z.threads@[t] == y.threads@[t] || (y.threads@[t] == path::Thread::Skip && z.threads@[t]
                        == path::Thread::Pending));
                }
                assert(schedule_explored(a, c));
            },
            _ => {},
        }
    }
}

proof fn lemma_all_explored_trans(a: Seq<path::Entry>, b: Seq<path::Entry>, c: Seq<path::Entry>)
    requires
        all_explored_or_same(a, b),
        all_explored_or_same(b, c),
    ensures
        all_explored_or_same(a, c),
{
    assert forall|k: int| 0 <= k < a.len() implies explored_or_same(#[trigger] a[k], c[k]) by {
        assert(explored_or_same(a[k], b[k]));
        assert(explored_or_same(b[k], c[k]));
        lemma_explored_trans(a[k], b[k], c[k]);
    }
}

proof fn lemma_explored_kinds(a: Seq<path::Entry>, b: Seq<path::Entry>)
    requires
        all_explored_or_same(a, b),
    ensures
        kinds_preserved(a, b),
{
    assert forall|k: int| 0 <= k < a.len() implies (#[trigger] a[k] is Schedule <==> b[k] is Schedule) && (a[k] is Load
        <==> b[k] is Load) && (a[k] is Spurious <==> b[k] is Spurious) by {
        assert(explored_or_same(a[k], b[k]));
    }
}

proof fn lemma_explored_at_kept(bs1: Seq<path::Entry>, bs2: Seq<path::Entry>, p: int, t: int, bound: Option<u8>)
    requires
        explored_at(bs1, p, t, bound),
        all_explored_or_same(bs1, bs2),
        0 <= t < MAX_THREADS,
    ensures
        explored_at(bs2, p, t, bound),
{
    assert(explored_or_same(bs1[p], bs2[p]));
    if bs1[p] != bs2[p] {
        let x = bs1[p]->Schedule_0;
        let y = bs2[p]->Schedule_0;
        if t < x.threads@.len() {
            assert(y.threads@[t] == x.threads@[t] || (x.threads@[t] == path::Thread::Skip && y.threads@[t]
                == path::Thread::Pending));
        }
    }
}

proof fn lemma_bt_explores(ts: Seq<path::Thread>, tid: int, pre: u8, bound: Option<u8>)
    requires
        ts.len() == MAX_THREADS,
        0 <= tid < MAX_THREADS,
    ensures
        (bound matches Some(b) && pre == b) || bt_threads(ts, tid, pre, bound)[tid] != path::Thread::Skip,
{
}

impl Execution {
    /// The DPOR step: every thread whose next operation races with the last
    /// dependent access of its object is marked for exploration at the
    /// branch point of that access.
    fn dpor_backtrack(&mut self)
        requires
            old(self).wf(),
        ensures
            final(self).wf(),
            final(self).same_config(old(self)),
            final(self).threads == old(self).threads,
            final(self).objects == old(self).objects,
            final(self).path.pos == old(self).path.pos,
            final(self).path.schedule_trace == old(self).path.schedule_trace,
            final(self).path.inconsistent == old(self).path.inconsistent,
            final(self).path.branches@.len() == old(self).path.branches@.len(),
            all_explored_or_same(old(self).path.branches@, final(self).path.branches@),
            forall|t: int|
                0 <= t < old(self).threads.threads@.len() ==> (race_point(
                    old(self).objects,
                    #[trigger] old(self).threads.threads@[t],
                ) matches Some(p) ==> explored_at(final(self).path.branches@, p, t, old(self).path.preemption_bound)),
            only_races_explored(*old(self), final(self).path.branches@),
    {
        let n = self.threads.threads.len();
        let ghost obs = self.path.branches@;
        let mut i: usize = 0;
        while i < n
            invariant
                old(self).wf(),
                n == old(self).threads.threads@.len(),
                n <= MAX_THREADS,
                i <= n,
                obs == old(self).path.branches@,
                self.same_config(old(self)),
                self.threads == old(self).threads,
                self.objects == old(self).objects,
                self.path.wf(),
                self.path.pos == old(self).path.pos,
                self.path.schedule_trace == old(self).path.schedule_trace,
                self.path.inconsistent == old(self).path.inconsistent,
                self.path.branches@.len() == obs.len(),
                all_explored_or_same(obs, self.path.branches@),
                forall|t: int|
                    0 <= t < i ==> (race_point(self.objects, #[trigger] self.threads.threads@[t]) matches Some(p)
                        ==> explored_at(self.path.branches@, p, t, self.path.preemption_bound)),
                forall|k: int|
                    0 <= k < obs.len() && self.path.branches@[k] != obs[k] ==> exists|t: int|
                        0 <= t < i && #[trigger] race_target(*old(self), t, k),
            decreases n - i,
        {
            let ghost cbs = self.path.branches@;
            let op = self.threads.threads[i].operation;
            match op {
                Some(operation) => {
                    proof {
                        assert(op_ok(self.objects, operation));
                        assert(crate::rt::object::entry_accesses_ok(
                            self.objects.entries@[operation.obj.index as int],
                            self.max_threads as nat,
                            obs,
                        ));
                    }
                    let access = self.objects.last_dependent_access(operation);
                    match access {
                        Some(acc) => {
                            if !acc.dpor_vv.le(&self.threads.threads[i].dpor_vv) {
                                let p = acc.path_id;
                                proof {
                                    assert(p < obs.len() && obs[p as int] is Schedule);
                                    assert(explored_or_same(obs[p as int], cbs[p as int]));
                                }
                                self.path.backtrack(p, thread::Id::new(self.id, i));
                                proof {
                                    let nbs = self.path.branches@;
                                    let second = path::second_target(cbs, p as int, self.path.preemption_bound);
                                    assert(all_explored_or_same(cbs, nbs)) by {
                                        assert forall|k: int| 0 <= k < cbs.len() implies explored_or_same(#[trigger] cbs[k], nbs[k]) by {
                                            if k != p && k != second {
                                                assert(nbs[k] == cbs[k]);
                                            }
                                        }
                                    }
                                    lemma_all_explored_trans(obs, cbs, nbs);
                                    let x = cbs[p as int]->Schedule_0;
                                    assert(path::entry_wf(cbs[p as int], p as int, cbs, self.path.preemption_bound));
                                    lemma_bt_explores(x.threads@, i as int, x.preemptions, self.path.preemption_bound);
                                    assert(explored_at(nbs, p as int, i as int, self.path.preemption_bound));
                                    lemma_second_target_kept(obs, cbs, p as int, self.path.preemption_bound);
                                    assert(race_point(self.objects, self.threads.threads@[i as int]) == Some(p as int));
                                    assert forall|k: int|
                                        0 <= k < obs.len() && nbs[k] != obs[k] implies exists|t: int|
                                            0 <= t < i + 1 && #[trigger] race_target(*old(self), t, k) by {
                                        if k == p || k == second {
                                            assert(race_target(*old(self), i as int, k));
                                        } else {
                                            assert(nbs[k] == cbs[k]);
                                            let t = choose|t: int| 0 <= t < i && #[trigger] race_target(*old(self), t, k);
                                            assert(race_target(*old(self), t, k));
                                        }
                                    }
                                    assert forall|t: int|
                                        0 <= t < i + 1 implies (race_point(self.objects, #[trigger] self.threads.threads@[t]) matches Some(q)
                                        ==> explored_at(nbs, q, t, self.path.preemption_bound)) by {
                                        if t < i {
                                            if let Some(q) = race_point(self.objects, self.threads.threads@[t]) {
                                                lemma_explored_at_kept(cbs, nbs, q, t, self.path.preemption_bound);
                                            }
                                        }
                                    }
                                }
                            }
                        },
                        None => {},
                    }
                },
                None => {},
            }
            i = i + 1;
        }
        proof {
            lemma_explored_kinds(obs, self.path.branches@);
            crate::rt::execution::lemma_store_wf_kinds(self.objects, self.max_threads as nat, obs, self.path.branches@);
        }
    }
}

/// Among the first `n` threads, the first runnable one of those that yielded
/// least often.
pub open spec fn min_yield_upto(ts: Seq<thread::Thread>, n: int) -> Option<int>
    decreases n,
{
    if n <= 0 {
        None
    } else {
        let m = min_yield_upto(ts, n - 1);
        if !(ts[n - 1].state is Runnable) {
            m
        } else {
            match m {
                None => Some(n - 1),
                Some(k) => if ts[n - 1].yield_count < ts[k].yield_count {
                    Some(n - 1)
                } else {
                    m
                },
            }
        }
    }
}

proof fn lemma_min_yield(ts: Seq<thread::Thread>, n: int)
    requires
        0 <= n <= ts.len(),
    ensures
        min_yield_upto(ts, n) matches Some(k) ==> 0 <= k < n && ts[k].state is Runnable,
        min_yield_upto(ts, n) is None ==> forall|k: int| 0 <= k < n ==> !(#[trigger] ts[k].state is Runnable),
    decreases n,
{
    if n > 0 {
        lemma_min_yield(ts, n - 1);
    }
}

/// The thread the scheduler prefers: the active one while it can run, so as
/// to avoid preemption; otherwise the runnable thread that yielded least.
pub open spec fn initial_choice(ts: ThreadSet) -> Option<int> {
    if ts.threads@[ts.active->0 as int].state is Runnable {
        Some(ts.active->0 as int)
    } else {
        min_yield_upto(ts.threads@, ts.threads@.len() as int)
    }
}

/// The state of each thread at a new scheduling branch point: the preferred
/// thread is active; the others are yielding, disabled, or to be explored
/// later.
pub open spec fn seed_of(ts: Seq<thread::Thread>, initial: Option<int>) -> Seq<path::Thread> {
    Seq::new(
        ts.len(),
        |i: int|
            if initial == Some(i) {
                path::Thread::Active
            } else if ts[i].state == thread::State::Yield {
                path::Thread::Yield
            } else if !(ts[i].state is Runnable) {
                path::Thread::Disabled
            } else {
                path::Thread::Skip
            },
    )
}

pub open spec fn opt_int(o: Option<usize>) -> Option<int> {
    match o {
        Some(x) => Some(x as int),
        None => None,
    }
}

/// Every thread has terminated.
pub open spec fn all_terminated(ts: Seq<thread::Thread>) -> bool {
    forall|i: int| 0 <= i < ts.len() ==> #[trigger] ts[i].state == thread::State::Terminated
}

/// The two threads differ at most in their state.
pub open spec fn same_but_state(o: thread::Thread, n: thread::Thread) -> bool {
    &&& n.id == o.id
    &&& n.critical == o.critical
    &&& n.operation == o.operation
    &&& n.causality == o.causality
    &&& n.dpor_vv == o.dpor_vv
    &&& n.notified == o.notified
    &&& n.pending == o.pending
    &&& n.last_yield == o.last_yield
    &&& n.yield_count == o.yield_count
}

/// The state after the scheduler chose another thread: a yielding thread
/// may run again.
pub open spec fn woken_state(s: thread::State) -> thread::State {
    if s == thread::State::Yield {
        thread::State::Runnable { unparked: false }
    } else {
        s
    }
}

/// The DPOR clock of a thread about to run its operation: joined with the
/// clock of the dependent access, then advanced at the thread's own entry.
pub open spec fn dpor_after(th: thread::Thread, objects: Store, a: int) -> Seq<usize> {
    let j = match th.operation {
        Some(op) => match dependent_access(objects.entries@[op.obj.index as int], op.action) {
            Some(acc) => vv_join(th.dpor_vv@, acc.1),
            None => th.dpor_vv@,
        },
        None => th.dpor_vv@,
    };
    j.update(a, (j[a] + 1) as usize)
}

impl Execution {
    /// The thread to seed a new branch point with as active.
    fn initial_thread(&self) -> (r: Option<usize>)
        requires
            self.running(),
        ensures
            opt_int(r) == initial_choice(self.threads),
            // To avoid preemption, a runnable active thread keeps running.
            self.threads.active_thread().state is Runnable ==> r == self.threads.active,
            r matches Some(k) ==> k < self.threads.threads@.len() && self.threads.threads@[k as int].state is Runnable,
            r is None ==> forall|k: int|
                0 <= k < self.threads.threads@.len() ==> !(#[trigger] self.threads.threads@[k].state is Runnable),
    {
        let a = self.threads.active.unwrap();
        if self.threads.threads[a].is_runnable() {
            return Some(a);
        }
        let n = self.threads.threads.len();
        let mut initial: Option<usize> = None;
        let mut i: usize = 0;
        while i < n
            invariant
                n == self.threads.threads@.len(),
                i <= n,
                opt_int(initial) == min_yield_upto(self.threads.threads@, i as int),
            decreases n - i,
        {
            let th = &self.threads.threads[i];
            if th.is_runnable() {
                match initial {
                    Some(init) => {
                        proof {
                            lemma_min_yield(self.threads.threads@, i as int);
                        }
                        if th.yield_count < self.threads.threads[init].yield_count {
                            initial = Some(i);
                        }
                    },
                    None => {
                        initial = Some(i);
                    },
                }
            }
            i = i + 1;
        }
        proof {
            lemma_min_yield(self.threads.threads@, n as int);
        }
        initial
    }

    /// The seed of a new branch point, one state per thread.
    fn thread_seed(&self, initial: Option<usize>) -> (r: Vec<path::Thread>)
        ensures
            r@ == seed_of(self.threads.threads@, opt_int(initial)),
    {
        let n = self.threads.threads.len();
        let mut seed: Vec<path::Thread> = Vec::new();
        let mut i: usize = 0;
        while i < n
            invariant
                n == self.threads.threads@.len(),
                i <= n,
                seed@ == seed_of(self.threads.threads@, opt_int(initial)).subrange(0, i as int),
            decreases n - i,
        {
            let th = &self.threads.threads[i];
            let t = if initial == Some(i) {
                path::Thread::Active
            } else if th.is_yield() {
                path::Thread::Yield
            } else if !th.is_runnable() {
                path::Thread::Disabled
            } else {
                path::Thread::Skip
            };
            seed.push(t);
            i = i + 1;
            proof {
                assert(seed@ =~= seed_of(self.threads.threads@, opt_int(initial)).subrange(0, i as int));
            }
        }
        assert(seed@ =~= seed_of(self.threads.threads@, opt_int(initial)));
        seed
    }

    /// `true` when every thread has terminated.
    fn all_terminated(&self) -> (r: bool)
        ensures
            r == all_terminated(self.threads.threads@),
    {
        let n = self.threads.threads.len();
        let mut i: usize = 0;
        while i < n
            invariant
                n == self.threads.threads@.len(),
                i <= n,
                forall|k: int| 0 <= k < i ==> #[trigger] self.threads.threads@[k].state == thread::State::Terminated,
            decreases n - i,
        {
            if !self.threads.threads[i].is_terminated() {
                return false;
            }
            i = i + 1;
        }
        true
    }

    /// Yielding threads other than `next` may run again.
    fn wake_yielded(&mut self, next: usize)
        requires
            old(self).wf(),
        ensures
            final(self).wf(),
            final(self).same_config(old(self)),
            final(self).path == old(self).path,
            final(self).objects == old(self).objects,
            final(self).threads.active == old(self).threads.active,
            final(self).threads.execution_id == old(self).threads.execution_id,
            final(self).threads.max == old(self).threads.max,
            final(self).threads.seq_cst_causality == old(self).threads.seq_cst_causality,
            final(self).threads.threads@.len() == old(self).threads.threads@.len(),
            forall|k: int|
                0 <= k < old(self).threads.threads@.len() ==> same_but_state(
                    old(self).threads.threads@[k],
                    #[trigger] final(self).threads.threads@[k],
                ) && final(self).threads.threads@[k].state == if k == next {
                    old(self).threads.threads@[k].state
                } else {
                    woken_state(old(self).threads.threads@[k].state)
                },
    {
        let n = self.threads.threads.len();
        let mut i: usize = 0;
        while i < n
            invariant
                old(self).wf(),
                n == old(self).threads.threads@.len(),
                i <= n,
                self.same_config(old(self)),
                self.path == old(self).path,
                self.objects == old(self).objects,
                self.threads.active == old(self).threads.active,
                self.threads.execution_id == old(self).threads.execution_id,
                self.threads.max == old(self).threads.max,
                self.threads.seq_cst_causality == old(self).threads.seq_cst_causality,
                self.threads.threads@.len() == n,
                forall|k: int|
                    0 <= k < n ==> same_but_state(old(self).threads.threads@[k], #[trigger] self.threads.threads@[k]),
                forall|k: int|
                    0 <= k < i ==> #[trigger] self.threads.threads@[k].state == if k == next {
                        old(self).threads.threads@[k].state
                    } else {
                        woken_state(old(self).threads.threads@[k].state)
                    },
                forall|k: int| i <= k < n ==> #[trigger] self.threads.threads@[k] == old(self).threads.threads@[k],
            decreases n - i,
        {
            if i != next && self.threads.threads[i].is_yield() {
                let th = self.threads.get_mut(i);
                th.set_runnable();
            }
            i = i + 1;
        }
        proof {
            let ts = self.threads;
            let ots = old(self).threads;
            assert forall|k: int| 0 <= k < ts.threads@.len() implies (#[trigger] ts.threads@[k]).wf(ts.max as nat)
                && ts.threads@[k].id == (thread::Id { execution_id: ts.execution_id, id: k as usize }) by {
                assert(same_but_state(ots.threads@[k], ts.threads@[k]));
                assert(ots.threads@[k].wf(ts.max as nat));
            }
            assert forall|k: int| 0 <= k < ts.threads@.len() implies clock_bound(
                (#[trigger] ts.threads@[k]).dpor_vv@,
                self.path.pos as int,
            ) by {
                assert(same_but_state(ots.threads@[k], ts.threads@[k]));
                assert(clock_bound(ots.threads@[k].dpor_vv@, self.path.pos as int));
            }
            assert forall|k: int| 0 <= k < ts.threads@.len() implies ((#[trigger] ts.threads@[k]).operation matches Some(op) ==> op_ok(self.objects, op)) by {
                assert(same_but_state(ots.threads@[k], ts.threads@[k]));
            }
        }
    }
}

proof fn lemma_clock_bound_mono(c: Seq<usize>, n: int, m: int)
    requires
        clock_bound(c, n),
        n <= m,
    ensures
        clock_bound(c, m),
{
}

proof fn lemma_entry_bound_mono(e: Entry, n: int, m: int)
    requires
        entry_bound(e, n),
        n <= m,
    ensures
        entry_bound(e, m),
{
}

impl Execution {
    /// Raising the bound keeps the DPOR clocks bounded.
    proof fn lemma_bounded_mono(&self, n: int, m: int)
        requires
            self.bounded(n),
            n <= m,
        ensures
            self.bounded(m),
    {
        assert forall|i: int| 0 <= i < self.threads.threads@.len() implies clock_bound(
            (#[trigger] self.threads.threads@[i]).dpor_vv@,
            m,
        ) by {
            lemma_clock_bound_mono(self.threads.threads@[i].dpor_vv@, n, m);
        }
        assert forall|i: int| 0 <= i < self.objects.entries@.len() implies entry_bound(#[trigger] self.objects.entries@[i], m) by {
            lemma_entry_bound_mono(self.objects.entries@[i], n, m);
        }
    }

    /// Records the operation the newly active thread is about to perform:
    /// its DPOR clock acquires that of the dependent access and advances,
    /// and the operation becomes the last access of its object, at the
    /// branch point `path_id`.
    fn record_operation(&mut self, path_id: usize)
        requires
            old(self).inner_wf(),
            old(self).threads.active is Some,
            old(self).path.pos >= 1,
            old(self).bounded(old(self).path.pos - 1),
            path_id + 1 == old(self).path.pos,
            old(self).path.branches@[path_id as int] is Schedule,
        ensures
            final(self).wf(),
            final(self).same_config(old(self)),
            final(self).path == old(self).path,
            final(self).threads.active == old(self).threads.active,
            final(self).threads.execution_id == old(self).threads.execution_id,
            final(self).threads.max == old(self).threads.max,
            final(self).threads.seq_cst_causality == old(self).threads.seq_cst_causality,
            final(self).objects.execution_id == old(self).objects.execution_id,
            final(self).objects.causal_cells == old(self).objects.causal_cells,
            final(self).objects.entries@.len() == old(self).objects.entries@.len(),
            ({
                let a = old(self).threads.active->0 as int;
                let o = old(self).threads.threads@[a];
                let t = final(self).threads.threads@[a];
                &&& others_same(old(self).threads, final(self).threads, a)
                &&& t.id == o.id && t.state == o.state && t.critical == o.critical
                &&& t.operation == o.operation && t.causality == o.causality
                &&& t.notified == o.notified && t.pending == o.pending
                &&& t.last_yield == o.last_yield && t.yield_count == o.yield_count
                &&& match o.operation {
                    None => t.dpor_vv == o.dpor_vv && final(self).objects == old(self).objects,
                    Some(op) => {
                        &&& t.dpor_vv@ == dpor_after(o, old(self).objects, a)
                        &&& crate::rt::object::access_set(
                            old(self).objects.entries@[op.obj.index as int],
                            final(self).objects.entries@[op.obj.index as int],
                            op.action,
                            path_id,
                            t.dpor_vv@,
                        )
                        &&& forall|i: int|
                            0 <= i < old(self).objects.entries@.len() && i != op.obj.index
                                ==> #[trigger] final(self).objects.entries@[i] == old(self).objects.entries@[i]
                    },
                }
            }),
    {
        let a = self.threads.active.unwrap();
        let op = self.threads.threads[a].operation;
        let ghost pos = self.path.pos as int;
        match op {
            None => {
                proof {
                    self.lemma_bounded_mono(pos - 1, pos);
                }
            },
            Some(operation) => {
                let ghost old_self = *self;
                let ghost idx = operation.obj.index as int;
                proof {
                    assert(self.threads.threads@[a as int].wf(self.max_threads as nat));
                    assert(op_ok(self.objects, operation));
                    assert(crate::rt::object::entry_accesses_ok(
                        self.objects.entries@[idx],
                        self.max_threads as nat,
                        self.path.branches@,
                    ));
                    assert(entry_bound(self.objects.entries@[idx], pos - 1));
                    assert(clock_bound(self.threads.threads@[a as int].dpor_vv@, pos - 1));
                }
                let access = self.objects.last_dependent_access(operation);
                let th_id = self.threads.active_id();
                let th = self.threads.get_mut(a);
                match access {
                    Some(acc) => {
                        th.dpor_vv.join(&acc.dpor_vv);
                    },
                    None => {},
                }
                proof {
                    let j = th.dpor_vv@;
                    assert(clock_bound(j, pos - 1)) by {
                        assert forall|k: int| 0 <= k < j.len() implies #[trigger] j[k] <= pos - 1 by {
                            assert(old_self.threads.threads@[a as int].dpor_vv@[k] <= pos - 1);
                        }
                    }
                    assert(j[a as int] < usize::MAX);
                }
                th.dpor_vv.inc(th_id);
                let vv = self.threads.threads[a].dpor_vv.clone();
                self.objects.set_last_access(operation, path_id, &vv);
                proof {
                    let ts = self.threads;
                    let ots = old_self.threads;
                    assert(clock_bound(vv@, pos)) by {
                        assert forall|k: int| 0 <= k < vv@.len() implies #[trigger] vv@[k] <= pos by {}
                    }
                    assert forall|k: int| 0 <= k < ts.threads@.len() implies (#[trigger] ts.threads@[k]).wf(ts.max as nat)
                        && ts.threads@[k].id == (thread::Id { execution_id: ts.execution_id, id: k as usize }) by {
                        assert(ots.threads@[k].wf(ts.max as nat));
                    }
                    assert forall|k: int| 0 <= k < ts.threads@.len() implies clock_bound(
                        (#[trigger] ts.threads@[k]).dpor_vv@,
                        pos,
                    ) by {
                        if k != a {
                            lemma_clock_bound_mono(ots.threads@[k].dpor_vv@, pos - 1, pos);
                        }
                    }
                    let es = self.objects.entries@;
                    let oes = old_self.objects.entries@;
                    assert forall|i: int| 0 <= i < es.len() implies entry_bound(#[trigger] es[i], pos)
                        && crate::rt::object::entry_wf(es[i], self.max_threads as nat)
                        && crate::rt::object::entry_accesses_ok(es[i], self.max_threads as nat, self.path.branches@)
                        && waiters_ok(es[i], self.id, ts.threads@.len() as int)
                        && same_kind(oes[i], es[i]) by {
                        assert(entry_bound(oes[i], pos - 1));
                        lemma_entry_bound_mono(oes[i], pos - 1, pos);
                        assert(crate::rt::object::entry_wf(oes[i], self.max_threads as nat));
                        assert(crate::rt::object::entry_accesses_ok(oes[i], self.max_threads as nat, self.path.branches@));
                        assert(waiters_ok(oes[i], self.id, ts.threads@.len() as int));
                    }
                    assert forall|k: int| 0 <= k < ts.threads@.len() implies ((#[trigger] ts.threads@[k]).operation matches Some(o2) ==> op_ok(self.objects, o2)) by {
                        if let Some(o2) = ts.threads@[k].operation {
                            assert(op_ok(old_self.objects, o2));
                            assert(same_kind(oes[o2.obj.index as int], es[o2.obj.index as int]));
                        }
                    }
                }
            },
        }
    }
}

/// Exploring more threads at a branch point keeps its active thread.
proof fn lemma_explored_first_active(x: Seq<path::Thread>, y: Seq<path::Thread>)
    requires
        only_explored(x, y),
    ensures
        first_index(x, path::Thread::Active) == first_index(y, path::Thread::Active),
{
    path::lemma_first_index(x, path::Thread::Active);
    path::lemma_first_index(y, path::Thread::Active);
    let f = first_index(x, path::Thread::Active);
    assert forall|j: int| 0 <= j < x.len() implies (x[j] == path::Thread::Active <==> y[j] == path::Thread::Active) by {
        assert(y[j] == x[j] || (x[j] == path::Thread::Skip && y[j] == path::Thread::Pending));
    }
    assert(is_first(y, path::Thread::Active, f));
}

/// Exploring more threads does not change whether the preemption count of
/// the last scheduling branch point overflows.
proof fn lemma_prev_overflows_explored(a: Seq<path::Entry>, b: Seq<path::Entry>)
    requires
        all_explored_or_same(a, b),
        a.len() == b.len(),
    ensures
        prev_overflows(a) == prev_overflows(b),
{
    lemma_explored_kinds(a, b);
    assert forall|i: usize| path::is_last_schedule(a, Some(i)) && path::entry_overflows(#[trigger] a[i as int])
        implies path::is_last_schedule(b, Some(i)) && path::entry_overflows(b[i as int]) by {
        assert(explored_or_same(a[i as int], b[i as int]));
        assert forall|j: int| i < j < b.len() implies !(#[trigger] b[j] is Schedule) by {
            assert(!(a[j] is Schedule));
        }
        if a[i as int] != b[i as int] {
            lemma_explored_first_active(threads_of(a[i as int]), threads_of(b[i as int]));
            assert(path::spec_preemptions(a[i as int]->Schedule_0) == path::spec_preemptions(b[i as int]->Schedule_0));
        }
    }
    assert forall|i: usize| path::is_last_schedule(b, Some(i)) && path::entry_overflows(#[trigger] b[i as int])
        implies path::is_last_schedule(a, Some(i)) && path::entry_overflows(a[i as int]) by {
        assert(explored_or_same(a[i as int], b[i as int]));
        if a[i as int] != b[i as int] {
            lemma_explored_first_active(threads_of(a[i as int]), threads_of(b[i as int]));
        }
    }
}

/// The active thread of a new branch point is one of the seeded threads.
proof fn lemma_seed_active_in_range(seed: Seq<path::Thread>, exploring: bool, i: int)
    requires
        seed.len() <= MAX_THREADS,
        is_first(with_active(seeded(seed, exploring)), path::Thread::Active, Some(i)),
    ensures
        i < seed.len(),
{
    let ts = seeded(seed, exploring);
    path::lemma_first_index(ts, path::Thread::Yield);
    if !has_thread(ts, path::Thread::Active) {
        if let Some(j) = first_index(ts, path::Thread::Yield) {
            if i != j {
                assert(ts[i] == path::Thread::Active);
            }
        }
    }
}

/// The threads a scheduling decision leaves unchanged but for waking the
/// yielding ones: all but `a`.
pub open spec fn woken_others(old: ThreadSet, new: ThreadSet, a: int) -> bool {
    &&& new.threads@.len() == old.threads@.len()
    &&& forall|k: int|
        0 <= k < old.threads@.len() && k != a ==> same_but_state(old.threads@[k], #[trigger] new.threads@[k])
            && new.threads@[k].state == woken_state(old.threads@[k].state)
}

/// The thread `a` chosen to run records its operation: its DPOR clock
/// advances (see `dpor_after`) and its operation becomes the last access of
/// its object, at branch point `path_id`.
pub open spec fn operation_recorded(old: Execution, new: Execution, a: int, path_id: int) -> bool {
    let o = old.threads.threads@[a];
    let t = new.threads.threads@[a];
    &&& same_but_state(o, t) || o.operation is Some
    &&& t.state == o.state && t.id == o.id && t.critical == o.critical && t.operation == o.operation
    &&& t.causality == o.causality && t.notified == o.notified && t.pending == o.pending
    &&& t.last_yield == o.last_yield && t.yield_count == o.yield_count
    &&& new.objects.execution_id == old.objects.execution_id
    &&& new.objects.causal_cells == old.objects.causal_cells
    &&& new.objects.entries@.len() == old.objects.entries@.len()
    &&& match o.operation {
        None => t.dpor_vv == o.dpor_vv && new.objects == old.objects,
        Some(op) => {
            &&& t.dpor_vv@ == dpor_after(o, old.objects, a)
            &&& crate::rt::object::access_set(
                old.objects.entries@[op.obj.index as int],
                new.objects.entries@[op.obj.index as int],
                op.action,
                path_id as usize,
                t.dpor_vv@,
            )
            &&& forall|i: int|
                0 <= i < old.objects.entries@.len() && i != op.obj.index ==> #[trigger] new.objects.entries@[i]
                    == old.objects.entries@[i]
        },
    }
}


/// The contract of a scheduling branch point (see `Execution::schedule`),
/// from the execution `old` to `new`, with result `r`.
pub open spec fn scheduled(old: Execution, new: Execution, r: Result<bool, Failure>) -> bool {
    &&& (new.wf())
    &&& (new.same_config(&old))
    &&& (new.threads.threads@.len() == old.threads.threads@.len())
    &&& (all_explored_or_same(old.path.branches@, new.path.branches@))
    &&& (only_races_explored(old, new.path.branches@))
    &&& (forall|t: int|
        0 <= t < old.threads.threads@.len() ==> (race_point(
            old.objects,
            #[trigger] old.threads.threads@[t],
        ) matches Some(p) ==> explored_at(new.path.branches@, p, t, old.path.preemption_bound)))
    &&& (r is Err ==> r == Err::<bool, Failure>(Failure::BranchLimit) || r == Err::<bool, Failure>(
        Failure::PreemptionOverflow,
    ) || r == Err::<bool, Failure>(Failure::Nondeterministic) || r == Err::<bool, Failure>(
        Failure::Deadlock,
    ))
    &&& (r is Err && r != Err::<bool, Failure>(Failure::Deadlock) ==> new.threads == old.threads)
    &&& (old.path.spec_is_traversed() && !old.path.inconsistent ==> {
        &&& (r is Err && r != Err::<bool, Failure>(Failure::Deadlock)) <==> (
        old.path.branches@.len() >= old.path.max_branches || prev_overflows(
            old.path.branches@,
        ))
        &&& (r is Ok || r == Err::<bool, Failure>(Failure::Deadlock)) ==> {
            &&& new.path.pos == old.path.branches@.len() + 1
            &&& new.path.branches@.len() == old.path.branches@.len() + 1
            &&& threads_of(new.path.branches@.last()) == with_active(
                seeded(
                    seed_of(old.threads.threads@, initial_choice(old.threads)),
                    old.path.exploring,
                ),
            )
        }
    })
    &&& (r is Ok || r == Err::<bool, Failure>(Failure::Deadlock) ==> {
        &&& old.path.pos < new.path.pos
        &&& new.path.branches@[new.path.pos - 1] is Schedule
        &&& is_first(
            threads_of(new.path.branches@[new.path.pos - 1]),
            path::Thread::Active,
            opt_int(new.threads.active),
        )
    })
    &&& (r == Err::<bool, Failure>(Failure::Deadlock) ==> new.threads.active is None && !all_terminated(
        new.threads.threads@,
    ) && new.threads.threads == old.threads.threads)
    &&& (r matches Ok(switched) ==> match new.threads.active {
        None => switched && all_terminated(new.threads.threads@) && new.threads.threads
            == old.threads.threads,
        Some(a) => {
            &&& switched == (a != old.threads.active->0)
            &&& woken_others(old.threads, new.threads, a as int)
            &&& operation_recorded(old, new, a as int, new.path.pos - 1)
        },
    })
}

/// A recorded scheduling branch point names, as the thread that ran, one
/// that an execution of `n` threads does not have.
pub open spec fn names_missing_thread(e: path::Entry, n: int) -> bool {
    e matches path::Entry::Schedule(s) && exists|k: int|
        #[trigger] path::is_first(s.threads@, path::Thread::Active, Some(k)) && k >= n
}

/// The scheduling point replays a recorded branch point: the path is not
/// yet traversed, it is consistent, and the operation matches the record.
pub open spec fn replaying(e: Execution, trace: Trace) -> bool {
    !e.path.spec_is_traversed() && !e.path.inconsistent && trace_matches(
        e.path.schedule_trace@[e.path.pos as int],
        trace,
    )
}

/// The outcome of replaying the recorded branch point: it fails as
/// nondeterministic exactly when the record is not a scheduling point or
/// names a thread the execution does not have; otherwise the path moves
/// past it, and the only other failure is a deadlock.
#[verifier::opaque]
pub open spec fn replayed(old: Execution, new: Execution, r: Result<bool, Failure>) -> bool {
    let p = old.path.pos as int;
    &&& !(old.path.branches@[p] is Schedule) ==> r == Err::<bool, Failure>(Failure::Nondeterministic)
    &&& old.path.branches@[p] is Schedule ==> {
        &&& new.path.pos == p + 1
        &&& r == Err::<bool, Failure>(Failure::Nondeterministic) <==> names_missing_thread(
            new.path.branches@[p],
            old.threads.threads@.len() as int,
        )
        &&& r is Err ==> r == Err::<bool, Failure>(Failure::Nondeterministic) || r == Err::<bool, Failure>(
            Failure::Deadlock,
        )
    }
}

impl Execution {
    /// A scheduling branching point, implementing the DPOR algorithm. First
    /// every thread whose next operation races with an earlier dependent
    /// access is marked for exploration at that access's branch point. Then
    /// the path decides the thread to run: when it explores new ground, the
    /// active thread keeps running if it can (avoiding preemption), else the
    /// runnable thread that yielded least; the others are left to explore
    /// later. The chosen thread records its operation and yielding threads
    /// may run again.
    ///
    /// Returns whether the running thread changed; `true` too when every
    /// thread has terminated. When no thread can run before all terminated,
    /// the model deadlocked.
    #[verifier::spinoff_prover]
    #[verifier::rlimit(100)]
    pub fn schedule(&mut self, trace: &Trace) -> (r: Result<bool, Failure>)
        requires
            old(self).running(),
        ensures
            scheduled(*old(self), *final(self), r),
            final(self).path.inconsistent == (old(self).path.inconsistent || (!old(self).path.spec_is_traversed()
                && !trace_matches(old(self).path.schedule_trace@[old(self).path.pos as int], *trace))),
            replaying(*old(self), *trace) ==> replayed(*old(self), *final(self), r),
    {
        let curr_thread = self.threads.active.unwrap();
        let ghost old_self = *self;
        self.dpor_backtrack();
        let initial = self.initial_thread();
        let seed = self.thread_seed(initial);
        let ghost seed_v = seed@;
        let ghost pre_branch = *self;
        proof {
            lemma_prev_overflows_explored(old_self.path.branches@, pre_branch.path.branches@);
            assert forall|i: int, j: int|
                0 <= i < seed@.len() && 0 <= j < seed@.len() && seed@[i] == path::Thread::Active && seed@[j]
                    == path::Thread::Active implies i == j by {}
        }
        let res = self.path.branch_thread(trace, self.id, seed);
        proof {
            if replaying(old_self, *trace) {
                let p = old_self.path.pos as int;
                assert(explored_or_same(old_self.path.branches@[p], pre_branch.path.branches@[p]));
                assert(old_self.path.branches@[p] is Schedule <==> pre_branch.path.branches@[p] is Schedule);
            }
        }
        proof {
            assert(only_races_explored(old_self, self.path.branches@)) by {
                assert forall|k: int|
                    0 <= k < old_self.path.branches@.len() && self.path.branches@[k] != old_self.path.branches@[k] implies exists|
                        t: int,
                    |
                        0 <= t < old_self.threads.threads@.len() && #[trigger] race_target(old_self, t, k) by {
                    assert(self.path.branches@[k] == pre_branch.path.branches@[k]);
                }
            }
        }
        let next = match res {
            Ok(n) => n,
            Err(e) => {
                proof {
                    lemma_explored_kinds(old_self.path.branches@, pre_branch.path.branches@);
                    lemma_store_wf_kinds(self.objects, self.max_threads as nat, pre_branch.path.branches@, self.path.branches@);
                    self.lemma_bounded_mono(pre_branch.path.pos as int, self.path.pos as int);
                    assert(all_explored_or_same(pre_branch.path.branches@, self.path.branches@)) by {
                        assert forall|k: int| 0 <= k < pre_branch.path.branches@.len() implies explored_or_same(
                            #[trigger] pre_branch.path.branches@[k],
                            self.path.branches@[k],
                        ) by {}
                    }
                    lemma_all_explored_trans(old_self.path.branches@, pre_branch.path.branches@, self.path.branches@);
                    assert forall|t: int|
                        0 <= t < old_self.threads.threads@.len() implies (race_point(
                        old_self.objects,
                        #[trigger] old_self.threads.threads@[t],
                    ) matches Some(p) ==> explored_at(self.path.branches@, p, t, old_self.path.preemption_bound)) by {
                        if let Some(p) = race_point(old_self.objects, old_self.threads.threads@[t]) {
                            lemma_explored_at_kept(pre_branch.path.branches@, self.path.branches@, p, t, old_self.path.preemption_bound);
                        }
                    }
                }
                proof {
                    assert(replaying(old_self, *trace) ==> replayed(old_self, *self, Err::<bool, Failure>(e))) by {
                        reveal(replayed);
                    }
                }
                return Err(e);
            },
        };
        let ghost after_branch = *self;
        proof {
            if replaying(old_self, *trace) {
                let p = old_self.path.pos as int;
                if old_self.path.branches@[p] is Schedule {
                    assert(self.path.pos == p + 1);
                    assert(self.path.branches@[p] matches path::Entry::Schedule(s) && path::is_first(
                        s.threads@,
                        path::Thread::Active,
                        path::opt_thread_index(next),
                    ));
                }
            }
        }
        let path_id = self.path.pos - 1;
        proof {
            lemma_explored_kinds(pre_branch.path.branches@, self.path.branches@);
            lemma_store_wf_kinds(self.objects, self.max_threads as nat, pre_branch.path.branches@, self.path.branches@);
            assert(all_explored_or_same(pre_branch.path.branches@, self.path.branches@)) by {
                assert forall|k: int| 0 <= k < pre_branch.path.branches@.len() implies explored_or_same(
                    #[trigger] pre_branch.path.branches@[k],
                    self.path.branches@[k],
                ) by {}
            }
            lemma_all_explored_trans(old_self.path.branches@, pre_branch.path.branches@, self.path.branches@);
            assert forall|t: int|
                0 <= t < old_self.threads.threads@.len() implies (race_point(
                old_self.objects,
                #[trigger] old_self.threads.threads@[t],
            ) matches Some(p) ==> explored_at(self.path.branches@, p, t, old_self.path.preemption_bound)) by {
                if let Some(p) = race_point(old_self.objects, old_self.threads.threads@[t]) {
                    lemma_explored_at_kept(pre_branch.path.branches@, self.path.branches@, p, t, old_self.path.preemption_bound);
                }
            }
            if pre_branch.path.spec_is_traversed() && !pre_branch.path.inconsistent {
                if let Some(id) = next {
                    lemma_seed_active_in_range(seed_v, pre_branch.path.exploring, id.id as int);
                }
            }
        }
        let next_index = match next {
            Some(id) => {
                if id.id >= self.threads.threads.len() {
                    // The recorded path names a thread this execution does
                    // not have.
                    proof {
                        self.lemma_bounded_mono(pre_branch.path.pos as int, self.path.pos as int);
                        assert(replaying(old_self, *trace) ==> replayed(
                            old_self,
                            *self,
                            Err::<bool, Failure>(Failure::Nondeterministic),
                        )) by {
                            reveal(replayed);
                            if replaying(old_self, *trace) {
                                let p = old_self.path.pos as int;
                                if old_self.path.branches@[p] is Schedule {
                                    let s = self.path.branches@[p]->Schedule_0;
                                    assert(path::is_first(s.threads@, path::Thread::Active, Some(id.id as int)));
                                }
                            }
                        }
                    }
                    return Err(Failure::Nondeterministic);
                }
                Some(id.id)
            },
            None => None,
        };
        self.threads.active = next_index;
        if next_index.is_none() {
            proof {
                self.lemma_bounded_mono(pre_branch.path.pos as int, self.path.pos as int);
            }
            // There is no active thread. Unless all threads have terminated,
            // the test has deadlocked.
            proof {
                assert(forall|r: Result<bool, Failure>|
                    r != Err::<bool, Failure>(Failure::Nondeterministic) && (r is Err ==> r == Err::<bool, Failure>(Failure::Deadlock))
                    ==> (replaying(old_self, *trace) ==> #[trigger] replayed(old_self, *self, r))) by {
                    reveal(replayed);
                    if replaying(old_self, *trace) {
                        let p = old_self.path.pos as int;
                        if old_self.path.branches@[p] is Schedule {
                            let s = self.path.branches@[p]->Schedule_0;
                            assert(path::is_first(s.threads@, path::Thread::Active, None));
                            assert(!names_missing_thread(self.path.branches@[p], old_self.threads.threads@.len() as int));
                        }
                    }
                }
            }
            if self.all_terminated() {
                return Ok(true);
            }
            return Err(Failure::Deadlock);
        }
        let a = next_index.unwrap();
        proof {
            assert(self.bounded(pre_branch.path.pos as int));
            assert(pre_branch.path.pos as int <= self.path.pos - 1);
            self.lemma_bounded_mono(pre_branch.path.pos as int, self.path.pos - 1);
        }
        self.record_operation(path_id);
        let ghost recorded = *self;
        // Reactivate yielded threads, but only if the current active thread
        // is not yielded.
        self.wake_yielded(a);
        proof {
            let o = old_self.threads.threads@[a as int];
            let t = self.threads.threads@[a as int];
            assert(recorded.threads.threads@[a as int] == t || same_but_state(recorded.threads.threads@[a as int], t));
            assert forall|k: int|
                0 <= k < old_self.threads.threads@.len() && k != a implies same_but_state(
                old_self.threads.threads@[k],
                #[trigger] self.threads.threads@[k],
            ) && self.threads.threads@[k].state == woken_state(old_self.threads.threads@[k].state) by {
                assert(recorded.threads.threads@[k] == old_self.threads.threads@[k]);
                assert(same_but_state(recorded.threads.threads@[k], self.threads.threads@[k]));
            }
            assert(same_but_state(recorded.threads.threads@[a as int], t));
        }
        proof {
            assert(self.path == after_branch.path);
            assert(replaying(old_self, *trace) ==> replayed(old_self, *self, Ok::<bool, Failure>(curr_thread != a))) by {
                reveal(replayed);
                if replaying(old_self, *trace) {
                    let p = old_self.path.pos as int;
                    if old_self.path.branches@[p] is Schedule {
                        let s = self.path.branches@[p]->Schedule_0;
                        assert(path::is_first(s.threads@, path::Thread::Active, Some(a as int)));
                        assert forall|k: int| #[trigger] path::is_first(s.threads@, path::Thread::Active, Some(k)) implies k
                            == a by {
                            if k < a {
                                assert(s.threads@[k] == path::Thread::Active);
                            }
                            if k > a {
                                assert(s.threads@[a as int] == path::Thread::Active);
                            }
                        }
                    }
                }
            }
        }
        Ok(curr_thread != a)
    }
}

// ===== changes to the active thread =====

/// Changing one thread keeps the execution well formed, as long as the
/// thread stays well formed, keeps a bounded DPOR clock, and its operation,
/// if any, names an object it can branch on.
pub proof fn lemma_thread_update(old: Execution, new: Execution, a: int)
    requires
        old.wf(),
        0 <= a < old.threads.threads@.len(),
        others_same(old.threads, new.threads, a),
        new.threads.execution_id == old.threads.execution_id,
        new.threads.max == old.threads.max,
        new.threads.active == old.threads.active,
        new.threads.seq_cst_causality@.len() == old.threads.max,
        new.threads.threads@[a].wf(old.threads.max as nat),
        new.threads.threads@[a].id == old.threads.threads@[a].id,
        clock_bound(new.threads.threads@[a].dpor_vv@, new.path.pos as int),
        new.threads.threads@[a].operation matches Some(op) ==> op_ok(new.objects, op),
        new.id == old.id,
        new.path == old.path,
        new.objects == old.objects,
        new.max_threads == old.max_threads,
    ensures
        new.wf(),
{
    assert forall|i: int| 0 <= i < new.threads.threads@.len() implies (#[trigger] new.threads.threads@[i]).wf(new.threads.max as nat)
        && new.threads.threads@[i].id == (thread::Id { execution_id: new.threads.execution_id, id: i as usize }) by {
        assert(old.threads.threads@[i].wf(old.threads.max as nat));
    }
    assert forall|i: int| 0 <= i < new.threads.threads@.len() implies clock_bound(
        (#[trigger] new.threads.threads@[i]).dpor_vv@,
        new.path.pos as int,
    ) by {
        assert(clock_bound(old.threads.threads@[i].dpor_vv@, old.path.pos as int));
    }
    assert forall|i: int| 0 <= i < new.threads.threads@.len() implies ((#[trigger] new.threads.threads@[i]).operation matches Some(op) ==> op_ok(new.objects, op)) by {
        assert(old.threads.threads@[i].operation matches Some(op) ==> op_ok(old.objects, op));
    }
}

/// `new` is `old` with the active thread's state and next operation set.
pub open spec fn active_set(old: Execution, new: Execution, st: thread::State, op: Option<Operation>) -> bool {
    let a = old.threads.active->0 as int;
    let o = old.threads.threads@[a];
    let t = new.threads.threads@[a];
    &&& new.id == old.id
    &&& new.path == old.path
    &&& new.objects == old.objects
    &&& new.max_threads == old.max_threads
    &&& new.max_history == old.max_history
    &&& new.log == old.log
    &&& new.threads.execution_id == old.threads.execution_id
    &&& new.threads.max == old.threads.max
    &&& new.threads.active == old.threads.active
    &&& new.threads.seq_cst_causality == old.threads.seq_cst_causality
    &&& others_same(old.threads, new.threads, a)
    &&& t.state == st && t.operation == op
    &&& t.id == o.id && t.critical == o.critical && t.causality == o.causality && t.dpor_vv == o.dpor_vv
    &&& t.notified == o.notified && t.pending == o.pending
}

/// `new` is `old` after the active thread yielded: it records the time of
/// its last yield, counts the yield, and has no operation.
pub open spec fn yield_set(old: Execution, new: Execution) -> bool {
    &&& active_set(old, new, thread::State::Yield, None)
    &&& new.threads.active_thread().last_yield == Some(
        active_causality(old.threads)[old.threads.active->0 as int],
    )
    &&& new.threads.active_thread().yield_count == old.threads.active_thread().yield_count + 1
}

/// `active_set`, with the active thread's yield record kept.
pub open spec fn active_set_keep(old: Execution, new: Execution, st: thread::State, op: Option<Operation>) -> bool {
    &&& active_set(old, new, st, op)
    &&& new.threads.active_thread().last_yield == old.threads.active_thread().last_yield
    &&& new.threads.active_thread().yield_count == old.threads.active_thread().yield_count
}

impl Execution {
    /// Sets the active thread's state and the operation it is about to
    /// perform; its yield record is kept.
    pub fn set_active(&mut self, st: thread::State, op: Option<Operation>)
        requires
            old(self).running(),
            op matches Some(o) ==> op_ok(old(self).objects, o),
        ensures
            final(self).running(),
            active_set_keep(*old(self), *final(self), st, op),
    {
        let a = self.threads.active.unwrap();
        let ghost old_self = *self;
        let th = self.threads.get_mut(a);
        th.state = st;
        th.operation = op;
        proof {
            assert(old_self.threads.threads@[a as int].wf(self.max_threads as nat));
            assert(clock_bound(old_self.threads.threads@[a as int].dpor_vv@, self.path.pos as int));
            lemma_thread_update(old_self, *self, a as int);
        }
    }

    /// The active thread yields: it records the time of its last yield,
    /// counts the yield, and has no operation.
    pub fn yield_active(&mut self)
        requires
            old(self).running(),
            old(self).threads.active_thread().yield_count < usize::MAX,
        ensures
            final(self).running(),
            yield_set(*old(self), *final(self)),
    {
        let a = self.threads.active.unwrap();
        let ghost old_self = *self;
        proof {
            assert(old_self.threads.threads@[a as int].wf(self.max_threads as nat));
        }
        let th = self.threads.get_mut(a);
        th.set_yield();
        th.operation = None;
        proof {
            assert(clock_bound(old_self.threads.threads@[a as int].dpor_vv@, self.path.pos as int));
            lemma_thread_update(old_self, *self, a as int);
        }
    }

    /// Advances the active thread's own clock entry: a synchronization point.
    pub fn synchronize(&mut self)
        requires
            old(self).running(),
            active_causality(old(self).threads)[old(self).threads.active->0 as int] < usize::MAX,
        ensures
            final(self).running(),
            final(self).same_config(old(self)),
            final(self).path == old(self).path,
            final(self).objects == old(self).objects,
            ({
                let a = old(self).threads.active->0 as int;
                let c = active_causality(old(self).threads);
                thread::with_active_causality(
                    old(self).threads,
                    final(self).threads,
                    c.update(a, (c[a] + 1) as usize),
                    old(self).threads.seq_cst_causality@,
                )
            }),
    {
        let ghost old_self = *self;
        let a = self.threads.active.unwrap();
        proof {
            assert(old_self.threads.threads@[a as int].wf(self.max_threads as nat));
        }
        self.threads.active_causality_inc();
        proof {
            assert(clock_bound(old_self.threads.threads@[a as int].dpor_vv@, self.path.pos as int));
            lemma_thread_update(old_self, *self, a as int);
        }
    }
}

// ===== changes to objects and threads =====

/// Changes that keep the threads' DPOR data and the objects' kinds and
/// recorded accesses keep the execution well formed.
pub proof fn lemma_wf_update(old: Execution, new: Execution)
    requires
        old.wf(),
        new.threads.wf(),
        new.id == old.id,
        new.path == old.path,
        new.max_threads == old.max_threads,
        new.threads.execution_id == old.threads.execution_id,
        new.threads.max == old.threads.max,
        new.threads.threads@.len() == old.threads.threads@.len(),
        forall|i: int|
            0 <= i < old.threads.threads@.len() ==> (#[trigger] new.threads.threads@[i]).dpor_vv
                == old.threads.threads@[i].dpor_vv && new.threads.threads@[i].operation
                == old.threads.threads@[i].operation,
        new.objects.execution_id == old.objects.execution_id,
        crate::rt::causal::cells_wf(crate::rt::causal::cells_view(new.objects.causal_cells@), new.max_threads as nat),
        kinds_kept(old.objects.entries@, new.objects.entries@),
        forall|i: int|
            0 <= i < new.objects.entries@.len() ==> {
                &&& crate::rt::object::entry_wf(#[trigger] new.objects.entries@[i], new.max_threads as nat)
                &&& crate::rt::object::entry_accesses_ok(new.objects.entries@[i], new.max_threads as nat, new.path.branches@)
                &&& entry_bound(new.objects.entries@[i], new.path.pos as int)
                &&& waiters_ok(new.objects.entries@[i], new.id, new.threads.threads@.len() as int)
            },
    ensures
        new.wf(),
{
    assert forall|i: int| 0 <= i < new.threads.threads@.len() implies clock_bound(
        (#[trigger] new.threads.threads@[i]).dpor_vv@,
        new.path.pos as int,
    ) by {
        assert(clock_bound(old.threads.threads@[i].dpor_vv@, old.path.pos as int));
    }
    assert forall|i: int| 0 <= i < new.threads.threads@.len() implies ((#[trigger] new.threads.threads@[i]).operation matches Some(op) ==> op_ok(new.objects, op)) by {
        if let Some(op) = new.threads.threads@[i].operation {
            assert(old.threads.threads@[i].operation == Some(op));
            assert(op_ok(old.objects, op));
            assert(same_kind(old.objects.entries@[op.obj.index as int], new.objects.entries@[op.obj.index as int]));
        }
    }
}

/// The thread is about to operate on `obj`, with `action` if one is given.
pub open spec fn waiting_on(t: thread::Thread, obj: crate::rt::object::Object, action: Option<crate::rt::object::Action>) -> bool {
    t.operation matches Some(op) && op.obj == obj && (action matches Some(a) ==> op.action == a)
}

impl Execution {
    /// Every thread but the active one that is about to operate on `obj`
    /// (with `action`, if given) gets the state `st`.
    pub fn set_waiting_state(&mut self, obj: crate::rt::object::Object, action: Option<crate::rt::object::Action>, st: thread::State)
        requires
            old(self).running(),
        ensures
            final(self).running(),
            final(self).same_config(old(self)),
            final(self).path == old(self).path,
            final(self).objects == old(self).objects,
            final(self).threads.active == old(self).threads.active,
            final(self).threads.execution_id == old(self).threads.execution_id,
            final(self).threads.max == old(self).threads.max,
            final(self).threads.seq_cst_causality == old(self).threads.seq_cst_causality,
            final(self).threads.threads@.len() == old(self).threads.threads@.len(),
            forall|k: int|
                0 <= k < old(self).threads.threads@.len() ==> same_but_state(
                    old(self).threads.threads@[k],
                    #[trigger] final(self).threads.threads@[k],
                ) && final(self).threads.threads@[k].state == if k != old(self).threads.active->0 && waiting_on(
                    old(self).threads.threads@[k],
                    obj,
                    action,
                ) {
                    st
                } else {
                    old(self).threads.threads@[k].state
                },
    {
        let a = self.threads.active.unwrap();
        let n = self.threads.threads.len();
        let mut i: usize = 0;
        while i < n
            invariant
                old(self).running(),
                a == old(self).threads.active->0,
                n == old(self).threads.threads@.len(),
                i <= n,
                self.same_config(old(self)),
                self.path == old(self).path,
                self.objects == old(self).objects,
                self.threads.active == old(self).threads.active,
                self.threads.execution_id == old(self).threads.execution_id,
                self.threads.max == old(self).threads.max,
                self.threads.seq_cst_causality == old(self).threads.seq_cst_causality,
                self.threads.threads@.len() == n,
                forall|k: int|
                    0 <= k < n ==> same_but_state(old(self).threads.threads@[k], #[trigger] self.threads.threads@[k]),
                forall|k: int|
                    0 <= k < i ==> #[trigger] self.threads.threads@[k].state == if k != a && waiting_on(
                        old(self).threads.threads@[k],
                        obj,
                        action,
                    ) {
                        st
                    } else {
                        old(self).threads.threads@[k].state
                    },
                forall|k: int| i <= k < n ==> #[trigger] self.threads.threads@[k] == old(self).threads.threads@[k],
            decreases n - i,
        {
            if i != a {
                let matches = match self.threads.threads[i].operation {
                    Some(op) => op.obj == obj && match action {
                        Some(act) => op.action == act,
                        None => true,
                    },
                    None => false,
                };
                if matches {
                    let th = self.threads.get_mut(i);
                    th.state = st;
                }
            }
            i = i + 1;
        }
        proof {
            let ts = self.threads;
            let ots = old(self).threads;
            assert forall|k: int| 0 <= k < ts.threads@.len() implies (#[trigger] ts.threads@[k]).wf(ts.max as nat)
                && ts.threads@[k].id == (thread::Id { execution_id: ts.execution_id, id: k as usize }) by {
                assert(same_but_state(ots.threads@[k], ts.threads@[k]));
                assert(ots.threads@[k].wf(ts.max as nat));
            }
            assert forall|k: int| 0 <= k < ts.threads@.len() implies clock_bound(
                (#[trigger] ts.threads@[k]).dpor_vv@,
                self.path.pos as int,
            ) by {
                assert(same_but_state(ots.threads@[k], ts.threads@[k]));
                assert(clock_bound(ots.threads@[k].dpor_vv@, self.path.pos as int));
            }
            assert forall|k: int| 0 <= k < ts.threads@.len() implies ((#[trigger] ts.threads@[k]).operation matches Some(op) ==> op_ok(self.objects, op)) by {
                assert(same_but_state(ots.threads@[k], ts.threads@[k]));
            }
        }
    }
}

/// The entry keeps its recorded accesses: it fits the same threads and
/// branch points, with the same bound on its clocks.
pub open spec fn entry_fits(e: Entry, ex: Execution) -> bool {
    &&& crate::rt::object::entry_wf(e, ex.max_threads as nat)
    &&& crate::rt::object::entry_accesses_ok(e, ex.max_threads as nat, ex.path.branches@)
    &&& entry_bound(e, ex.path.pos as int)
    &&& waiters_ok(e, ex.id, ex.threads.threads@.len() as int)
}

/// Changing one object within its kind, and the threads' clocks and states,
/// keeps the execution running and well formed.
pub proof fn lemma_entry_update(old: Execution, new: Execution, idx: int)
    requires
        old.running(),
        0 <= idx < old.objects.entries@.len(),
        new.threads.wf(),
        new.id == old.id,
        new.path == old.path,
        new.max_threads == old.max_threads,
        new.threads.execution_id == old.threads.execution_id,
        new.threads.max == old.threads.max,
        new.threads.active == old.threads.active,
        new.threads.threads@.len() == old.threads.threads@.len(),
        forall|i: int|
            0 <= i < old.threads.threads@.len() ==> (#[trigger] new.threads.threads@[i]).dpor_vv
                == old.threads.threads@[i].dpor_vv && new.threads.threads@[i].operation
                == old.threads.threads@[i].operation,
        new.objects.execution_id == old.objects.execution_id,
        new.objects.causal_cells == old.objects.causal_cells,
        new.objects.entries@.len() == old.objects.entries@.len(),
        forall|i: int| 0 <= i < old.objects.entries@.len() && i != idx ==> #[trigger] new.objects.entries@[i] == old.objects.entries@[i],
        same_kind(old.objects.entries@[idx], new.objects.entries@[idx]),
        entry_fits(new.objects.entries@[idx], new),
    ensures
        new.running(),
{
    assert forall|i: int| 0 <= i < old.objects.entries@.len() implies same_kind(#[trigger] old.objects.entries@[i], new.objects.entries@[i]) by {}
    assert forall|i: int| 0 <= i < new.objects.entries@.len() implies {
        &&& crate::rt::object::entry_wf(#[trigger] new.objects.entries@[i], new.max_threads as nat)
        &&& crate::rt::object::entry_accesses_ok(new.objects.entries@[i], new.max_threads as nat, new.path.branches@)
        &&& entry_bound(new.objects.entries@[i], new.path.pos as int)
        &&& waiters_ok(new.objects.entries@[i], new.id, new.threads.threads@.len() as int)
    } by {
        if i != idx {
            assert(crate::rt::object::entry_wf(old.objects.entries@[i], old.max_threads as nat));
            assert(crate::rt::object::entry_accesses_ok(old.objects.entries@[i], old.max_threads as nat, old.path.branches@));
            assert(entry_bound(old.objects.entries@[i], old.path.pos as int));
            assert(waiters_ok(old.objects.entries@[i], old.id, old.threads.threads@.len() as int));
        }
    }
    lemma_wf_update(old, new);
}

/// Changing only the threads' causality clocks keeps the execution running.
pub proof fn lemma_causality_update(old: Execution, new: Execution)
    requires
        old.running(),
        new.threads.wf(),
        new.id == old.id,
        new.path == old.path,
        new.max_threads == old.max_threads,
        new.objects == old.objects,
        new.threads.execution_id == old.threads.execution_id,
        new.threads.max == old.threads.max,
        new.threads.active == old.threads.active,
        new.threads.threads@.len() == old.threads.threads@.len(),
        forall|i: int|
            0 <= i < old.threads.threads@.len() ==> (#[trigger] new.threads.threads@[i]).dpor_vv
                == old.threads.threads@[i].dpor_vv && new.threads.threads@[i].operation
                == old.threads.threads@[i].operation,
    ensures
        new.running(),
{
    assert forall|i: int| 0 <= i < old.objects.entries@.len() implies same_kind(#[trigger] old.objects.entries@[i], new.objects.entries@[i]) by {}
    assert forall|i: int| 0 <= i < new.objects.entries@.len() implies {
        &&& crate::rt::object::entry_wf(#[trigger] new.objects.entries@[i], new.max_threads as nat)
        &&& crate::rt::object::entry_accesses_ok(new.objects.entries@[i], new.max_threads as nat, new.path.branches@)
        &&& entry_bound(new.objects.entries@[i], new.path.pos as int)
        &&& waiters_ok(new.objects.entries@[i], new.id, new.threads.threads@.len() as int)
    } by {
        assert(crate::rt::object::entry_wf(old.objects.entries@[i], old.max_threads as nat));
        assert(crate::rt::object::entry_accesses_ok(old.objects.entries@[i], old.max_threads as nat, old.path.branches@));
        assert(entry_bound(old.objects.entries@[i], old.path.pos as int));
        assert(waiters_ok(old.objects.entries@[i], old.id, old.threads.threads@.len() as int));
    }
    lemma_wf_update(old, new);
}

/// Adding an object that fits keeps the execution well formed.
pub proof fn lemma_entry_insert(old: Execution, new: Execution)
    requires
        old.wf(),
        new.id == old.id,
        new.path == old.path,
        new.max_threads == old.max_threads,
        new.threads == old.threads,
        new.objects.execution_id == old.objects.execution_id,
        new.objects.causal_cells == old.objects.causal_cells,
        new.objects.entries@.len() == old.objects.entries@.len() + 1,
        forall|i: int| 0 <= i < old.objects.entries@.len() ==> #[trigger] new.objects.entries@[i] == old.objects.entries@[i],
        entry_fits(new.objects.entries@.last(), new),
    ensures
        new.wf(),
{
    assert forall|i: int| 0 <= i < old.objects.entries@.len() implies same_kind(#[trigger] old.objects.entries@[i], new.objects.entries@[i]) by {}
    assert forall|i: int| 0 <= i < new.objects.entries@.len() implies {
        &&& crate::rt::object::entry_wf(#[trigger] new.objects.entries@[i], new.max_threads as nat)
        &&& crate::rt::object::entry_accesses_ok(new.objects.entries@[i], new.max_threads as nat, new.path.branches@)
        &&& entry_bound(new.objects.entries@[i], new.path.pos as int)
        &&& waiters_ok(new.objects.entries@[i], new.id, new.threads.threads@.len() as int)
    } by {
        if i < old.objects.entries@.len() {
            assert(crate::rt::object::entry_wf(old.objects.entries@[i], old.max_threads as nat));
            assert(crate::rt::object::entry_accesses_ok(old.objects.entries@[i], old.max_threads as nat, old.path.branches@));
            assert(entry_bound(old.objects.entries@[i], old.path.pos as int));
            assert(waiters_ok(old.objects.entries@[i], old.id, old.threads.threads@.len() as int));
        }
    }
    lemma_wf_update(old, new);
}

/// The state of a thread that is unparked: a blocked or yielding thread may
/// run; a running one keeps the unpark for its next park.
pub open spec fn unpark_state(s: thread::State) -> thread::State {
    match s {
        thread::State::Blocked => thread::State::Runnable { unparked: false },
        thread::State::Yield => thread::State::Runnable { unparked: false },
        thread::State::Runnable { .. } => thread::State::Runnable { unparked: true },
        thread::State::Terminated => thread::State::Terminated,
    }
}

impl Execution {
    /// Decides whether the current wait wakes up spuriously (a branching
    /// point of the path).
    pub fn branch_spurious(&mut self, trace: &Trace) -> (r: Result<bool, Failure>)
        requires
            old(self).running(),
        ensures
            final(self).running(),
            final(self).id == old(self).id,
            final(self).max_threads == old(self).max_threads,
            final(self).max_history == old(self).max_history,
            final(self).log == old(self).log,
            final(self).threads == old(self).threads,
            final(self).objects == old(self).objects,
            path::spurious_decided(old(self).path, final(self).path, r),
    {
        let ghost old_e = *self;
        let r = self.path.branch_spurious(trace);
        proof {
            lemma_store_wf_kinds(self.objects, self.max_threads as nat, old_e.path.branches@, self.path.branches@);
            old_e.lemma_bounded_mono(old_e.path.pos as int, self.path.pos as int);
        }
        r
    }

    /// Every thread but the active one that is about to operate on `obj` is
    /// unparked by the active thread: it acquires the active thread's
    /// causality and may run (or keeps the unpark, if it is running).
    pub fn unpark_waiting(&mut self, obj: crate::rt::object::Object)
        requires
            old(self).running(),
        ensures
            final(self).running(),
            final(self).same_config(old(self)),
            final(self).path == old(self).path,
            final(self).objects == old(self).objects,
            final(self).threads.active == old(self).threads.active,
            final(self).threads.execution_id == old(self).threads.execution_id,
            final(self).threads.max == old(self).threads.max,
            final(self).threads.seq_cst_causality == old(self).threads.seq_cst_causality,
            final(self).threads.threads@.len() == old(self).threads.threads@.len(),
            forall|k: int|
                0 <= k < old(self).threads.threads@.len() ==> {
                    let o = #[trigger] old(self).threads.threads@[k];
                    let t = final(self).threads.threads@[k];
                    if k != old(self).threads.active->0 && waiting_on(o, obj, None) {
                        &&& t.causality@ == vv_join(o.causality@, active_causality(old(self).threads))
                        &&& t.state == unpark_state(o.state)
                        &&& t.id == o.id && t.critical == o.critical && t.operation == o.operation
                        &&& t.dpor_vv == o.dpor_vv && t.notified == o.notified && t.pending == o.pending
                        &&& t.last_yield == o.last_yield && t.yield_count == o.yield_count
                    } else {
                        t == o
                    }
                },
    {
        let a = self.threads.active.unwrap();
        proof {
            assert(self.threads.threads@[a as int].wf(self.max_threads as nat));
        }
        let ac = self.threads.threads[a].causality.clone();
        let n = self.threads.threads.len();
        let mut i: usize = 0;
        while i < n
            invariant
                old(self).running(),
                a == old(self).threads.active->0,
                ac@ == active_causality(old(self).threads),
                ac@.len() == old(self).max_threads,
                n == old(self).threads.threads@.len(),
                i <= n,
                self.same_config(old(self)),
                self.path == old(self).path,
                self.objects == old(self).objects,
                self.threads.active == old(self).threads.active,
                self.threads.execution_id == old(self).threads.execution_id,
                self.threads.max == old(self).threads.max,
                self.threads.seq_cst_causality == old(self).threads.seq_cst_causality,
                self.threads.threads@.len() == n,
                forall|k: int|
                    0 <= k < i ==> {
                        let o = #[trigger] old(self).threads.threads@[k];
                        let t = self.threads.threads@[k];
                        if k != a && waiting_on(o, obj, None) {
                            &&& t.causality@ == vv_join(o.causality@, ac@)
                            &&& t.state == unpark_state(o.state)
                            &&& t.id == o.id && t.critical == o.critical && t.operation == o.operation
                            &&& t.dpor_vv == o.dpor_vv && t.notified == o.notified && t.pending == o.pending
                            &&& t.last_yield == o.last_yield && t.yield_count == o.yield_count
                        } else {
                            t == o
                        }
                    },
                forall|k: int| i <= k < n ==> #[trigger] self.threads.threads@[k] == old(self).threads.threads@[k],
            decreases n - i,
        {
            if i != a {
                let matches = match self.threads.threads[i].operation {
                    Some(op) => op.obj == obj,
                    None => false,
                };
                if matches {
                    proof {
                        assert(old(self).threads.threads@[i as int].wf(self.max_threads as nat));
                    }
                    let th = self.threads.get_mut(i);
                    th.causality.join(&ac);
                    th.state = match th.state {
                        thread::State::Blocked => thread::State::Runnable { unparked: false },
                        thread::State::Yield => thread::State::Runnable { unparked: false },
                        thread::State::Runnable { .. } => thread::State::Runnable { unparked: true },
                        thread::State::Terminated => thread::State::Terminated,
                    };
                }
            }
            i = i + 1;
        }
        proof {
            let ts = self.threads;
            let ots = old(self).threads;
            assert forall|k: int| 0 <= k < ts.threads@.len() implies (#[trigger] ts.threads@[k]).wf(ts.max as nat)
                && ts.threads@[k].id == (thread::Id { execution_id: ts.execution_id, id: k as usize })
                && ts.threads@[k].dpor_vv == ots.threads@[k].dpor_vv
                && ts.threads@[k].operation == ots.threads@[k].operation by {
                assert(ots.threads@[k].wf(ts.max as nat));
            }
            assert forall|k: int| 0 <= k < ts.threads@.len() implies clock_bound(
                (#[trigger] ts.threads@[k]).dpor_vv@,
                self.path.pos as int,
            ) by {
                assert(clock_bound(ots.threads@[k].dpor_vv@, self.path.pos as int));
            }
            assert forall|k: int| 0 <= k < ts.threads@.len() implies ((#[trigger] ts.threads@[k]).operation matches Some(op) ==> op_ok(self.objects, op)) by {
                assert(ots.threads@[k].operation matches Some(op) ==> op_ok(self.objects, op));
            }
        }
    }
}

impl Execution {
    /// Pushes a new atomic-load branch point whose alternatives are `seed`.
    pub fn push_load(&mut self, trace: &Trace, seed: &[u8]) -> (r: Result<(), Failure>)
        requires
            old(self).running(),
            seed@.len() <= crate::MAX_ATOMIC_HISTORY,
            forall|i: int| 0 <= i < seed@.len() ==> seed@[i] < crate::MAX_ATOMIC_HISTORY,
        ensures
            final(self).running(),
            final(self).id == old(self).id,
            final(self).max_threads == old(self).max_threads,
            final(self).max_history == old(self).max_history,
            final(self).log == old(self).log,
            final(self).threads == old(self).threads,
            final(self).objects == old(self).objects,
            final(self).path.same_config(&old(self).path),
            final(self).path.pos == old(self).path.pos,
            final(self).path.inconsistent == old(self).path.inconsistent,
            r is Err <==> old(self).path.branches@.len() >= old(self).path.max_branches,
            r is Err ==> r == Err::<(), Failure>(Failure::BranchLimit) && final(self).path.branches == old(self).path.branches,
            r is Ok ==> {
                &&& final(self).path.branches@.len() == old(self).path.branches@.len() + 1
                &&& forall|k: int|
                    0 <= k < old(self).path.branches@.len() ==> final(self).path.branches@[k] == old(self).path.branches@[k]
                &&& final(self).path.branches@.last() matches path::Entry::Load(l) && l.pos == 0 && l.len == seed@.len()
                    && forall|i: int|
                    0 <= i < crate::MAX_ATOMIC_HISTORY ==> l.values@[i] == if i < seed@.len() {
                        seed@[i]
                    } else {
                        0u8
                    }
            },
    {
        let ghost old_e = *self;
        let r = self.path.push_load(trace, seed);
        proof {
            assert(kinds_preserved(old_e.path.branches@, self.path.branches@));
            lemma_store_wf_kinds(self.objects, self.max_threads as nat, old_e.path.branches@, self.path.branches@);
        }
        r
    }

    /// How many stores back the current atomic load reads, as recorded by
    /// the path.
    pub fn branch_load(&mut self, trace: &Trace) -> (r: Result<usize, Failure>)
        requires
            old(self).running(),
            !old(self).path.spec_is_traversed(),
        ensures
            final(self).running(),
            final(self).id == old(self).id,
            final(self).max_threads == old(self).max_threads,
            final(self).max_history == old(self).max_history,
            final(self).log == old(self).log,
            final(self).threads == old(self).threads,
            final(self).objects == old(self).objects,
            final(self).path.same_config(&old(self).path),
            final(self).path.branches == old(self).path.branches,
            r is Err <==> !(old(self).path.branches@[old(self).path.pos as int] is Load),
            r is Err ==> r == Err::<usize, Failure>(Failure::Nondeterministic),
            r matches Ok(v) ==> {
                &&& final(self).path.pos == old(self).path.pos + 1
                &&& old(self).path.branches@[old(self).path.pos as int] matches path::Entry::Load(l) && v
                    == l.values@[l.pos as int]
            },
    {
        let ghost old_e = *self;
        let r = self.path.branch_load(trace);
        proof {
            old_e.lemma_bounded_mono(old_e.path.pos as int, self.path.pos as int);
        }
        r
    }
}

/// A terminated thread does not run again: when a scheduling point opens a
/// new branch point and succeeds, the thread it picks to run was not
/// terminated (terminated threads are disabled in the branch point).
pub proof fn lemma_terminated_thread_not_scheduled(old: Execution, new: Execution, r: Result<bool, Failure>)
    requires
        old.running(),
        old.path.spec_is_traversed(),
        !old.path.inconsistent,
        scheduled(old, new, r),
        r is Ok,
    ensures
        new.threads.active matches Some(a) ==> old.threads.threads@[a as int].state != thread::State::Terminated,
        new.threads.active matches Some(a) ==> forall|k: int|
            0 <= k < old.threads.threads@.len() && k != a && #[trigger] old.threads.threads@[k].state
                == thread::State::Terminated ==> new.threads.threads@[k].state == thread::State::Terminated,
{
    if let Some(a) = new.threads.active {
        let ts = old.threads;
        let init = initial_choice(ts);
        let seed = seed_of(ts.threads@, init);
        let sd = seeded(seed, old.path.exploring);
        lemma_min_yield(ts.threads@, ts.threads@.len() as int);
        path::lemma_first_index(sd, path::Thread::Yield);
        assert(threads_of(new.path.branches@[new.path.pos - 1]) == with_active(sd));
        let i = a as int;
        assert(is_first(with_active(sd), path::Thread::Active, Some(i)));
        lemma_seed_active_in_range(seed, old.path.exploring, i);
        if ts.threads@[i].state == thread::State::Terminated {
            assert(init != Some(i));
            assert(seed[i] == path::Thread::Disabled);
            assert(sd[i] == path::Thread::Disabled);
            if has_thread(sd, path::Thread::Active) {
                assert(with_active(sd)[i] == sd[i]);
            } else {
                if let Some(j) = first_index(sd, path::Thread::Yield) {
                    assert(i != j);
                    assert(with_active(sd)[i] == sd[i]);
                }
            }
        }
    }
}

/// A scheduling point avoids preemption: when it opens a new branch point and
/// succeeds while the active thread can still run, that thread is the one
/// the branch point marks active, it keeps running, and no switch is
/// reported.
pub proof fn lemma_runnable_active_keeps_running(old: Execution, new: Execution, r: Result<bool, Failure>)
    requires
        old.running(),
        old.path.spec_is_traversed(),
        !old.path.inconsistent,
        scheduled(old, new, r),
        r is Ok,
        old.threads.active_thread().state is Runnable,
    ensures
        new.threads.active == old.threads.active,
        r == Ok::<bool, Failure>(false),
        threads_of(new.path.branches@.last())[old.threads.active->0 as int] == path::Thread::Active,
{
    let ts = old.threads;
    let a0 = ts.active->0 as int;
    let seed = seed_of(ts.threads@, initial_choice(ts));
    let sd = seeded(seed, old.path.exploring);
    assert(initial_choice(ts) == Some(a0));
    assert(seed[a0] == path::Thread::Active);
    assert(sd[a0] == path::Thread::Active);
    assert(has_thread(sd, path::Thread::Active));
    assert(with_active(sd) == sd);
    assert(threads_of(new.path.branches@[new.path.pos - 1]) == sd);
    let na = opt_int(new.threads.active);
    assert(is_first(sd, path::Thread::Active, na));
    match na {
        Some(i) => {
            if i != a0 {
                assert(0 <= i < sd.len());
                if i < seed.len() {
                    assert(seed[i] != path::Thread::Active);
                }
                assert(sd[i] != path::Thread::Active);
            }
        },
        None => {
            assert(sd[a0] != path::Thread::Active);
        },
    }
}

/// A terminated thread stays terminated when another thread unparks it.
pub proof fn lemma_unpark_keeps_terminated(old: Execution, new: Execution, id: thread::Id)
    requires
        unparked(old, new, id),
        0 <= id.id < old.threads.threads@.len(),
        old.threads.threads@[id.id as int].state == thread::State::Terminated,
    ensures
        new.threads.threads@[id.id as int].state == thread::State::Terminated,
{
}

/// While exploration is stopped (`stop_exploring` or `skip_branch`, until
/// `explore` when it may restart), a scheduling point that opens a new
/// branch point offers no thread to explore later there: no thread of the
/// branch point is pending or left for exploration.
pub proof fn lemma_stopped_exploration_offers_no_alternative(old: Execution, new: Execution, r: Result<bool, Failure>)
    requires
        old.running(),
        old.path.spec_is_traversed(),
        !old.path.inconsistent,
        !old.path.exploring,
        scheduled(old, new, r),
        r is Ok,
    ensures
        forall|k: int|
            0 <= k < threads_of(new.path.branches@.last()).len() ==> #[trigger] threads_of(
                new.path.branches@.last(),
            )[k] != path::Thread::Skip && threads_of(new.path.branches@.last())[k] != path::Thread::Pending,
{
    let ts = old.threads;
    let seed = seed_of(ts.threads@, initial_choice(ts));
    let sd = seeded(seed, false);
    path::lemma_first_index(sd, path::Thread::Yield);
    assert forall|k: int| 0 <= k < with_active(sd).len() implies #[trigger] with_active(sd)[k] != path::Thread::Skip
        && with_active(sd)[k] != path::Thread::Pending by {
        assert(sd[k] != path::Thread::Skip && sd[k] != path::Thread::Pending);
    }
}

/// `skip_branch` is permanent for the execution: once the path skips, a
/// later `explore` (whose effect on the path its contract states) leaves
/// exploration stopped.
pub proof fn lemma_skip_outlasts_explore(before: path::Path, after: path::Path)
    requires
        before.skipping,
        !before.exploring,
        after.exploring == (before.exploring || !before.skipping),
        after.skipping == before.skipping,
    ensures
        !after.exploring,
        after.skipping,
{
}

/// `stop_exploring` is undone by `explore` unless the path skips: after a
/// stop (`!before.exploring`, not skipping), `explore` makes the path
/// explore again.
pub proof fn lemma_explore_restarts_after_stop(before: path::Path, after: path::Path)
    requires
        !before.skipping,
        after.exploring == (before.exploring || !before.skipping),
        after.skipping == before.skipping,
    ensures
        after.exploring,
{
}

} // verus!
