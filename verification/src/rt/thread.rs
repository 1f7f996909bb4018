//! Per-thread state of an execution and the set of threads.
use vstd::prelude::*;

use crate::rt::execution::{self, clock_bound, scheduled, unparked, waiters_ok, yield_set, Execution};
use crate::rt::object::{op_ok, Operation};
use crate::rt::trace::Trace;
use crate::rt::vv::{vv_join, VersionVec};
use crate::rt::Failure;

verus! {

/// Identifies a thread of one execution.
#[derive(Debug, Clone, Copy, PartialEq, Eq, Structural, Hash)]
pub struct Id {
    pub execution_id: execution::Id,
    pub id: usize,
}

/// If the thread is runnable, blocked, yielded or terminated.
#[derive(Debug, Clone, Copy, PartialEq, Eq, Structural)]
pub enum State {
    /// The thread may run; `unparked` holds an unpark token given while it
    /// was running.
    Runnable { unparked: bool },
    Blocked,
    Yield,
    Terminated,
}

/// The state of one thread.
#[derive(Debug)]
pub struct Thread {
    pub id: Id,
    /// If the thread is runnable, blocked, or terminated.
    pub state: State,
    /// True if the thread is in a critical section
    pub critical: bool,
    /// The operation the thread is about to take
    pub operation: Option<Operation>,
    /// Tracks observed causality
    pub causality: VersionVec,
    /// Tracks DPOR relations
    pub dpor_vv: VersionVec,
    /// Tracks if a Future's `Waker` has been called
    pub notified: bool,
    /// Tracks if a Future parked because it returned `Poll::Pending`
    pub pending: bool,
    /// Version at which the thread last yielded
    pub last_yield: Option<usize>,
    /// Number of times the thread yielded
    pub yield_count: usize,
}

/// The threads of one execution.
#[derive(Debug)]
pub struct ThreadSet {
    /// Unique execution identifier
    pub execution_id: execution::Id,
    /// Set of threads
    pub threads: Vec<Thread>,
    /// The number of threads the set may hold.
    pub max: usize,
    /// Currently scheduled thread. `None` signifies that no thread is
    /// runnable.
    pub active: Option<usize>,
    /// Sequential consistency causality. All sequentially consistent
    /// operations synchronize with this causality.
    pub seq_cst_causality: VersionVec,
}

/// `new` is `old` except that the active thread's causality is `c` and the
/// sequential-consistency clock is `sc`.
pub open spec fn with_active_causality(old: ThreadSet, new: ThreadSet, c: Seq<usize>, sc: Seq<usize>) -> bool {
    let a = old.active->0 as int;
    let t = old.threads@[a];
    let n = new.threads@[a];
    &&& old.active is Some
    &&& new.active == old.active
    &&& new.threads@.len() == old.threads@.len()
    &&& new.execution_id == old.execution_id
    &&& new.max == old.max
    &&& new.seq_cst_causality@ == sc
    &&& n.causality@ == c
    &&& n.id == t.id && n.state == t.state && n.critical == t.critical
    &&& n.operation == t.operation && n.dpor_vv == t.dpor_vv
    &&& n.notified == t.notified && n.pending == t.pending
    &&& n.last_yield == t.last_yield && n.yield_count == t.yield_count
    &&& forall|i: int| 0 <= i < old.threads@.len() && i != a ==> new.threads@[i] == old.threads@[i]
}

/// The causality clock of the active thread.
pub open spec fn active_causality(ts: ThreadSet) -> Seq<usize> {
    ts.threads@[ts.active->0 as int].causality@
}

/// `new` is `old` after a point of sequential consistency: the active thread
/// and the sequential-consistency clock both become their join.
pub open spec fn seq_cst_done(old: ThreadSet, new: ThreadSet) -> bool {
    let j = vv_join(active_causality(old), old.seq_cst_causality@);
    with_active_causality(old, new, j, j)
}

/// `new` is `old` with the active thread's causality joined with `v`.
pub open spec fn acquired(old: ThreadSet, new: ThreadSet, v: Seq<usize>) -> bool {
    with_active_causality(old, new, vv_join(active_causality(old), v), old.seq_cst_causality@)
}

/// `new` is `old` with the active thread's causality joined with `v`, then a
/// point of sequential consistency.
pub open spec fn acquired_seq_cst(old: ThreadSet, new: ThreadSet, v: Seq<usize>) -> bool {
    let j = vv_join(vv_join(active_causality(old), v), old.seq_cst_causality@);
    with_active_causality(old, new, j, j)
}

/// The active thread of a well-formed set is well formed.
pub proof fn lemma_active_wf(ts: ThreadSet)
    requires
        ts.wf(),
        ts.active is Some,
    ensures
        active_causality(ts).len() == ts.max,
        ts.threads@[ts.active->0 as int].wf(ts.max as nat),
{
    assert(ts.threads@[ts.active->0 as int].wf(ts.max as nat));
}

impl Id {
    pub fn new(execution_id: execution::Id, id: usize) -> (r: Id)
        ensures
            r.execution_id == execution_id,
            r.id == id,
    {
        Id { execution_id, id }
    }

    pub fn as_usize(self) -> (r: usize)
        ensures
            r == self.id,
    {
        self.id
    }
}

impl State {
    pub open spec fn is_runnable(self) -> bool {
        self is Runnable
    }
}

impl Thread {
    /// A thread's state is well formed for a set of `max` threads.
    pub open spec fn wf(&self, max: nat) -> bool {
        &&& self.causality@.len() == max
        &&& self.dpor_vv@.len() == max
        &&& self.id.id < max
    }

    /// A fresh runnable thread with zero clocks.
    pub fn new(id: Id, max_threads: usize) -> (r: Thread)
        requires
            max_threads > 0,
        ensures
            r.id == id,
            r.state == (State::Runnable { unparked: false }),
            !r.critical,
            r.operation is None,
            r.causality@ == Seq::new(max_threads as nat, |i: int| 0usize),
            r.dpor_vv@ == Seq::new(max_threads as nat, |i: int| 0usize),
            !r.notified,
            !r.pending,
            r.last_yield is None,
            r.yield_count == 0,
    {
        Thread {
            id,
            state: State::Runnable { unparked: false },
            critical: false,
            operation: None,
            causality: VersionVec::new(max_threads),
            dpor_vv: VersionVec::new(max_threads),
            notified: false,
            pending: false,
            last_yield: None,
            yield_count: 0,
        }
    }

    pub fn is_runnable(&self) -> (r: bool)
        ensures
            r == self.state is Runnable,
    {
        match self.state {
            State::Runnable { .. } => true,
            _ => false,
        }
    }

    pub fn set_runnable(&mut self)
        ensures
            final(self).state == (State::Runnable { unparked: false }),
            final(self).id == old(self).id,
            final(self).critical == old(self).critical,
            final(self).operation == old(self).operation,
            final(self).causality == old(self).causality,
            final(self).dpor_vv == old(self).dpor_vv,
            final(self).notified == old(self).notified,
            final(self).pending == old(self).pending,
            final(self).last_yield == old(self).last_yield,
            final(self).yield_count == old(self).yield_count,
    {
        self.state = State::Runnable { unparked: false };
    }

    pub fn set_blocked(&mut self)
        ensures
            final(self).state == State::Blocked,
            final(self).id == old(self).id,
            final(self).critical == old(self).critical,
            final(self).operation == old(self).operation,
            final(self).causality == old(self).causality,
            final(self).dpor_vv == old(self).dpor_vv,
            final(self).notified == old(self).notified,
            final(self).pending == old(self).pending,
            final(self).last_yield == old(self).last_yield,
            final(self).yield_count == old(self).yield_count,
    {
        self.state = State::Blocked;
    }

    pub fn is_blocked(&self) -> (r: bool)
        ensures
            r == (self.state == State::Blocked),
    {
        match self.state {
            State::Blocked => true,
            _ => false,
        }
    }

    pub fn is_yield(&self) -> (r: bool)
        ensures
            r == (self.state == State::Yield),
    {
        match self.state {
            State::Yield => true,
            _ => false,
        }
    }

    /// The thread yields: it records the time of its own clock at which it
    /// yielded and counts the yield.
    pub fn set_yield(&mut self)
        requires
            old(self).id.id < old(self).causality@.len(),
            old(self).yield_count < usize::MAX,
        ensures
            final(self).state == State::Yield,
            final(self).last_yield == Some(old(self).causality@[old(self).id.id as int]),
            final(self).yield_count == old(self).yield_count + 1,
            final(self).id == old(self).id,
            final(self).critical == old(self).critical,
            final(self).operation == old(self).operation,
            final(self).causality == old(self).causality,
            final(self).dpor_vv == old(self).dpor_vv,
            final(self).notified == old(self).notified,
            final(self).pending == old(self).pending,
    {
        self.state = State::Yield;
        self.last_yield = Some(self.causality.get(self.id));
        self.yield_count = self.yield_count + 1;
    }

    pub fn is_terminated(&self) -> (r: bool)
        ensures
            r == (self.state == State::Terminated),
    {
        match self.state {
            State::Terminated => true,
            _ => false,
        }
    }

    pub fn set_terminated(&mut self)
        ensures
            final(self).state == State::Terminated,
            final(self).id == old(self).id,
            final(self).critical == old(self).critical,
            final(self).operation == old(self).operation,
            final(self).causality == old(self).causality,
            final(self).dpor_vv == old(self).dpor_vv,
            final(self).notified == old(self).notified,
            final(self).pending == old(self).pending,
            final(self).last_yield == old(self).last_yield,
            final(self).yield_count == old(self).yield_count,
    {
        self.state = State::Terminated;
    }
}

impl ThreadSet {
    /// The set's invariant.
    pub open spec fn wf(&self) -> bool {
        &&& self.max > 0
        &&& self.threads@.len() <= self.max
        &&& self.seq_cst_causality@.len() == self.max
        &&& forall|i: int|
            0 <= i < self.threads@.len() ==> (#[trigger] self.threads@[i]).wf(self.max as nat)
                && self.threads@[i].id == (Id { execution_id: self.execution_id, id: i as usize })
        &&& self.active matches Some(a) ==> a < self.threads@.len()
    }

    /// The position of the active thread, when there is one.
    pub open spec fn active_index(&self) -> int {
        self.active->0 as int
    }

    /// The identifier of the active thread, when there is one.
    pub open spec fn active_id_spec(&self) -> Id {
        Id { execution_id: self.execution_id, id: self.active->0 }
    }

    /// The active thread, when there is one.
    pub open spec fn active_thread(&self) -> Thread {
        self.threads@[self.active->0 as int]
    }

    /// Create an empty thread set. The set may contain up to `max_threads`
    /// threads.
    pub fn new(execution_id: execution::Id, max_threads: usize) -> (r: ThreadSet)
        requires
            max_threads > 0,
        ensures
            r.wf(),
            r.execution_id == execution_id,
            r.threads@.len() == 0,
            r.max == max_threads,
            r.active is None,
            r.seq_cst_causality@ == Seq::new(max_threads as nat, |i: int| 0usize),
    {
        ThreadSet {
            execution_id,
            threads: Vec::new(),
            max: max_threads,
            active: None,
            seq_cst_causality: VersionVec::new(max_threads),
        }
    }

    pub fn execution_id(&self) -> (r: execution::Id)
        ensures
            r == self.execution_id,
    {
        self.execution_id
    }

    /// Create a new thread; it becomes active when no thread is.
    pub fn new_thread(&mut self) -> (r: Id)
        requires
            old(self).wf(),
            old(self).threads@.len() < old(self).max,
        ensures
            final(self).wf(),
            r == (Id { execution_id: old(self).execution_id, id: old(self).threads@.len() as usize }),
            final(self).threads@.len() == old(self).threads@.len() + 1,
            forall|i: int|
                0 <= i < old(self).threads@.len() ==> final(self).threads@[i] == old(self).threads@[i],
            final(self).threads@.last().state == (State::Runnable { unparked: false }),
            final(self).threads@.last().operation is None,
            final(self).threads@.last().causality@ == Seq::new(old(self).max as nat, |i: int| 0usize),
            final(self).threads@.last().dpor_vv@ == Seq::new(old(self).max as nat, |i: int| 0usize),
            final(self).threads@.last().yield_count == 0,
            final(self).threads@.last().last_yield is None,
            !final(self).threads@.last().critical,
            final(self).threads@.last().id == r,
            !final(self).threads@.last().notified,
            !final(self).threads@.last().pending,
            final(self).active == if old(self).active is None {
                Some(old(self).threads@.len() as usize)
            } else {
                old(self).active
            },
            final(self).execution_id == old(self).execution_id,
            final(self).max == old(self).max,
            final(self).seq_cst_causality == old(self).seq_cst_causality,
    {
        let id = self.threads.len();
        self.threads.push(Thread::new(Id::new(self.execution_id, id), self.max));
        if self.active.is_none() {
            self.active = Some(id);
        }
        Id::new(self.execution_id, id)
    }

    pub fn max(&self) -> (r: usize)
        ensures
            r == self.max,
    {
        self.max
    }

    pub fn is_active(&self) -> (r: bool)
        ensures
            r == self.active is Some,
    {
        self.active.is_some()
    }

    pub fn active_id(&self) -> (r: Id)
        requires
            self.active is Some,
        ensures
            r == (Id { execution_id: self.execution_id, id: self.active->0 }),
    {
        Id::new(self.execution_id, self.active.unwrap())
    }

    pub fn active(&self) -> (r: &Thread)
        requires
            self.wf(),
            self.active is Some,
        ensures
            *r == self.active_thread(),
    {
        &self.threads[self.active.unwrap()]
    }

    pub fn set_active(&mut self, id: Option<Id>)
        requires
            id matches Some(i) ==> i.id < old(self).threads@.len(),
        ensures
            final(self).active == match id {
                Some(i) => Some(i.id),
                None => None::<usize>,
            },
            final(self).threads == old(self).threads,
            final(self).execution_id == old(self).execution_id,
            final(self).max == old(self).max,
            final(self).seq_cst_causality == old(self).seq_cst_causality,
    {
        self.active = match id {
            Some(i) => Some(i.as_usize()),
            None => None,
        };
    }

    /// The thread at index `id`.
    pub fn get(&self, id: usize) -> (r: &Thread)
        requires
            id < self.threads@.len(),
        ensures
            *r == self.threads@[id as int],
    {
        &self.threads[id]
    }

    /// Mutable access to the thread at index `id`.
    pub fn get_mut(&mut self, id: usize) -> (r: &mut Thread)
        requires
            id < old(self).threads@.len(),
        ensures
            *r == old(self).threads@[id as int],
            final(self).threads@ == old(self).threads@.update(id as int, *final(r)),
            final(self).execution_id == old(self).execution_id,
            final(self).max == old(self).max,
            final(self).active == old(self).active,
            final(self).seq_cst_causality == old(self).seq_cst_causality,
    {
        &mut self.threads[id]
    }

    /// Advances the active thread's own entry of its causality clock.
    pub fn active_causality_inc(&mut self)
        requires
            old(self).wf(),
            old(self).active is Some,
            old(self).active_thread().causality@[old(self).active->0 as int] < usize::MAX,
        ensures
            final(self).wf(),
            ({
                let a = old(self).active->0 as int;
                let c = active_causality(*old(self));
                with_active_causality(*old(self), *final(self), c.update(a, (c[a] + 1) as usize), old(self).seq_cst_causality@)
            }),
    {
        let id = self.active_id();
        let a = self.active.unwrap();
        let th = self.get_mut(a);
        th.causality.inc(id);
        proof {
            assert(self.threads@[a as int].wf(self.max as nat));
        }
    }

    /// The active thread's own entry of its causality clock.
    pub fn active_atomic_version(&self) -> (r: usize)
        requires
            self.wf(),
            self.active is Some,
        ensures
            r == self.active_thread().causality@[self.active->0 as int],
    {
        let id = self.active_id();
        self.active().causality.get(id)
    }

    /// Insert a point of sequential consistency: the active thread and the
    /// sequential-consistency clock both become their join.
    pub fn seq_cst(&mut self)
        requires
            old(self).wf(),
            old(self).active is Some,
        ensures
            final(self).wf(),
            seq_cst_done(*old(self), *final(self)),
    {
        let a = self.active.unwrap();
        proof {
            assert(self.threads@[a as int].wf(self.max as nat));
        }
        let sc = self.seq_cst_causality.clone();
        let th = self.get_mut(a);
        th.causality.join(&sc);
        let c = self.threads[a].causality.clone();
        self.seq_cst_causality.join(&c);
        proof {
            let t = old(self).threads@[a as int];
            assert(self.seq_cst_causality@ =~= vv_join(t.causality@, old(self).seq_cst_causality@));
        }
    }

    /// Empties the set for a new execution.
    pub fn clear(&mut self, execution_id: execution::Id)
        requires
            old(self).wf(),
        ensures
            final(self).wf(),
            final(self).execution_id == execution_id,
            final(self).threads@.len() == 0,
            final(self).active is None,
            final(self).max == old(self).max,
            final(self).seq_cst_causality@ == Seq::new(old(self).max as nat, |i: int| 0usize),
    {
        self.execution_id = execution_id;
        self.threads.clear();
        self.active = None;
        self.seq_cst_causality = VersionVec::new(self.max);
    }
}


/// The number of runnable threads among `ts`.
pub open spec fn runnable_count(ts: Seq<Thread>) -> nat
    decreases ts.len(),
{
    if ts.len() == 0 {
        0
    } else {
        runnable_count(ts.drop_last()) + if ts.last().state is Runnable {
            1nat
        } else {
            0nat
        }
    }
}

/// `new` is `old` with thread `i` marked as woken by its future's waker.
pub open spec fn notified_set(old: Execution, new: Execution, i: int) -> bool {
    let o = old.threads.threads@[i];
    let t = new.threads.threads@[i];
    &&& new.running()
    &&& new.same_config(&old)
    &&& new.path == old.path
    &&& new.objects == old.objects
    &&& new.threads.execution_id == old.threads.execution_id
    &&& new.threads.max == old.threads.max
    &&& new.threads.active == old.threads.active
    &&& new.threads.seq_cst_causality == old.threads.seq_cst_causality
    &&& new.threads.threads@.len() == old.threads.threads@.len()
    &&& forall|k: int| 0 <= k < old.threads.threads@.len() && k != i ==> #[trigger] new.threads.threads@[k] == old.threads.threads@[k]
    &&& t.notified
    &&& t.id == o.id && t.state == o.state && t.critical == o.critical
    &&& t.operation == o.operation && t.causality == o.causality && t.dpor_vv == o.dpor_vv
    &&& t.pending == o.pending && t.last_yield == o.last_yield && t.yield_count == o.yield_count
}

/// The active thread yielded in `old`, and the scheduler went on to `new`
/// with the result `r`.
pub open spec fn yielded(old: Execution, new: Execution, r: Result<bool, Failure>) -> bool {
    exists|mid: Execution| yield_set(old, mid) && #[trigger] scheduled(mid, new, r)
}

/// What follows the notification of thread `id`, from `m` on: the active
/// thread yields if another thread can run; another thread that parked on a
/// pending future is unparked.
pub open spec fn after_notify(old: Execution, m: Execution, new: Execution, id: Id, r: Result<bool, Failure>) -> bool {
    if id.id == old.threads.active->0 {
        if runnable_count(old.threads.threads@) > 1 {
            yielded(m, new, r)
        } else {
            new == m && r == Ok::<bool, Failure>(false)
        }
    } else if old.threads.threads@[id.id as int].pending {
        unparked(m, new, id) && r == Ok::<bool, Failure>(false)
    } else {
        new == m && r == Ok::<bool, Failure>(false)
    }
}

impl Id {
    /// The identifier of the active thread.
    pub fn current(execution: &Execution) -> (r: Id)
        requires
            execution.running(),
        ensures
            r == execution.threads.active_id_spec(),
    {
        execution.threads.active_id()
    }

    /// Unparks the thread: it acquires the causality of the active thread
    /// and may run again.
    pub fn unpark(self, execution: &mut Execution)
        requires
            old(execution).running(),
            self.execution_id == old(execution).id,
            self.id < old(execution).threads.threads@.len(),
        ensures
            unparked(*old(execution), *final(execution), self),
    {
        execution.unpark_thread(self);
    }

    /// The waker of the future that this thread runs was called. The thread
    /// is marked as notified. If it is the active thread, it yields when
    /// another thread can run; otherwise, if it parked because its future
    /// was pending, it is unparked. Returns whether to switch threads.
    pub fn future_notify(self, execution: &mut Execution, trace: &Trace) -> (r: Result<bool, Failure>)
        requires
            old(execution).running(),
            self.execution_id == old(execution).id,
            self.id < old(execution).threads.threads@.len(),
            self.id == old(execution).threads.active->0 ==> old(execution).threads.active_thread().yield_count < usize::MAX,
        ensures
            exists|m: Execution|
                #[trigger] notified_set(*old(execution), m, self.id as int) && after_notify(
                    *old(execution),
                    m,
                    *final(execution),
                    self,
                    r,
                ),
    {
        let ghost old_e = *execution;
        let a = execution.threads.active.unwrap();
        let pending = execution.threads.threads[self.id].pending;
        let th = execution.threads.get_mut(self.id);
        th.notified = true;
        proof {
            let ts = execution.threads;
            assert forall|i: int| 0 <= i < ts.threads@.len() implies (#[trigger] ts.threads@[i]).wf(ts.max as nat)
                && ts.threads@[i].id == (Id { execution_id: ts.execution_id, id: i as usize }) by {
                assert(old_e.threads.threads@[i].wf(ts.max as nat));
            }
            assert forall|i: int| 0 <= i < ts.threads@.len() implies clock_bound(
                (#[trigger] ts.threads@[i]).dpor_vv@,
                execution.path.pos as int,
            ) by {
                assert(clock_bound(old_e.threads.threads@[i].dpor_vv@, execution.path.pos as int));
            }
            assert forall|i: int| 0 <= i < ts.threads@.len() implies ((#[trigger] ts.threads@[i]).operation matches Some(op) ==> op_ok(execution.objects, op)) by {
                assert(old_e.threads.threads@[i].operation == ts.threads@[i].operation);
            }
            assert forall|i: int| 0 <= i < execution.objects.entries@.len() implies waiters_ok(
                #[trigger] execution.objects.entries@[i],
                execution.id,
                ts.threads@.len() as int,
            ) by {
                assert(waiters_ok(old_e.objects.entries@[i], execution.id, ts.threads@.len() as int));
            }
            assert(notified_set(old_e, *execution, self.id as int));
        }
        let ghost m = *execution;
        if self.id == a {
            let n = count_runnable(&execution.threads.threads);
            proof {
                assert(execution.threads.threads@.len() == old_e.threads.threads@.len());
                assert forall|k: int| 0 <= k < old_e.threads.threads@.len() implies (#[trigger] execution.threads.threads@[k]).state
                    == old_e.threads.threads@[k].state by {}
                lemma_runnable_count_same(old_e.threads.threads@, execution.threads.threads@);
            }
            if n > 1 {
                let r = crate::rt::yield_now(execution, trace);
                assert(yielded(m, *execution, r));
                return r;
            }
            Ok(false)
        } else {
            if pending {
                execution.unpark_thread(self);
            }
            Ok(false)
        }
    }
}

/// Two thread sequences with the same states have as many runnable threads.
proof fn lemma_runnable_count_same(a: Seq<Thread>, b: Seq<Thread>)
    requires
        a.len() == b.len(),
        forall|k: int| 0 <= k < a.len() ==> (#[trigger] b[k]).state == a[k].state,
    ensures
        runnable_count(a) == runnable_count(b),
    decreases a.len(),
{
    if a.len() > 0 {
        lemma_runnable_count_same(a.drop_last(), b.drop_last());
    }
}

/// Counts the runnable threads.
fn count_runnable(threads: &Vec<Thread>) -> (r: usize)
    ensures
        r == runnable_count(threads@),
{
    let mut n: usize = 0;
    let mut i: usize = 0;
    while i < threads.len()
        invariant
            i <= threads@.len(),
            n == runnable_count(threads@.take(i as int)),
            n <= i,
        decreases threads@.len() - i,
    {
        proof {
            assert(threads@.take(i as int + 1).drop_last() =~= threads@.take(i as int));
        }
        if threads[i].is_runnable() {
            n = n + 1;
        }
        i = i + 1;
    }
    proof {
        assert(threads@.take(i as int) =~= threads@);
    }
    n
}

} // verus!
