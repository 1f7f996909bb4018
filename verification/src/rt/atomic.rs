//! Memory-model state of an atomic cell: the recent stores a load may read,
//! when each thread first saw them, and the happens-before checks of
//! unsynchronized accesses.
use vstd::prelude::*;

use crate::rt::execution::{
    active_set_keep, lemma_entry_insert, lemma_entry_update, others_same, scheduled, Execution,
};
use crate::rt::mutex::{entry_changed, objects_changed, same_but_causality};
use crate::rt::object::{access_view, clone_access, Access, Entry, Object, Operation};
use crate::rt::path;
use crate::rt::trace::Trace;
use crate::rt::synchronize::{releases, Synchronize};
use crate::rt::thread::{active_causality, lemma_active_wf, seq_cst_done, ThreadSet};
use crate::rt::vv::{lemma_join_least_upper_bound, lemma_le_partial_order, vv_join, vv_le, VersionVec};
use crate::rt::Failure;
use crate::{MAX_ATOMIC_HISTORY, MAX_THREADS};
use std::sync::atomic::Ordering;

verus! {

/// The kind of access an atomic operation makes.
#[derive(Debug, Clone, Copy, PartialEq, Eq, Structural)]
pub enum Action {
    /// Atomic load
    Load,
    /// Atomic store
    Store,
    /// Atomic read-modify-write
    Rmw,
}

/// Tracks when each thread first saw a store: the thread's own clock entry at
/// that time, or `u16::MAX` if it has not seen it.
#[derive(Debug)]
pub struct FirstSeen(pub Vec<u16>);

/// One of the recent stores to an atomic cell.
#[derive(Debug)]
pub struct Store {
    /// The stored value. All atomic types can be converted to `u64`.
    pub value: u64,
    /// Manages causality transfers between threads
    pub sync: Synchronize,
    /// Tracks when each thread first saw value
    pub first_seen: FirstSeen,
    /// True when the store was done with `SeqCst` ordering
    pub seq_cst: bool,
}

#[derive(Debug)]
pub struct State {
    /// Transitive closure of all atomic loads from the cell.
    pub loaded_at: VersionVec,
    /// Transitive closure of all **unsynchronized** loads from the cell.
    pub unsync_loaded_at: VersionVec,
    /// Transitive closure of all atomic stores to the cell.
    pub stored_at: VersionVec,
    /// Version of the most recent **unsynchronized** mutable access to the
    /// cell; this includes the initialization of the cell.
    pub unsync_mut_at: VersionVec,
    /// `true` when in a `with_mut` closure. If this is set, there can be no
    /// access to the cell.
    pub is_mutating: bool,
    /// Last time the atomic was accessed. This tracks the dependent access
    /// for the DPOR algorithm.
    pub last_access: Option<Access>,
    /// Last time the atomic was accessed by a store or a read-modify-write:
    /// the access a load depends on, as two loads never race.
    pub last_non_load_access: Option<Access>,
    /// The `MAX_ATOMIC_HISTORY` most recent stores, in a ring indexed by the
    /// store count.
    pub stores: Vec<Store>,
    /// The total number of stores to the cell.
    pub cnt: u16,
}

// ===== specifications =====

/// The ring slot of the store with number `cnt`.
pub open spec fn spec_index(cnt: int) -> int {
    cnt % (MAX_ATOMIC_HISTORY as int)
}

/// Number of stores a cell remembers after `cnt` stores.
pub open spec fn stored_count(cnt: int) -> int {
    if cnt < MAX_ATOMIC_HISTORY {
        cnt
    } else {
        MAX_ATOMIC_HISTORY as int
    }
}

impl FirstSeen {
    pub open spec fn seen_by_current(self, threads: ThreadSet) -> bool {
        let c = active_causality(threads);
        exists|i: int|
            0 <= i < c.len() && #[trigger] self.0@[i] != u16::MAX && self.0@[i] <= c[i]
    }

    pub open spec fn seen_before_yield(self, threads: ThreadSet) -> bool {
        let a = threads.active->0 as int;
        let t = threads.threads@[a];
        t.last_yield matches Some(ly) && self.0@[a] != u16::MAX && self.0@[a] <= ly
    }
}

impl State {
    /// The cell's invariant for a model of `max` threads.
    pub open spec fn wf(&self, max: nat) -> bool {
        &&& self.loaded_at@.len() == max
        &&& self.unsync_loaded_at@.len() == max
        &&& self.stored_at@.len() == max
        &&& self.unsync_mut_at@.len() == max
        &&& self.stores@.len() == MAX_ATOMIC_HISTORY
        &&& forall|i: int|
            0 <= i < MAX_ATOMIC_HISTORY ==> (#[trigger] self.stores@[i]).sync@.len() == max
                && self.stores@[i].first_seen.0@.len() == MAX_THREADS
        &&& self.last_access matches Some(a) ==> a.dpor_vv@.len() == max
        &&& self.last_non_load_access matches Some(a) ==> a.dpor_vv@.len() == max
    }

    /// The cell's invariant once it holds its initial store.
    pub open spec fn inv(&self, max: nat) -> bool {
        self.wf(max) && self.cnt >= 1
    }

    /// The `i`-th most recent store (0 is the newest).
    pub open spec fn newest(&self, i: nat) -> Store {
        self.stores@[spec_index(self.cnt - 1 - i)]
    }
}

impl State {
    /// The cell's invariant for the threads of its execution.
    pub open spec fn wf_for(&self, threads: ThreadSet) -> bool {
        &&& self.wf(threads.max as nat)
        &&& threads.wf()
        &&& threads.active is Some
        &&& threads.max <= MAX_THREADS
    }

    /// The cell's invariant, once it holds its initial store, for the threads
    /// of its execution.
    pub open spec fn inv_for(&self, threads: ThreadSet) -> bool {
        self.wf_for(threads) && self.cnt >= 1
    }

    /// The ring slot the next store goes to.
    pub open spec fn next_slot(&self) -> int {
        spec_index(self.cnt as int)
    }

    /// The ring slot of the newest store.
    pub open spec fn last_slot(&self) -> int {
        spec_index(self.cnt - 1)
    }
}

/// Clock entries of a fresh store: only the active thread has seen it, at
/// its current own time.
pub open spec fn fresh_seen(threads: ThreadSet) -> Seq<u16> {
    let a = threads.active->0 as int;
    Seq::new(MAX_THREADS as nat, |i: int| u16::MAX).update(a, (active_causality(threads)[a] % 0x10000) as u16)
}

/// The store holds these values.
pub open spec fn store_is(st: Store, value: u64, seq_cst: bool, sync: Seq<usize>, seen: Seq<u16>) -> bool {
    &&& st.value == value
    &&& st.seq_cst == seq_cst
    &&& st.sync@ == sync
    &&& st.first_seen.0@ == seen
}

/// A clock of `n` zero entries.
pub open spec fn zeros(n: nat) -> Seq<usize> {
    Seq::new(n, |i: int| 0usize)
}

/// A zero clock for the threads of an execution.
pub open spec fn zero_clock(ts: ThreadSet) -> Seq<usize> {
    zeros(ts.max as nat)
}

/// A zero clock happens before every clock of its length.
pub proof fn lemma_zeros_le(c: Seq<usize>)
    ensures
        vv_le(zeros(c.len()), c),
{
    assert forall|k: int| #[trigger] crate::rt::vv::vv_get(zeros(c.len()), k) <= crate::rt::vv::vv_get(c, k) by {}
}

/// Joining with a zero clock changes nothing.
pub proof fn lemma_join_zeros(c: Seq<usize>)
    ensures
        vv_join(zeros(c.len()), c) == c,
{
    assert(vv_join(zeros(c.len()), c) =~= c);
}

/// The store count and slot arithmetic of a cell with `cnt < u16::MAX`.
pub open spec fn bump_ok(cnt: u16) -> bool {
    cnt < u16::MAX
}

impl State {
    /// Number of stores the cell remembers.
    pub open spec fn stored(&self) -> int {
        stored_count(self.cnt as int)
    }

    /// The ring slot of the `i`-th most recent store.
    pub open spec fn newest_slot(&self, i: int) -> int {
        spec_index(self.cnt - 1 - i)
    }
}

/// Loading the `i`-th most recent store puts the load within the loading
/// thread's causality: it saw the store before its last yield, it is a
/// sequentially consistent load of a sequentially consistent store, or some
/// thread saw the store within the loading thread's view.
pub open spec fn load_flag(s: State, threads: ThreadSet, ord: Ordering, i: nat) -> bool {
    let st = s.newest(i);
    st.first_seen.seen_before_yield(threads) || (ord == Ordering::SeqCst && st.seq_cst)
        || st.first_seen.seen_by_current(threads)
}

/// The `i`-th most recent store (for `i >= 1`) cannot be read: the thread saw
/// it before its last yield, or a newer store is already within its
/// causality.
pub open spec fn load_stop(s: State, threads: ThreadSet, ord: Ordering, i: nat) -> bool {
    s.newest(i).first_seen.seen_before_yield(threads) || exists|j: nat|
        0 <= j < i && #[trigger] load_flag(s, threads, ord, j)
}

/// `n` is the number of most recent stores a load with `ord` may read.
pub open spec fn is_match_count(s: State, threads: ThreadSet, ord: Ordering, n: nat) -> bool {
    &&& 1 <= n <= s.stored()
    &&& forall|i: nat| 1 <= i < n ==> !#[trigger] load_stop(s, threads, ord, i)
    &&& n < s.stored() ==> load_stop(s, threads, ord, n)
}

/// The `i`-th most recent of the stores `stores` of a cell that was stored
/// to `cnt` times.
pub open spec fn nth_newest(stores: Seq<Store>, cnt: u16, i: nat) -> Store {
    stores[spec_index(cnt - 1 - i)]
}

/// The number of stores a cell stored to `cnt` times remembers.
pub open spec fn stored_of(cnt: u16) -> int {
    stored_count(cnt as int)
}

/// A thread whose clock is `c` has seen the store first seen at `fs`.
pub open spec fn seen_by_clock(fs: FirstSeen, c: Seq<usize>) -> bool {
    exists|i: int| 0 <= i < c.len() && #[trigger] fs.0@[i] != u16::MAX && fs.0@[i] <= c[i]
}

/// Thread `a`, whose last yield was at `ly`, saw the store first seen at
/// `fs` before that yield.
pub open spec fn seen_before(fs: FirstSeen, a: int, ly: Option<usize>) -> bool {
    ly matches Some(y) && fs.0@[a] != u16::MAX && fs.0@[a] <= y
}

/// `load_flag` for the active thread `a` with clock `c` and last yield
/// `ly`, over the stores of a cell.
pub open spec fn flag_at(stores: Seq<Store>, cnt: u16, c: Seq<usize>, a: int, ly: Option<usize>, seq_cst: bool, i: nat) -> bool {
    let st = nth_newest(stores, cnt, i);
    seen_before(st.first_seen, a, ly) || (seq_cst && st.seq_cst) || seen_by_clock(st.first_seen, c)
}

/// `load_stop` for the active thread `a` with clock `c` and last yield
/// `ly`, over the stores of a cell.
pub open spec fn stop_at(stores: Seq<Store>, cnt: u16, c: Seq<usize>, a: int, ly: Option<usize>, seq_cst: bool, i: nat) -> bool {
    seen_before(nth_newest(stores, cnt, i).first_seen, a, ly) || exists|j: nat|
        0 <= j < i && #[trigger] flag_at(stores, cnt, c, a, ly, seq_cst, j)
}

/// `n` is the number of most recent stores that a load by the active thread
/// `a`, with clock `c` and last yield `ly`, may read: the newest, and each
/// older one until one that the thread saw before its last yield or after
/// a store within its view (or a sequentially consistent one, for a
/// sequentially consistent load).
pub open spec fn match_count_at(stores: Seq<Store>, cnt: u16, c: Seq<usize>, a: int, ly: Option<usize>, seq_cst: bool, n: nat) -> bool {
    &&& 1 <= n <= stored_of(cnt)
    &&& forall|i: nat| 1 <= i < n ==> !#[trigger] stop_at(stores, cnt, c, a, ly, seq_cst, i)
    &&& n < stored_of(cnt) ==> stop_at(stores, cnt, c, a, ly, seq_cst, n)
}

/// The load branch point `e` offers the stores that a load by the active
/// thread of `ts` (once its own clock entry advanced) may read from the
/// cell `s`: the `n` most recent ones, newest first.
pub open spec fn load_offered(s: State, ts: ThreadSet, e: path::Entry, seq_cst: bool) -> bool {
    e matches path::Entry::Load(l) && l.pos == 0 && (forall|i: int| 0 <= i < l.len ==> l.values@[i] == i)
        && match_count_at(s.stores@, s.cnt, ticked(ts), ts.active_index(), ts.active_thread().last_yield, seq_cst, l.len as nat)
}

/// A mocked atomic cell: a handle to its memory-model state in the
/// execution.
#[derive(Debug, Clone, Copy, PartialEq, Eq, Structural)]
pub struct Atomic {
    pub obj: Object,
}

/// The object is an atomic cell of the execution.
pub open spec fn is_atomic(e: Execution, obj: Object) -> bool {
    &&& obj.execution_id == e.objects.execution_id
    &&& obj.index < e.objects.entries@.len()
    &&& e.objects.entries@[obj.index as int] is Atomic
}

/// The state of the atomic cell `obj`.
pub open spec fn atomic_state(e: Execution, obj: Object) -> State {
    e.objects.entries@[obj.index as int]->Atomic_0
}

/// The active thread's causality after a synchronization point: its own
/// entry advanced.
pub open spec fn ticked(ts: ThreadSet) -> Seq<usize> {
    let a = ts.active_index();
    let c = active_causality(ts);
    c.update(a, (c[a] + 1) as usize)
}

/// The ring slot of the store `ago` stores back.
pub open spec fn slot_back(s: State, ago: usize) -> int {
    s.newest_slot(ago as int)
}

/// The first-seen record after thread `a` saw the store at its own time
/// `time`.
pub open spec fn touched(fs: Seq<u16>, a: int, time: usize) -> Seq<u16> {
    if fs[a] == u16::MAX {
        fs.update(a, (time % 0x10000) as u16)
    } else {
        fs
    }
}

/// The active thread of `new` is that of `old` with causality `c`, and the
/// sequential-consistency clock is `sc`; nothing else changed.
pub open spec fn active_clock(old: ThreadSet, new: ThreadSet, c: Seq<usize>, sc: Seq<usize>) -> bool {
    let a = old.active_index();
    &&& new.execution_id == old.execution_id
    &&& new.max == old.max
    &&& new.active == old.active
    &&& new.seq_cst_causality@ == sc
    &&& new.threads@[a].causality@ == c
    &&& same_but_causality(old.threads@[a], new.threads@[a])
    &&& others_same(old, new, a)
}

/// The memory-model state of the cell is unchanged but for its load clock
/// and the store in `slot`, which the active thread of `ts` has now seen.
pub open spec fn load_tracked(s: State, ns: State, slot: int, ts: ThreadSet, c: Seq<usize>) -> bool {
    let st = s.stores@[slot];
    let nst = ns.stores@[slot];
    &&& ns.loaded_at@ == vv_join(s.loaded_at@, c)
    &&& ns.unsync_loaded_at == s.unsync_loaded_at
    &&& ns.stored_at == s.stored_at
    &&& ns.unsync_mut_at == s.unsync_mut_at
    &&& ns.is_mutating == s.is_mutating
    &&& ns.last_access == s.last_access
    &&& ns.last_non_load_access == s.last_non_load_access
    &&& ns.cnt == s.cnt
    &&& ns.stores@.len() == s.stores@.len()
    &&& forall|k: int| 0 <= k < s.stores@.len() && k != slot ==> #[trigger] ns.stores@[k] == s.stores@[k]
    &&& nst.value == st.value && nst.seq_cst == st.seq_cst && nst.sync == st.sync
    &&& nst.first_seen.0@ == touched(st.first_seen.0@, ts.active_index(), c[ts.active_index()])
}

/// The cell `ns` is `s` with one more store, in the next ring slot: it holds
/// `value`, is sequentially consistent when `seq_cst`, carries `sync`, and
/// only the active thread of `ts` has seen it, at its own time in `c` (its
/// clock after the store).
pub open spec fn new_store(s: State, ns: State, value: u64, seq_cst: bool, sync: Seq<usize>, ts: ThreadSet, c: Seq<usize>) -> bool {
    let a = ts.active_index();
    let slot = s.next_slot();
    &&& ns.cnt == s.cnt + 1
    &&& ns.stores@.len() == s.stores@.len()
    &&& forall|k: int| 0 <= k < s.stores@.len() && k != slot ==> #[trigger] ns.stores@[k] == s.stores@[k]
    &&& store_is(
        ns.stores@[slot],
        value,
        seq_cst,
        sync,
        Seq::new(MAX_THREADS as nat, |i: int| u16::MAX).update(a, (c[a] % 0x10000) as u16),
    )
}

impl Atomic {
    /// A new cell holding `value`; its creation counts as an unsynchronized
    /// mutation by the active thread.
    pub fn new(execution: &mut Execution, value: u64) -> (r: Atomic)
        requires
            old(execution).running(),
        ensures
            final(execution).running(),
            final(execution).same_config(old(execution)),
            final(execution).path == old(execution).path,
            final(execution).threads == old(execution).threads,
            final(execution).objects.causal_cells == old(execution).objects.causal_cells,
            final(execution).objects.execution_id == old(execution).objects.execution_id,
            final(execution).objects.entries@.drop_last() == old(execution).objects.entries@,
            r.obj.index == old(execution).objects.entries@.len(),
            r.obj.execution_id == old(execution).id,
            is_atomic(*final(execution), r.obj),
            ({
                let s = atomic_state(*final(execution), r.obj);
                let c = active_causality(old(execution).threads);
                &&& s.cnt == 1 && !s.is_mutating && s.last_access is None
                &&& s.unsync_mut_at@ == c
                &&& s.loaded_at@ == zero_clock(old(execution).threads)
                &&& s.stored_at@ == zero_clock(old(execution).threads)
                &&& s.unsync_loaded_at@ == zero_clock(old(execution).threads)
                &&& store_is(s.stores@[0], value, false, c, fresh_seen(old(execution).threads))
            }),
    {
        let ghost old_e = *execution;
        let state = State::new(&mut execution.threads, value);
        let obj = execution.objects.insert(Entry::Atomic(state));
        proof {
            assert(execution.objects.entries@.drop_last() =~= old_e.objects.entries@);
            lemma_entry_insert(old_e, *execution);
            assert(execution.objects.entries@[obj.index as int] == Entry::Atomic(state));
        }
        Atomic { obj }
    }

    /// The active thread is about to perform `action` on the cell: a
    /// scheduling branching point. Returns whether to switch threads.
    pub fn branch(&self, execution: &mut Execution, action: Action, trace: &Trace) -> (r: Result<bool, Failure>)
        requires
            old(execution).running(),
            is_atomic(*old(execution), self.obj),
        ensures
            exists|mid: Execution|
                active_set_keep(
                    *old(execution),
                    mid,
                    old(execution).threads.active_thread().state,
                    Some(Operation { obj: self.obj, action: crate::rt::object::Action::Atomic(action) }),
                ) && #[trigger] scheduled(mid, *final(execution), r),
    {
        self.obj.branch(execution, crate::rt::object::Action::Atomic(action), trace)
    }

    /// Loads the value without synchronization: it must not race with any
    /// store or unsynchronized mutation. Returns the newest value.
    pub fn unsync_load(&self, execution: &mut Execution) -> (r: Result<u64, Failure>)
        requires
            old(execution).running(),
            is_atomic(*old(execution), self.obj),
        ensures
            final(execution).running(),
            final(execution).threads == old(execution).threads,
            final(execution).path == old(execution).path,
            ({
                let s = atomic_state(*old(execution), self.obj);
                let c = active_causality(old(execution).threads);
                &&& s.is_mutating ==> r == Err::<u64, Failure>(Failure::AtomicMutating)
                &&& r is Ok <==> !s.is_mutating && vv_le(s.unsync_mut_at@, c) && vv_le(s.stored_at@, c)
                &&& !s.is_mutating && r is Err ==> r == Err::<u64, Failure>(Failure::CausalityViolation)
                &&& r matches Ok(v) ==> {
                    &&& v == s.stores@[s.last_slot()].value
                    &&& objects_changed(*old(execution), *final(execution), self.obj, Entry::Atomic(State {
                        unsync_loaded_at: atomic_state(*final(execution), self.obj).unsync_loaded_at,
                        ..s
                    }))
                    &&& atomic_state(*final(execution), self.obj).unsync_loaded_at@ == vv_join(s.unsync_loaded_at@, c)
                }
            }),
    {
        let ghost old_e = *execution;
        let idx = self.obj.index;
        let mut value: u64 = 0;
        let res = match &mut execution.objects.entries[idx] {
            Entry::Atomic(state) => {
                // An unsync load counts as a "read" access
                let res = state.track_unsync_load(&execution.threads);
                // Return the value
                let slot = index(state.cnt - 1);
                value = state.stores[slot].value;
                res
            },
            _ => Ok(()),
        };
        proof {
            lemma_entry_update(old_e, *execution, self.obj.idx());
            assert(execution.objects.entries@ =~= old_e.objects.entries@.update(self.obj.idx(), execution.objects.entries@[self.obj.idx()]));
        }
        match res {
            Ok(()) => Ok(value),
            Err(e) => Err(e),
        }
    }

    /// Starts a mutable access to the value: it must happen after every
    /// access, and no access may happen until it ends (`exit_mut`).
    /// Returns the newest value.
    pub fn enter_mut(&self, execution: &mut Execution) -> (r: Result<u64, Failure>)
        requires
            old(execution).running(),
            is_atomic(*old(execution), self.obj),
        ensures
            final(execution).running(),
            final(execution).threads == old(execution).threads,
            final(execution).path == old(execution).path,
            ({
                let s = atomic_state(*old(execution), self.obj);
                let ns = atomic_state(*final(execution), self.obj);
                let c = active_causality(old(execution).threads);
                &&& s.is_mutating ==> r == Err::<u64, Failure>(Failure::AtomicMutating)
                &&& r is Ok <==> !s.is_mutating && vv_le(s.loaded_at@, c) && vv_le(s.unsync_loaded_at@, c)
                    && vv_le(s.stored_at@, c) && vv_le(s.unsync_mut_at@, c)
                &&& !s.is_mutating && r is Err ==> r == Err::<u64, Failure>(Failure::CausalityViolation)
                &&& r matches Ok(v) ==> {
                    &&& v == s.stores@[s.last_slot()].value
                    &&& ns.is_mutating
                    &&& ns.unsync_mut_at@ == vv_join(s.unsync_mut_at@, c)
                    &&& objects_changed(*old(execution), *final(execution), self.obj, Entry::Atomic(State {
                        is_mutating: true,
                        unsync_mut_at: ns.unsync_mut_at,
                        ..s
                    }))
                }
            }),
    {
        let ghost old_e = *execution;
        let idx = self.obj.index;
        let mut value: u64 = 0;
        let res = match &mut execution.objects.entries[idx] {
            Entry::Atomic(state) => {
                // Verify the mutation may happen
                let res = state.track_unsync_mut(&execution.threads);
                if res.is_ok() {
                    state.is_mutating = true;
                }
                // Return the value of the most recent store
                let slot = index(state.cnt - 1);
                value = state.stores[slot].value;
                res
            },
            _ => Ok(()),
        };
        proof {
            lemma_entry_update(old_e, *execution, self.obj.idx());
            assert(execution.objects.entries@ =~= old_e.objects.entries@.update(self.obj.idx(), execution.objects.entries@[self.obj.idx()]));
        }
        match res {
            Ok(()) => Ok(value),
            Err(e) => Err(e),
        }
    }

    /// Ends a mutable access: the possibly changed `value` replaces the
    /// newest store's, and the end counts as an unsynchronized mutation.
    pub fn exit_mut(&self, execution: &mut Execution, value: u64) -> (r: Result<(), Failure>)
        requires
            old(execution).running(),
            is_atomic(*old(execution), self.obj),
            atomic_state(*old(execution), self.obj).is_mutating,
        ensures
            final(execution).running(),
            final(execution).threads == old(execution).threads,
            final(execution).path == old(execution).path,
            ({
                let s = atomic_state(*old(execution), self.obj);
                let ns = atomic_state(*final(execution), self.obj);
                let c = active_causality(old(execution).threads);
                &&& !ns.is_mutating
                &&& ns.stores@[s.last_slot()].value == value
                &&& r is Ok <==> vv_le(s.loaded_at@, c) && vv_le(s.unsync_loaded_at@, c) && vv_le(s.stored_at@, c)
                    && vv_le(s.unsync_mut_at@, c)
                &&& r is Err ==> r == Err::<(), Failure>(Failure::CausalityViolation)
                &&& r is Ok ==> ns.unsync_mut_at@ == vv_join(s.unsync_mut_at@, c)
            }),
    {
        let ghost old_e = *execution;
        let idx = self.obj.index;
        let res = match &mut execution.objects.entries[idx] {
            Entry::Atomic(state) => {
                state.is_mutating = false;
                // The value may have been mutated, so it must be placed back.
                let slot = index(state.cnt - 1);
                state.stores[slot].value = value;
                state.track_unsync_mut(&execution.threads)
            },
            _ => Ok(()),
        };
        proof {
            lemma_entry_update(old_e, *execution, self.obj.idx());
        }
        res
    }
}

/// The store was seen, by its first-seen record, no later than the clock
/// `c`.
pub open spec fn seen_with(fs: Seq<u16>, c: Seq<usize>) -> bool {
    exists|i: int| 0 <= i < c.len() && #[trigger] fs[i] != u16::MAX && fs[i] <= c[i]
}

/// The ring slot of the store `k` stores back.
pub open spec fn slot_back_int(s: State, k: int) -> int {
    s.newest_slot(k)
}

/// Every store of every atomic cell in `entries` that was seen no later
/// than `c` releases causality that happens before `after`.
pub open spec fn fence_acquired(entries: Seq<Entry>, c: Seq<usize>, after: Seq<usize>) -> bool {
    forall|i: int, k: int|
        0 <= i < entries.len() && entries[i] is Atomic && 0 <= k < entries[i]->Atomic_0.stored() ==> store_acquired(
            #[trigger] store_back(entries[i]->Atomic_0, k),
            c,
            after,
        )
}

/// The store `k` stores back.
pub open spec fn store_back(s: State, k: int) -> Store {
    s.stores@[slot_back_int(s, k)]
}

/// If the store was seen no later than `c`, its causality happens before
/// `after`.
pub open spec fn store_acquired(st: Store, c: Seq<usize>, after: Seq<usize>) -> bool {
    seen_with(st.first_seen.0@, c) ==> vv_le(st.sync@, after)
}

/// A store seen by a clock is seen by every later clock.
pub proof fn lemma_seen_mono(fs: Seq<u16>, c: Seq<usize>, d: Seq<usize>)
    requires
        seen_with(fs, c),
        vv_le(c, d),
        c.len() == d.len(),
    ensures
        seen_with(fs, d),
{
    let i = choose|i: int| 0 <= i < c.len() && #[trigger] fs[i] != u16::MAX && fs[i] <= c[i];
    assert(crate::rt::vv::vv_get(c, i) <= crate::rt::vv::vv_get(d, i));
}

// ===== impl FirstSeen =====

impl FirstSeen {
    /// No thread has seen the store yet.
    pub fn new() -> (r: FirstSeen)
        ensures
            r.0@ == Seq::new(MAX_THREADS as nat, |i: int| u16::MAX),
    {
        let mut v: Vec<u16> = Vec::new();
        let mut i: usize = 0;
        while i < MAX_THREADS
            invariant
                i <= MAX_THREADS,
                v@ == Seq::new(i as nat, |k: int| u16::MAX),
            decreases MAX_THREADS - i,
        {
            v.push(u16::MAX);
            i = i + 1;
        }
        FirstSeen(v)
    }

    /// Records that the active thread has seen the store, if it had not.
    pub fn touch(&mut self, threads: &ThreadSet)
        requires
            threads.wf(),
            threads.active is Some,
            threads.max <= MAX_THREADS,
            old(self).0@.len() == MAX_THREADS,
        ensures
            ({
                let a = threads.active->0 as int;
                final(self).0@ == if old(self).0@[a] == u16::MAX {
                    old(self).0@.update(a, (active_causality(*threads)[a] % 0x10000) as u16)
                } else {
                    old(self).0@
                }
            }),
    {
        let a = threads.active.unwrap();
        if self.0[a] == u16::MAX {
            proof {
                assert(threads.threads@[a as int].wf(threads.max as nat));
            }
            let v = threads.active_atomic_version();
            let t = (v % 0x10000) as u16;
            self.0.set(a, t);
        }
    }

    /// Some thread saw the store no later than the active thread's view of
    /// that thread's time.
    pub fn is_seen_by_current(&self, threads: &ThreadSet) -> (r: bool)
        requires
            threads.wf(),
            threads.active is Some,
            threads.max <= MAX_THREADS,
            self.0@.len() == MAX_THREADS,
        ensures
            r == self.seen_by_current(*threads),
    {
        let a = threads.active.unwrap();
        proof {
            assert(threads.threads@[a as int].wf(threads.max as nat));
        }
        let c = &threads.get(a).causality;
        let n = c.len();
        let mut i: usize = 0;
        while i < n
            invariant
                n == c@.len(),
                n <= MAX_THREADS,
                c@ == active_causality(*threads),
                self.0@.len() == MAX_THREADS,
                i <= n,
                forall|k: int| 0 <= k < i ==> !(#[trigger] self.0@[k] != u16::MAX && self.0@[k] <= c@[k]),
            decreases n - i,
        {
            let v = self.0[i];
            if v != u16::MAX && (v as usize) <= c.get_index(i) {
                return true;
            }
            i = i + 1;
        }
        false
    }

    /// The active thread saw the store no later than its last yield.
    pub fn is_seen_before_yield(&self, threads: &ThreadSet) -> (r: bool)
        requires
            threads.wf(),
            threads.active is Some,
            threads.max <= MAX_THREADS,
            self.0@.len() == MAX_THREADS,
        ensures
            r == self.seen_before_yield(*threads),
    {
        let a = threads.active.unwrap();
        let last_yield = match threads.get(a).last_yield {
            Some(v) => v,
            None => {
                return false;
            },
        };
        let v = self.0[a];
        v != u16::MAX && (v as usize) <= last_yield
    }
}

// ===== impl Store =====

impl Store {
    /// An empty store slot: value 0, seen by nobody, carrying no causality.
    pub fn default(max_threads: usize) -> (r: Store)
        requires
            max_threads > 0,
        ensures
            r.value == 0,
            r.sync@ == Seq::new(max_threads as nat, |i: int| 0usize),
            r.first_seen.0@ == Seq::new(MAX_THREADS as nat, |i: int| u16::MAX),
            !r.seq_cst,
    {
        Store {
            value: 0,
            sync: Synchronize::new(max_threads),
            first_seen: FirstSeen::new(),
            seq_cst: false,
        }
    }
}

// ===== impl State =====

impl State {
    /// Everything but the four access clocks is unchanged.
    pub open spec fn same_but_clocks(&self, other: &State) -> bool {
        &&& self.is_mutating == other.is_mutating
        &&& self.last_access == other.last_access
        &&& self.last_non_load_access == other.last_non_load_access
        &&& self.stores == other.stores
        &&& self.cnt == other.cnt
    }

    /// Track an atomic load.
    pub fn track_load(&mut self, threads: &ThreadSet) -> (r: Result<(), Failure>)
        requires
            threads.wf(),
            threads.active is Some,
            old(self).wf(threads.max as nat),
        ensures
            final(self).wf(threads.max as nat),
            final(self).same_but_clocks(old(self)),
            final(self).unsync_loaded_at == old(self).unsync_loaded_at,
            final(self).stored_at == old(self).stored_at,
            final(self).unsync_mut_at == old(self).unsync_mut_at,
            old(self).is_mutating ==> r == Err::<(), Failure>(Failure::AtomicMutating),
            !old(self).is_mutating && !vv_le(old(self).unsync_mut_at@, active_causality(*threads))
                ==> r == Err::<(), Failure>(Failure::CausalityViolation),
            r is Ok <==> !old(self).is_mutating && vv_le(old(self).unsync_mut_at@, active_causality(*threads)),
            r is Ok ==> final(self).loaded_at@ == vv_join(old(self).loaded_at@, active_causality(*threads)),
    {
        if self.is_mutating {
            return Err(Failure::AtomicMutating);
        }
        proof {
            assert(threads.threads@[threads.active->0 as int].wf(threads.max as nat));
        }
        let current = &threads.active().causality;
        if !self.unsync_mut_at.le(current) {
            // Concurrent load and mut accesses
            return Err(Failure::CausalityViolation);
        }
        self.loaded_at.join(current);
        Ok(())
    }

    /// Track an unsynchronized load.
    pub fn track_unsync_load(&mut self, threads: &ThreadSet) -> (r: Result<(), Failure>)
        requires
            threads.wf(),
            threads.active is Some,
            old(self).wf(threads.max as nat),
        ensures
            final(self).wf(threads.max as nat),
            final(self).same_but_clocks(old(self)),
            final(self).loaded_at == old(self).loaded_at,
            final(self).stored_at == old(self).stored_at,
            final(self).unsync_mut_at == old(self).unsync_mut_at,
            old(self).is_mutating ==> r == Err::<(), Failure>(Failure::AtomicMutating),
            r is Ok <==> !old(self).is_mutating && vv_le(old(self).unsync_mut_at@, active_causality(*threads))
                && vv_le(old(self).stored_at@, active_causality(*threads)),
            !old(self).is_mutating && r is Err ==> r == Err::<(), Failure>(Failure::CausalityViolation),
            r is Ok ==> final(self).unsync_loaded_at@ == vv_join(old(self).unsync_loaded_at@, active_causality(*threads)),
    {
        if self.is_mutating {
            return Err(Failure::AtomicMutating);
        }
        proof {
            assert(threads.threads@[threads.active->0 as int].wf(threads.max as nat));
        }
        let current = &threads.active().causality;
        if !self.unsync_mut_at.le(current) {
            // Concurrent `unsync_load` and mut accesses
            return Err(Failure::CausalityViolation);
        }
        if !self.stored_at.le(current) {
            // Concurrent `unsync_load` and atomic store
            return Err(Failure::CausalityViolation);
        }
        self.unsync_loaded_at.join(current);
        Ok(())
    }

    /// Track an atomic store.
    pub fn track_store(&mut self, threads: &ThreadSet) -> (r: Result<(), Failure>)
        requires
            threads.wf(),
            threads.active is Some,
            old(self).wf(threads.max as nat),
        ensures
            final(self).wf(threads.max as nat),
            final(self).same_but_clocks(old(self)),
            final(self).loaded_at == old(self).loaded_at,
            final(self).unsync_loaded_at == old(self).unsync_loaded_at,
            final(self).unsync_mut_at == old(self).unsync_mut_at,
            old(self).is_mutating ==> r == Err::<(), Failure>(Failure::AtomicMutating),
            r is Ok <==> !old(self).is_mutating && vv_le(old(self).unsync_mut_at@, active_causality(*threads))
                && vv_le(old(self).unsync_loaded_at@, active_causality(*threads)),
            !old(self).is_mutating && r is Err ==> r == Err::<(), Failure>(Failure::CausalityViolation),
            r is Ok ==> final(self).stored_at@ == vv_join(old(self).stored_at@, active_causality(*threads)),
    {
        if self.is_mutating {
            return Err(Failure::AtomicMutating);
        }
        proof {
            assert(threads.threads@[threads.active->0 as int].wf(threads.max as nat));
        }
        let current = &threads.active().causality;
        if !self.unsync_mut_at.le(current) {
            // Concurrent atomic store and mut accesses
            return Err(Failure::CausalityViolation);
        }
        if !self.unsync_loaded_at.le(current) {
            // Concurrent `unsync_load` and atomic store
            return Err(Failure::CausalityViolation);
        }
        self.stored_at.join(current);
        Ok(())
    }

    /// Track an unsynchronized mutation: it must happen after every access.
    pub fn track_unsync_mut(&mut self, threads: &ThreadSet) -> (r: Result<(), Failure>)
        requires
            threads.wf(),
            threads.active is Some,
            old(self).wf(threads.max as nat),
        ensures
            final(self).wf(threads.max as nat),
            final(self).same_but_clocks(old(self)),
            final(self).loaded_at == old(self).loaded_at,
            final(self).unsync_loaded_at == old(self).unsync_loaded_at,
            final(self).stored_at == old(self).stored_at,
            old(self).is_mutating ==> r == Err::<(), Failure>(Failure::AtomicMutating),
            r is Ok <==> !old(self).is_mutating && vv_le(old(self).loaded_at@, active_causality(*threads))
                && vv_le(old(self).unsync_loaded_at@, active_causality(*threads))
                && vv_le(old(self).stored_at@, active_causality(*threads))
                && vv_le(old(self).unsync_mut_at@, active_causality(*threads)),
            !old(self).is_mutating && r is Err ==> r == Err::<(), Failure>(Failure::CausalityViolation),
            r is Ok ==> final(self).unsync_mut_at@ == vv_join(old(self).unsync_mut_at@, active_causality(*threads)),
    {
        if self.is_mutating {
            return Err(Failure::AtomicMutating);
        }
        proof {
            assert(threads.threads@[threads.active->0 as int].wf(threads.max as nat));
        }
        let current = &threads.active().causality;
        if !self.loaded_at.le(current) {
            // Concurrent atomic load and unsync mut accesses
            return Err(Failure::CausalityViolation);
        }
        if !self.unsync_loaded_at.le(current) {
            // Concurrent `unsync_load` and unsync mut accesses
            return Err(Failure::CausalityViolation);
        }
        if !self.stored_at.le(current) {
            // Concurrent atomic store and unsync mut accesses
            return Err(Failure::CausalityViolation);
        }
        if !self.unsync_mut_at.le(current) {
            // Concurrent unsync mut accesses
            return Err(Failure::CausalityViolation);
        }
        self.unsync_mut_at.join(current);
        Ok(())
    }

    /// Returns the last dependent access: of a load, the last store or
    /// read-modify-write; of any other access, the last access.
    pub fn last_dependent_access(&self, load: bool) -> (r: Option<Access>)
        ensures
            load ==> access_view(r) == access_view(self.last_non_load_access),
            !load ==> access_view(r) == access_view(self.last_access),
    {
        if load {
            clone_access(&self.last_non_load_access)
        } else {
            clone_access(&self.last_access)
        }
    }

    /// Sets the last dependent access; unless the access is a load, it is
    /// also the last access that is not a load.
    pub fn set_last_access(&mut self, load: bool, path_id: usize, version: &VersionVec)
        requires
            old(self).last_access matches Some(a) ==> a.dpor_vv@.len() == version@.len(),
            old(self).last_non_load_access matches Some(a) ==> a.dpor_vv@.len() == version@.len(),
        ensures
            access_view(final(self).last_access) == Some((path_id, version@)),
            load ==> final(self).last_non_load_access == old(self).last_non_load_access,
            !load ==> access_view(final(self).last_non_load_access) == Some((path_id, version@)),
            final(self).loaded_at == old(self).loaded_at,
            final(self).unsync_loaded_at == old(self).unsync_loaded_at,
            final(self).stored_at == old(self).stored_at,
            final(self).unsync_mut_at == old(self).unsync_mut_at,
            final(self).is_mutating == old(self).is_mutating,
            final(self).stores == old(self).stores,
            final(self).cnt == old(self).cnt,
    {
        Access::set_or_create(&mut self.last_access, path_id, version);
        if !load {
            Access::set_or_create(&mut self.last_non_load_access, path_id, version);
        }
    }
}


impl State {
    /// Records a store of `value` with `ordering` in the next ring slot.
    pub fn store(&mut self, threads: &mut ThreadSet, value: u64, ordering: Ordering) -> (r: Result<(), Failure>)
        requires
            old(self).wf_for(*old(threads)),
        ensures
            final(self).wf_for(*final(threads)),
            r is Err <==> !bump_ok(old(self).cnt),
            r is Err ==> r == Err::<(), Failure>(Failure::StoreOverflow) && *final(self) == *old(self) && *final(threads) == *old(threads),
            r is Ok ==> {
                &&& final(self).cnt == old(self).cnt + 1
                &&& final(self).loaded_at == old(self).loaded_at
                &&& final(self).unsync_loaded_at == old(self).unsync_loaded_at
                &&& final(self).stored_at == old(self).stored_at
                &&& final(self).unsync_mut_at == old(self).unsync_mut_at
                &&& final(self).is_mutating == old(self).is_mutating
                &&& final(self).last_access == old(self).last_access
                &&& final(self).last_non_load_access == old(self).last_non_load_access
                &&& final(self).stores@.len() == old(self).stores@.len()
                &&& store_is(final(self).stores@[old(self).next_slot()], value, ordering == Ordering::SeqCst,
                    if releases(ordering) { active_causality(*old(threads)) } else { zero_clock(*old(threads)) },
                    fresh_seen(*final(threads)))
                &&& forall|k: int| 0 <= k < old(self).stores@.len() && k != old(self).next_slot() ==> final(self).stores@[k] == old(self).stores@[k]
                &&& ordering == Ordering::SeqCst ==> seq_cst_done(*old(threads), *final(threads))
                &&& ordering != Ordering::SeqCst ==> *final(threads) == *old(threads)
            },
    {
        if self.cnt == u16::MAX {
            return Err(Failure::StoreOverflow);
        }
        let index = index(self.cnt);
        // Increment the count
        self.cnt = self.cnt + 1;
        let mut sync = Synchronize::new(threads.max());
        sync.sync_store(threads, ordering);
        proof {
            lemma_join_zeros(active_causality(*old(threads)));
        }
        let mut first_seen = FirstSeen::new();
        first_seen.touch(threads);
        // Track the store
        self.stores.set(index, Store { value, sync, first_seen, seq_cst: is_seq_cst(ordering) });
        Ok(())
    }
}

impl State {
    /// A new cell holding `value`: the creation counts as an unsynchronized
    /// mutation, and the value as a release store by the active thread.
    pub fn new(threads: &mut ThreadSet, value: u64) -> (r: State)
        requires
            old(threads).wf(),
            old(threads).active is Some,
            old(threads).max <= MAX_THREADS,
        ensures
            r.inv_for(*final(threads)),
            *final(threads) == *old(threads),
            r.cnt == 1,
            !r.is_mutating,
            r.last_access is None,
            r.last_non_load_access is None,
            r.loaded_at@ == zero_clock(*old(threads)),
            r.unsync_loaded_at@ == zero_clock(*old(threads)),
            r.stored_at@ == zero_clock(*old(threads)),
            r.unsync_mut_at@ == active_causality(*old(threads)),
            store_is(r.stores@[0], value, false, active_causality(*old(threads)), fresh_seen(*old(threads))),
    {
        let max = threads.max();
        let mut stores: Vec<Store> = Vec::new();
        let mut i: usize = 0;
        while i < MAX_ATOMIC_HISTORY
            invariant
                i <= MAX_ATOMIC_HISTORY,
                max == threads.max,
                max > 0,
                stores@.len() == i,
                forall|k: int| 0 <= k < i ==> (#[trigger] stores@[k]).sync@.len() == max
                    && stores@[k].first_seen.0@.len() == MAX_THREADS,
            decreases MAX_ATOMIC_HISTORY - i,
        {
            stores.push(Store::default(max));
            i = i + 1;
        }
        let mut state = State {
            loaded_at: VersionVec::new(max),
            unsync_loaded_at: VersionVec::new(max),
            stored_at: VersionVec::new(max),
            unsync_mut_at: VersionVec::new(max),
            is_mutating: false,
            last_access: None,
            last_non_load_access: None,
            stores,
            cnt: 0,
        };
        proof {
            lemma_active_wf(*threads);
            lemma_zeros_le(active_causality(*threads));
            lemma_join_zeros(active_causality(*threads));
        }
        // All subsequent accesses must happen-after.
        let _ = state.track_unsync_mut(threads);
        // Store the initial value; the order should not matter as operations
        // on the cell already include the causality of its creation.
        let _ = state.store(threads, value, Ordering::Release);
        state
    }
}

impl State {
    /// Number of stores the cell remembers.
    pub fn store_count(&self) -> (r: usize)
        ensures
            r == self.stored(),
    {
        if (self.cnt as usize) < MAX_ATOMIC_HISTORY {
            self.cnt as usize
        } else {
            MAX_ATOMIC_HISTORY
        }
    }

    /// The ring slot of the `i`-th most recent store.
    pub fn slot_of_newest(&self, i: usize) -> (r: usize)
        requires
            i < self.cnt,
        ensures
            r == self.newest_slot(i as int),
            r < MAX_ATOMIC_HISTORY,
    {
        index(self.cnt - 1 - (i as u16))
    }
}

/// `i` as a byte.
fn small_index(i: usize) -> (r: u8)
    requires
        i < 256,
    ensures
        r == i,
{
    i as u8
}

impl State {
    /// Find all stores that could be returned by an atomic load: every store
    /// outside the loading thread's causality, and the newest store within
    /// it. Returns how many stores back each candidate is, newest first.
    pub fn match_load_to_stores(&self, threads: &ThreadSet, ordering: Ordering) -> (r: Vec<u8>)
        requires
            self.inv_for(*threads),
        ensures
            is_match_count(*self, *threads, ordering, r@.len()),
            forall|i: int| 0 <= i < r@.len() ==> r@[i] == i,
    {
        let mut dst: Vec<u8> = Vec::new();
        let mut in_causality = false;
        let mut first = true;
        let count = self.store_count();
        let mut i: usize = 0;
        let ghost mut gi: nat = 0;
        while i < count
            invariant
                self.inv_for(*threads),
                count == self.stored(),
                i <= count,
                count <= MAX_ATOMIC_HISTORY,
                dst@.len() == i,
                forall|k: int| 0 <= k < i ==> dst@[k] == k,
                first == (i == 0),
                in_causality == exists|j: nat| j < i && #[trigger] load_flag(*self, *threads, ordering, j),
                gi == i,
                forall|k: nat| 1 <= k < i ==> !#[trigger] load_stop(*self, *threads, ordering, k),
            decreases count - i,
        {
            let idx = self.slot_of_newest(i);
            let store = &self.stores[idx];
            let ret = in_causality;
            if store.first_seen.is_seen_before_yield(threads) {
                let take = first;
                in_causality = true;
                first = false;
                if !take {
                    return dst;
                }
                dst.push(small_index(i));
                i = i + 1;
                proof {
                    assert(load_flag(*self, *threads, ordering, 0));
                    gi = gi + 1;
                }
            } else {
                first = false;
                let seq = is_seq_cst(ordering) && store.seq_cst;
                let seen = store.first_seen.is_seen_by_current(threads);
                in_causality = in_causality || seq || seen;
                if ret {
                    return dst;
                }
                dst.push(small_index(i));
                i = i + 1;
                proof {
                    assert(load_flag(*self, *threads, ordering, gi) == (seq || seen));
                    gi = gi + 1;
                }
            }
        }
        dst
    }
}

/// `true` for sequentially consistent ordering.
pub fn is_seq_cst(order: Ordering) -> (r: bool)
    ensures
        r == (order == Ordering::SeqCst),
{
    match order {
        Ordering::SeqCst => true,
        _ => false,
    }
}

/// The ring slot of the store with number `cnt`.
pub fn index(cnt: u16) -> (r: usize)
    ensures
        r == spec_index(cnt as int),
{
    (cnt as usize) % MAX_ATOMIC_HISTORY
}

/// The slots `start..end` that, read from `start` to `end` and then from 0
/// to `start`, give the remembered stores from oldest to newest.
pub fn range(cnt: u16) -> (r: (usize, usize))
    ensures
        r.0 == spec_index(if cnt >= MAX_ATOMIC_HISTORY { cnt - MAX_ATOMIC_HISTORY } else { 0 }),
        r.1 == if stored_count(cnt as int) == 0 || stored_count(cnt as int) == MAX_ATOMIC_HISTORY {
            MAX_ATOMIC_HISTORY as int
        } else {
            stored_count(cnt as int)
        },
        r.0 <= r.1,
{
    let start = index(cnt.saturating_sub(MAX_ATOMIC_HISTORY as u16));
    let mut end = index(if cnt < MAX_ATOMIC_HISTORY as u16 { cnt } else { MAX_ATOMIC_HISTORY as u16 });
    if end == 0 {
        end = MAX_ATOMIC_HISTORY;
    }
    (start, end)
}

/// The causality the active thread ends with after synchronizing, with
/// `ord`, with a store that released `v`, starting from `c`.
pub open spec fn acquired_clock(c: Seq<usize>, v: Seq<usize>, sc: Seq<usize>, ord: Ordering) -> Seq<usize> {
    if ord == Ordering::SeqCst {
        vv_join(vv_join(c, v), sc)
    } else if ord == Ordering::Acquire || ord == Ordering::AcqRel {
        vv_join(c, v)
    } else {
        c
    }
}

/// The effect of a load of `obj` with `ord` that read the store `ago` stores
/// back, of value `v`: the thread's clock advanced, the load is tracked, the
/// thread has seen the store, and it acquired the store's causality as `ord`
/// says.
pub open spec fn loaded(old: Execution, new: Execution, obj: Object, ord: Ordering, ago: usize, v: u64) -> bool {
    let s = atomic_state(old, obj);
    let slot = slot_back(s, ago);
    let st = s.stores@[slot];
    let c1 = ticked(old.threads);
    let sc = old.threads.seq_cst_causality@;
    let c2 = acquired_clock(c1, st.sync@, sc, ord);
    &&& ago < s.stored()
    &&& v == st.value
    &&& new.objects.entries@[obj.idx()] is Atomic
    &&& load_tracked(s, atomic_state(new, obj), slot, old.threads, c1)
    &&& objects_changed(old, new, obj, new.objects.entries@[obj.idx()])
    &&& active_clock(old.threads, new.threads, c2, if ord == Ordering::SeqCst { c2 } else { sc })
}

/// A load of `obj` with `ord` read some recent store, of value `v`.
pub open spec fn loaded_some(old: Execution, new: Execution, obj: Object, ord: Ordering, v: u64) -> bool {
    exists|ago: usize| #[trigger] loaded(old, new, obj, ord, ago, v)
}

/// The position of the path of `e` in its branch points.
pub open spec fn path_pos(e: Execution) -> int {
    e.path.pos as int
}

/// How many stores back the recorded load branch point `l` reads.
pub open spec fn recorded_ago(l: path::Load) -> int {
    l.values@[l.pos as int] as int
}

/// `ago` as an index of the cell's stores.
pub open spec fn ago_index(ago: int) -> usize {
    ago as usize
}

/// A load of `obj` with `ord` replays the recorded branch point of the
/// path: it reads the store that the record picks, that many stores back
/// from the newest, and the path moves past the record. A record that is
/// not a load, or that picks a store the cell does not remember, makes the
/// load fail as nondeterministic.
pub open spec fn replayed_load(old: Execution, new: Execution, obj: Object, ord: Ordering, r: Result<u64, Failure>) -> bool {
    let p = path_pos(old);
    &&& !(old.path.branches@[p] is Load) ==> r == Err::<u64, Failure>(Failure::Nondeterministic)
    &&& old.path.branches@[p] matches path::Entry::Load(l) ==> {
        let ago = recorded_ago(l);
        &&& ago < atomic_state(old, obj).stored() ==> {
            &&& r is Ok
            &&& r matches Ok(v) && loaded(old, new, obj, ord, ago_index(ago), v)
            &&& path_pos(new) == p + 1
        }
        &&& ago >= atomic_state(old, obj).stored() ==> r == Err::<u64, Failure>(Failure::Nondeterministic)
    }
}

impl Atomic {
    /// A load from the cell with `ord`: a synchronization point, then the
    /// load is tracked (it must not race with an unsynchronized mutation).
    /// At a new branch point, the stores it may read are offered by the
    /// path: every store outside the thread's causality and the newest one
    /// within it; the path picks one (the newest first). The thread sees
    /// that store and acquires its causality as `ord` says. The caller
    /// branches on the cell with a `Load` action first.
    pub fn load(&self, execution: &mut Execution, ord: Ordering, trace: &Trace) -> (r: Result<u64, Failure>)
        requires
            old(execution).running(),
            is_atomic(*old(execution), self.obj),
            active_causality(old(execution).threads)[old(execution).threads.active_index()] < usize::MAX,
        ensures
            final(execution).running(),
            atomic_state(*old(execution), self.obj).is_mutating ==> r == Err::<u64, Failure>(Failure::AtomicMutating),
            !atomic_state(*old(execution), self.obj).is_mutating && !vv_le(
                atomic_state(*old(execution), self.obj).unsync_mut_at@,
                ticked(old(execution).threads),
            ) ==> r == Err::<u64, Failure>(Failure::CausalityViolation),
            r is Err ==> r == Err::<u64, Failure>(Failure::AtomicMutating) || r == Err::<u64, Failure>(
                Failure::CausalityViolation,
            ) || r == Err::<u64, Failure>(Failure::BranchLimit) || r == Err::<u64, Failure>(Failure::Nondeterministic),
            r matches Ok(v) ==> loaded_some(*old(execution), *final(execution), self.obj, ord, v),
            old(execution).path.spec_is_traversed() && !atomic_state(*old(execution), self.obj).is_mutating && vv_le(
                atomic_state(*old(execution), self.obj).unsync_mut_at@,
                ticked(old(execution).threads),
            ) ==> {
                &&& r is Ok <==> old(execution).path.branches@.len() < old(execution).path.max_branches
                &&& r matches Ok(v) ==> loaded(*old(execution), *final(execution), self.obj, ord, 0, v)
                &&& r is Ok ==> load_offered(
                    atomic_state(*old(execution), self.obj),
                    old(execution).threads,
                    final(execution).path.branches@.last(),
                    ord == Ordering::SeqCst,
                )
            },
            !old(execution).path.spec_is_traversed() && !atomic_state(*old(execution), self.obj).is_mutating && vv_le(
                atomic_state(*old(execution), self.obj).unsync_mut_at@,
                ticked(old(execution).threads),
            ) ==> replayed_load(*old(execution), *final(execution), self.obj, ord, r),
    {
        let ghost old_e = *execution;
        let idx = self.obj.index;
        execution.synchronize();
        let ghost ticked_e = *execution;
        // A load counts as a read access to the underlying memory cell.
        let tracked_res = match &mut execution.objects.entries[idx] {
            Entry::Atomic(state) => state.track_load(&execution.threads),
            _ => Ok(()),
        };
        proof {
            lemma_entry_update(ticked_e, *execution, self.obj.idx());
        }
        if tracked_res.is_err() {
            return tracked_res.map(|u: ()| 0u64);
        }
        let ghost load_e = *execution;
        let ghost mut seed_v: Seq<u8> = Seq::empty();
        // If necessary, generate the list of stores to permute through
        if execution.path.is_traversed() {
            let seed = match &execution.objects.entries[idx] {
                Entry::Atomic(state) => state.match_load_to_stores(&execution.threads, ord),
                _ => Vec::new(),
            };
            proof {
                seed_v = seed@;
                let ls = atomic_state(load_e, self.obj);
                lemma_match_count_at(ls, load_e.threads, ord, seed_v.len());
                assert(ls.stores == atomic_state(old_e, self.obj).stores);
                assert(ls.cnt == atomic_state(old_e, self.obj).cnt);
                assert(active_causality(load_e.threads) == ticked(old_e.threads));
                assert(load_e.threads.active_thread().last_yield == old_e.threads.active_thread().last_yield);
            }
            let pushed = execution.push_load(trace, seed.as_slice());
            if pushed.is_err() {
                return Err(Failure::BranchLimit);
            }
            proof {
                assert(load_offered(atomic_state(old_e, self.obj), old_e.threads, execution.path.branches@.last(), ord == Ordering::SeqCst));
            }
        }
        let ghost pushed_e = *execution;
        // The store to return from this load: the `ago`-th most recent one.
        let ago = match execution.branch_load(trace) {
            Ok(v) => v,
            Err(e) => {
                return Err(e);
            },
        };
        proof {
            if old_e.path.spec_is_traversed() {
                assert(seed_v.len() >= 1);
                assert(seed_v[0] == 0);
                assert(ago == 0);
            }
        }
        let count = match &execution.objects.entries[idx] {
            Entry::Atomic(state) => state.store_count(),
            _ => 0,
        };
        if ago >= count {
            // The recorded path names a store this cell does not have.
            return Err(Failure::Nondeterministic);
        }
        let ghost pre = *execution;
        let mut value: u64 = 0;
        match &mut execution.objects.entries[idx] {
            Entry::Atomic(state) => {
                let slot = state.slot_of_newest(ago);
                // Track that the thread is loading this store
                state.stores[slot].first_seen.touch(&execution.threads);
                state.stores[slot].sync.sync_load(&mut execution.threads, ord);
                value = state.stores[slot].value;
            },
            _ => {},
        }
        proof {
            lemma_entry_update(pre, *execution, self.obj.idx());
            let s = atomic_state(old_e, self.obj);
            let slot = slot_back(s, ago);
            assert(atomic_state(pre, self.obj).stores == s.stores);
            assert(atomic_state(pre, self.obj).cnt == s.cnt);
            assert(execution.objects.entries@ =~= old_e.objects.entries@.update(self.obj.idx(), execution.objects.entries@[self.obj.idx()]));
            assert(load_tracked(s, atomic_state(*execution, self.obj), slot, old_e.threads, ticked(old_e.threads)));
            assert(loaded(old_e, *execution, self.obj, ord, ago, value));
            assert(loaded_some(old_e, *execution, self.obj, ord, value));
        }
        Ok(value)
    }
}

/// The threads after a store with `ord` by the active thread, starting from
/// `old` with active causality `c`: a sequentially consistent store
/// synchronizes with the sequential-consistency clock.
pub open spec fn store_threads(old: ThreadSet, new: ThreadSet, c: Seq<usize>, ord: Ordering) -> bool {
    let j = vv_join(c, old.seq_cst_causality@);
    if ord == Ordering::SeqCst {
        active_clock(old, new, j, j)
    } else {
        active_clock(old, new, c, old.seq_cst_causality@)
    }
}

/// The effect of a store of `value` to `obj` with `ord`: the thread's clock
/// advanced, the store is tracked, and the cell holds a new newest store
/// that only the storing thread has seen, releasing its causality when
/// `ord` releases.
pub open spec fn stored_value(old: Execution, new: Execution, obj: Object, ord: Ordering, value: u64) -> bool {
    let s = atomic_state(old, obj);
    let ns = atomic_state(new, obj);
    let c1 = ticked(old.threads);
    &&& new.objects.entries@[obj.idx()] is Atomic
    &&& objects_changed(old, new, obj, new.objects.entries@[obj.idx()])
    &&& new.path == old.path
    &&& store_threads(old.threads, new.threads, c1, ord)
    &&& ns.stored_at@ == vv_join(s.stored_at@, c1)
    &&& ns.loaded_at == s.loaded_at && ns.unsync_loaded_at == s.unsync_loaded_at
    &&& ns.unsync_mut_at == s.unsync_mut_at && ns.is_mutating == s.is_mutating
    &&& ns.last_access == s.last_access
    &&& ns.last_non_load_access == s.last_non_load_access
    &&& new_store(
        s,
        ns,
        value,
        ord == Ordering::SeqCst,
        if releases(ord) { c1 } else { zero_clock(old.threads) },
        old.threads,
        active_causality(new.threads),
    )
}

impl Atomic {
    /// A store of `value` with `ord`: a synchronization point, then the
    /// store is tracked (it must not race with an unsynchronized access)
    /// and recorded. The caller branches on the cell with a `Store` action
    /// first.
    pub fn store(&self, execution: &mut Execution, value: u64, ord: Ordering) -> (r: Result<(), Failure>)
        requires
            old(execution).running(),
            is_atomic(*old(execution), self.obj),
            active_causality(old(execution).threads)[old(execution).threads.active_index()] < usize::MAX,
        ensures
            final(execution).running(),
            ({
                let s = atomic_state(*old(execution), self.obj);
                let c1 = ticked(old(execution).threads);
                &&& s.is_mutating ==> r == Err::<(), Failure>(Failure::AtomicMutating)
                &&& !s.is_mutating && !(vv_le(s.unsync_mut_at@, c1) && vv_le(s.unsync_loaded_at@, c1))
                    ==> r == Err::<(), Failure>(Failure::CausalityViolation)
                &&& !s.is_mutating && vv_le(s.unsync_mut_at@, c1) && vv_le(s.unsync_loaded_at@, c1) ==> (r is Ok
                    <==> bump_ok(s.cnt))
                &&& r is Err ==> r == Err::<(), Failure>(Failure::AtomicMutating) || r == Err::<(), Failure>(
                    Failure::CausalityViolation,
                ) || r == Err::<(), Failure>(Failure::StoreOverflow)
            }),
            r is Ok ==> stored_value(*old(execution), *final(execution), self.obj, ord, value),
    {
        let ghost old_e = *execution;
        let idx = self.obj.index;
        execution.synchronize();
        let ghost ticked_e = *execution;
        let res = match &mut execution.objects.entries[idx] {
            Entry::Atomic(state) => {
                // A store counts as an access to the underlying memory cell.
                match state.track_store(&execution.threads) {
                    Ok(()) => state.store(&mut execution.threads, value, ord),
                    Err(e) => Err(e),
                }
            },
            _ => Ok(()),
        };
        proof {
            lemma_entry_update(ticked_e, *execution, self.obj.idx());
            if res is Ok {
                assert(execution.objects.entries@ =~= old_e.objects.entries@.update(self.obj.idx(), execution.objects.entries@[self.obj.idx()]));
                let c1 = ticked(old_e.threads);
                let s = atomic_state(old_e, self.obj);
                assert(store_threads(old_e.threads, execution.threads, c1, ord));
                assert(atomic_state(*execution, self.obj).stored_at@ == vv_join(s.stored_at@, c1));
                assert(stored_value(old_e, *execution, self.obj, ord, value));
            }
        }
        res
    }
}

impl Atomic {
    /// A read-modify-write: a synchronization point; the load of the newest
    /// value is tracked and the thread sees that store; `f` computes the
    /// next value from it. On success the store of the next value is
    /// tracked, the thread synchronizes with the loaded store as `success`
    /// says, and the next value is stored with `success`; on failure it
    /// synchronizes as `failure` says. Returns the loaded value, or the
    /// error of `f`. The caller branches on the cell with an `Rmw` action
    /// first.
    pub fn rmw<E, F>(&self, execution: &mut Execution, success: Ordering, failure: Ordering, f: F) -> (r: Result<
        Result<u64, E>,
        Failure,
    >) where F: FnOnce(u64) -> Result<u64, E>
        requires
            old(execution).running(),
            is_atomic(*old(execution), self.obj),
            active_causality(old(execution).threads)[old(execution).threads.active_index()] < usize::MAX,
            forall|x: u64| f.requires((x,)),
        ensures
            final(execution).running(),
            final(execution).path == old(execution).path,
            ({
                let s = atomic_state(*old(execution), self.obj);
                let ns = atomic_state(*final(execution), self.obj);
                let c1 = ticked(old(execution).threads);
                let prev = s.stores@[s.last_slot()].value;
                &&& s.is_mutating ==> r == Err::<Result<u64, E>, Failure>(Failure::AtomicMutating)
                &&& !s.is_mutating && !vv_le(s.unsync_mut_at@, c1) ==> r == Err::<Result<u64, E>, Failure>(
                    Failure::CausalityViolation,
                )
                &&& !s.is_mutating && vv_le(s.unsync_mut_at@, c1) ==> (r is Ok || r == Err::<Result<u64, E>, Failure>(
                    Failure::CausalityViolation,
                ) || r == Err::<Result<u64, E>, Failure>(Failure::StoreOverflow))
                &&& !s.is_mutating && vv_le(s.unsync_mut_at@, c1) && vv_le(s.unsync_loaded_at@, c1) && bump_ok(s.cnt)
                    ==> r is Ok
                &&& r == Err::<Result<u64, E>, Failure>(Failure::StoreOverflow) ==> !bump_ok(s.cnt)
                &&& r == Err::<Result<u64, E>, Failure>(Failure::CausalityViolation) ==> !s.is_mutating && (!vv_le(
                    s.unsync_mut_at@,
                    c1,
                ) || !vv_le(s.unsync_loaded_at@, c1))
                &&& r matches Ok(res) ==> match res {
                    Ok(p) => {
                        &&& p == prev
                        &&& ns.cnt == s.cnt + 1
                        &&& f.ensures((prev,), Ok::<u64, E>(ns.stores@[s.next_slot()].value))
                    },
                    Err(e) => {
                        &&& f.ensures((prev,), Err::<u64, E>(e))
                        &&& ns.cnt == s.cnt
                    },
                }
            }),
            // The thread synchronizes with the store it read: an acquiring
            // ordering joins the causality that store released.
            ({
                let s = atomic_state(*old(execution), self.obj);
                let c1 = ticked(old(execution).threads);
                let v = s.stores@[s.last_slot()].sync@;
                let sc = old(execution).threads.seq_cst_causality@;
                &&& r matches Ok(Ok(_)) ==> active_causality(final(execution).threads) == acquired_clock(
                    c1,
                    v,
                    sc,
                    success,
                )
                &&& r matches Ok(Err(_)) ==> active_causality(final(execution).threads) == acquired_clock(
                    c1,
                    v,
                    sc,
                    failure,
                )
            }),
    {
        let ghost old_e = *execution;
        let idx = self.obj.index;
        execution.synchronize();
        let ghost ticked_e = *execution;
        let res: Result<Result<u64, E>, Failure> = match &mut execution.objects.entries[idx] {
            Entry::Atomic(state) => {
                let slot = index(state.cnt - 1);
                // Track the load operation happened on the cell.
                match state.track_load(&execution.threads) {
                    Err(e) => Err(e),
                    Ok(()) => {
                        // Track that the thread has seen the specific store
                        state.stores[slot].first_seen.touch(&execution.threads);
                        let prev = state.stores[slot].value;
                        match f(prev) {
                            Ok(next) => {
                                // Track a store operation happened
                                match state.track_store(&execution.threads) {
                                    Err(e) => Err(e),
                                    Ok(()) => {
                                        // Synchronize the load
                                        state.stores[slot].sync.sync_load(&mut execution.threads, success);
                                        // Store the new value
                                        match state.store(&mut execution.threads, next, success) {
                                            Ok(()) => Ok(Ok(prev)),
                                            Err(e) => Err(e),
                                        }
                                    },
                                }
                            },
                            Err(e) => {
                                state.stores[slot].sync.sync_load(&mut execution.threads, failure);
                                Ok(Err(e))
                            },
                        }
                    },
                }
            },
            _ => Err(Failure::AtomicMutating),
        };
        proof {
            lemma_entry_update(ticked_e, *execution, self.obj.idx());
        }
        res
    }

    /// An atomic fence with `order`: the active thread acquires the
    /// causality released by every store of every atomic cell that it has
    /// seen. Only acquire fences are modelled.
    pub fn fence(execution: &mut Execution, order: Ordering)
        requires
            old(execution).running(),
            order == Ordering::Acquire,
            active_causality(old(execution).threads)[old(execution).threads.active_index()] < usize::MAX,
        ensures
            final(execution).running(),
            final(execution).path == old(execution).path,
            final(execution).objects == old(execution).objects,
            final(execution).same_config(old(execution)),
            ({
                let c1 = ticked(old(execution).threads);
                let c = active_causality(final(execution).threads);
                &&& active_clock(old(execution).threads, final(execution).threads, c, old(execution).threads.seq_cst_causality@)
                &&& vv_le(c1, c)
                &&& fence_acquired(old(execution).objects.entries@, c1, c)
            }),
    {
        Self::acquire_seen(execution);
    }

    /// A synchronization point, after which the active thread acquires the
    /// causality released by every store of every atomic cell that it has
    /// seen, visiting the stores of each cell from the oldest to the newest.
    fn acquire_seen(execution: &mut Execution)
        requires
            old(execution).running(),
            active_causality(old(execution).threads)[old(execution).threads.active_index()] < usize::MAX,
        ensures
            final(execution).running(),
            final(execution).path == old(execution).path,
            final(execution).objects == old(execution).objects,
            final(execution).same_config(old(execution)),
            ({
                let c1 = ticked(old(execution).threads);
                let c = active_causality(final(execution).threads);
                &&& active_clock(old(execution).threads, final(execution).threads, c, old(execution).threads.seq_cst_causality@)
                &&& vv_le(c1, c)
                &&& fence_acquired(old(execution).objects.entries@, c1, c)
            }),
    {
        let ghost old_e = *execution;
        execution.synchronize();
        proof {
            lemma_le_partial_order(ticked(old_e.threads), ticked(old_e.threads), ticked(old_e.threads));
        }
        let n = execution.objects.entries.len();
        let mut i: usize = 0;
        while i < n
            invariant
                old_e.running(),
                execution.running(),
                n == execution.objects.entries@.len(),
                i <= n,
                execution.path == old_e.path,
                execution.objects == old_e.objects,
                execution.same_config(&old_e),
                active_clock(old_e.threads, execution.threads, active_causality(execution.threads), old_e.threads.seq_cst_causality@),
                vv_le(ticked(old_e.threads), active_causality(execution.threads)),
                fence_acquired(execution.objects.entries@.take(i as int), ticked(old_e.threads), active_causality(execution.threads)),
            decreases n - i,
        {
            let count = match &execution.objects.entries[i] {
                Entry::Atomic(state) => state.store_count(),
                _ => 0,
            };
            let mut q: usize = 0;
            while q < count
                invariant
                    old_e.running(),
                    execution.running(),
                    n == execution.objects.entries@.len(),
                    i < n,
                    q <= count,
                    execution.objects.entries@[i as int] is Atomic ==> count == execution.objects.entries@[i as int]->Atomic_0.stored(),
                    !(execution.objects.entries@[i as int] is Atomic) ==> count == 0,
                    execution.path == old_e.path,
                    execution.objects == old_e.objects,
                    execution.same_config(&old_e),
                    active_clock(old_e.threads, execution.threads, active_causality(execution.threads), old_e.threads.seq_cst_causality@),
                    vv_le(ticked(old_e.threads), active_causality(execution.threads)),
                    fence_acquired(execution.objects.entries@.take(i as int), ticked(old_e.threads), active_causality(execution.threads)),
                    forall|k: int| count - q <= k < count ==> store_acquired(
                        #[trigger] store_back(execution.objects.entries@[i as int]->Atomic_0, k),
                        ticked(old_e.threads),
                        active_causality(execution.threads),
                    ),
                decreases count - q,
            {
                let ago = count - 1 - q;
                let ghost before = *execution;
                let sync = match &execution.objects.entries[i] {
                    Entry::Atomic(state) => {
                        let slot = state.slot_of_newest(ago);
                        if state.stores[slot].first_seen.is_seen_by_current(&execution.threads) {
                            Some(state.stores[slot].sync.clone_bump())
                        } else {
                            None
                        }
                    },
                    _ => None,
                };
                match sync {
                    Some(mut sync) => {
                        sync.acquire(&mut execution.threads);
                    },
                    None => {},
                }
                proof {
                    let c1 = ticked(old_e.threads);
                    let cb = active_causality(before.threads);
                    let ca = active_causality(execution.threads);
                    let s = execution.objects.entries@[i as int]->Atomic_0;
                    let st = store_back(s, ago as int);
                    lemma_active_wf(before.threads);
                    if sync is Some {
                        lemma_join_least_upper_bound(cb, st.sync@, cb);
                        assert(ca == vv_join(cb, st.sync@));
                    } else {
                        lemma_le_partial_order(cb, cb, cb);
                    }
                    assert(vv_le(cb, ca));
                    lemma_le_partial_order(c1, cb, ca);
                    if seen_with(st.first_seen.0@, c1) {
                        lemma_seen_mono(st.first_seen.0@, c1, cb);
                        assert(sync is Some);
                    }
                    assert forall|k: int| count - (q + 1) <= k < count implies store_acquired(#[trigger] store_back(s, k), c1, ca) by {
                        let st2 = store_back(s, k);
                        if k != ago && seen_with(st2.first_seen.0@, c1) {
                            lemma_le_partial_order(st2.sync@, cb, ca);
                        }
                    }
                    assert forall|i2: int, k: int|
                        0 <= i2 < execution.objects.entries@.take(i as int).len() && execution.objects.entries@.take(i as int)[i2] is Atomic
                            && 0 <= k < execution.objects.entries@.take(i as int)[i2]->Atomic_0.stored() implies store_acquired(
                        #[trigger] store_back(execution.objects.entries@.take(i as int)[i2]->Atomic_0, k),
                        c1,
                        ca,
                    ) by {
                        let st2 = store_back(execution.objects.entries@.take(i as int)[i2]->Atomic_0, k);
                        if seen_with(st2.first_seen.0@, c1) {
                            lemma_le_partial_order(st2.sync@, cb, ca);
                        }
                    }
                }
                q = q + 1;
            }
            proof {
                let c1 = ticked(old_e.threads);
                let ca = active_causality(execution.threads);
                let es = execution.objects.entries@;
                assert forall|i2: int, k: int|
                    0 <= i2 < es.take(i + 1).len() && es.take(i + 1)[i2] is Atomic
                        && 0 <= k < es.take(i + 1)[i2]->Atomic_0.stored() implies store_acquired(
                    #[trigger] store_back(es.take(i + 1)[i2]->Atomic_0, k),
                    c1,
                    ca,
                ) by {
                    if i2 < i {
                        assert(es.take(i + 1)[i2] == es.take(i as int)[i2]);
                    }
                }
            }
            i = i + 1;
        }
        proof {
            assert(execution.objects.entries@.take(n as int) =~= execution.objects.entries@);
        }
    }
}

/// What an atomic store with a releasing ordering hands to a load with an
/// acquiring ordering that reads it, in the same execution: the load
/// returns the stored value, and every event of the storing thread up to
/// the store happens before the loading thread after the load. The store
/// read is the one the store created, still in its slot of the cell's
/// history.
pub proof fn lemma_release_store_acquire_load(
    e0: Execution,
    e1: Execution,
    e2: Execution,
    e3: Execution,
    obj: Object,
    store_ord: Ordering,
    load_ord: Ordering,
    value: u64,
    ago: usize,
    read: u64,
)
    requires
        e0.running(),
        e2.running(),
        e2.same_config(&e0),
        stored_value(e0, e1, obj, store_ord, value),
        releases(store_ord),
        loaded(e2, e3, obj, load_ord, ago, read),
        crate::rt::synchronize::acquires(load_ord),
        atomic_state(e2, obj).stores@[slot_back(atomic_state(e2, obj), ago)] == atomic_state(e1, obj).stores@[atomic_state(
            e0,
            obj,
        ).next_slot()],
    ensures
        read == value,
        vv_le(ticked(e0.threads), active_causality(e3.threads)),
{
    let st = atomic_state(e2, obj).stores@[slot_back(atomic_state(e2, obj), ago)];
    let c1 = ticked(e0.threads);
    let c2 = ticked(e2.threads);
    let sc = e2.threads.seq_cst_causality@;
    lemma_active_wf(e0.threads);
    lemma_active_wf(e2.threads);
    assert(st.sync@ == c1);
    let j = vv_join(c2, c1);
    lemma_join_least_upper_bound(c2, c1, j);
    lemma_join_least_upper_bound(j, sc, j);
    lemma_le_partial_order(c1, j, vv_join(j, sc));
    assert(active_causality(e3.threads) == acquired_clock(c2, st.sync@, sc, load_ord));
}

/// What an atomic store with a releasing ordering hands to a successful
/// read-modify-write with an acquiring ordering that reads it, in the same
/// execution: the read-modify-write reads the stored value, and every event
/// of the storing thread up to the store happens before the thread of the
/// read-modify-write after it. The store read is the newest one of the
/// cell, the one the store created.
pub proof fn lemma_release_store_acquire_rmw(
    e0: Execution,
    e1: Execution,
    e2: Execution,
    e3: Execution,
    obj: Object,
    store_ord: Ordering,
    rmw_ord: Ordering,
    value: u64,
)
    requires
        e0.running(),
        e2.running(),
        e2.same_config(&e0),
        stored_value(e0, e1, obj, store_ord, value),
        releases(store_ord),
        crate::rt::synchronize::acquires(rmw_ord),
        atomic_state(e2, obj).stores@[atomic_state(e2, obj).last_slot()] == atomic_state(e1, obj).stores@[atomic_state(
            e0,
            obj,
        ).next_slot()],
        active_causality(e3.threads) == acquired_clock(
            ticked(e2.threads),
            atomic_state(e2, obj).stores@[atomic_state(e2, obj).last_slot()].sync@,
            e2.threads.seq_cst_causality@,
            rmw_ord,
        ),
    ensures
        atomic_state(e2, obj).stores@[atomic_state(e2, obj).last_slot()].value == value,
        vv_le(ticked(e0.threads), active_causality(e3.threads)),
{
    let st = atomic_state(e2, obj).stores@[atomic_state(e2, obj).last_slot()];
    let c1 = ticked(e0.threads);
    let c2 = ticked(e2.threads);
    let sc = e2.threads.seq_cst_causality@;
    lemma_active_wf(e0.threads);
    lemma_active_wf(e2.threads);
    assert(st.sync@ == c1);
    let j = vv_join(c2, c1);
    lemma_join_least_upper_bound(c2, c1, j);
    lemma_join_least_upper_bound(j, sc, j);
    lemma_le_partial_order(c1, j, vv_join(j, sc));
}

/// The number of stores a load may read depends only on the cell's stores
/// and on the loading thread's clock and last yield.
proof fn lemma_match_count_at(s: State, ts: ThreadSet, ord: Ordering, n: nat)
    requires
        ts.active is Some,
    ensures
        is_match_count(s, ts, ord, n) == match_count_at(
            s.stores@,
            s.cnt,
            active_causality(ts),
            ts.active_index(),
            ts.active_thread().last_yield,
            ord == Ordering::SeqCst,
            n,
        ),
{
    let c = active_causality(ts);
    let a = ts.active_index();
    let ly = ts.active_thread().last_yield;
    let sc = ord == Ordering::SeqCst;
    assert forall|i: nat|
        #![trigger load_flag(s, ts, ord, i)]
        #![trigger flag_at(s.stores@, s.cnt, c, a, ly, sc, i)]
        load_flag(s, ts, ord, i) == flag_at(s.stores@, s.cnt, c, a, ly, sc, i) by {
        assert(s.newest(i) == nth_newest(s.stores@, s.cnt, i));
    }
    assert forall|i: nat|
        #![trigger load_stop(s, ts, ord, i)]
        #![trigger stop_at(s.stores@, s.cnt, c, a, ly, sc, i)]
        load_stop(s, ts, ord, i) == stop_at(s.stores@, s.cnt, c, a, ly, sc, i) by {
        assert(s.newest(i) == nth_newest(s.stores@, s.cnt, i));
        if load_stop(s, ts, ord, i) && !s.newest(i).first_seen.seen_before_yield(ts) {
            let j = choose|j: nat| 0 <= j < i && #[trigger] load_flag(s, ts, ord, j);
            assert(flag_at(s.stores@, s.cnt, c, a, ly, sc, j));
        }
        if stop_at(s.stores@, s.cnt, c, a, ly, sc, i) && !seen_before(nth_newest(s.stores@, s.cnt, i).first_seen, a, ly) {
            let j = choose|j: nat| 0 <= j < i && #[trigger] flag_at(s.stores@, s.cnt, c, a, ly, sc, j);
            assert(load_flag(s, ts, ord, j));
        }
    }
    assert(s.stored() == stored_of(s.cnt));
}

/// An atomic load may return an old value: unless the loading thread has
/// seen the newest store (within its view or before its last yield, or as
/// a sequentially consistent store read by a sequentially consistent
/// load), or saw the store before it before its last yield, the load is
/// offered the store before the newest too.
pub proof fn lemma_load_may_read_old_value(s: State, ts: ThreadSet, e: path::Entry, seq_cst: bool)
    requires
        load_offered(s, ts, e, seq_cst),
        stored_of(s.cnt) >= 2,
        !flag_at(s.stores@, s.cnt, ticked(ts), ts.active_index(), ts.active_thread().last_yield, seq_cst, 0),
        !seen_before(nth_newest(s.stores@, s.cnt, 1).first_seen, ts.active_index(), ts.active_thread().last_yield),
    ensures
        e matches path::Entry::Load(l) && l.len >= 2,
{
    let l = e->Load_0;
    if l.len < 2 {
        let c = ticked(ts);
        let a = ts.active_index();
        let ly = ts.active_thread().last_yield;
        assert(stop_at(s.stores@, s.cnt, c, a, ly, seq_cst, 1));
        let j = choose|j: nat| 0 <= j < 1 && #[trigger] flag_at(s.stores@, s.cnt, c, a, ly, seq_cst, j);
        assert(j == 0);
    }
}

/// Read coherence: a load is offered no store older than a store that the
/// loading thread has seen (within its view or before its last yield, or as
/// a sequentially consistent store read by a sequentially consistent load):
/// the stores offered end at the newest such store.
pub proof fn lemma_load_never_reads_before_seen_store(s: State, ts: ThreadSet, e: path::Entry, seq_cst: bool, j: nat)
    requires
        load_offered(s, ts, e, seq_cst),
        flag_at(s.stores@, s.cnt, ticked(ts), ts.active_index(), ts.active_thread().last_yield, seq_cst, j),
    ensures
        e matches path::Entry::Load(l) && l.len <= j + 1,
{
    let l = e->Load_0;
    if l.len > j + 1 {
        let c = ticked(ts);
        let a = ts.active_index();
        let ly = ts.active_thread().last_yield;
        assert(stop_at(s.stores@, s.cnt, c, a, ly, seq_cst, j + 1));
    }
}

/// Progress of a spinning thread: a store older than the newest that the
/// loading thread saw before its last yield is not offered to it again.
pub proof fn lemma_load_after_yield_skips_seen_store(s: State, ts: ThreadSet, e: path::Entry, seq_cst: bool, i: nat)
    requires
        load_offered(s, ts, e, seq_cst),
        1 <= i,
        seen_before(nth_newest(s.stores@, s.cnt, i).first_seen, ts.active_index(), ts.active_thread().last_yield),
    ensures
        e matches path::Entry::Load(l) && l.len <= i,
{
    let l = e->Load_0;
    if l.len > i {
        let c = ticked(ts);
        let a = ts.active_index();
        let ly = ts.active_thread().last_yield;
        assert(stop_at(s.stores@, s.cnt, c, a, ly, seq_cst, i));
    }
}

} // verus!
