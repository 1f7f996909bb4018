//! The execution path: the sequence of branching points of one execution,
//! and the depth-first walk over all paths of the model.
use vstd::prelude::*;

use crate::rt::trace::{trace_matches, trace_same, Trace};
use crate::rt::{execution, thread, Failure};
use crate::{MAX_ATOMIC_HISTORY, MAX_THREADS};

verus! {

/// Number of detail trace records kept for the nondeterminism report.
pub const DETAIL_TRACE_LEN: usize = 40;

/// The exploration state of one thread at a scheduling branch point.
#[derive(Debug, Clone, Copy, PartialEq, Eq, Structural)]
pub enum Thread {
    /// The thread is currently disabled
    Disabled,
    /// The thread should not be explored
    Skip,
    /// The thread is in a yield state.
    Yield,
    /// The thread is waiting to be explored
    Pending,
    /// The thread is currently being explored
    Active,
    /// The thread has been explored
    Visited,
}

/// A thread-scheduling branch point.
#[derive(Debug)]
pub struct Schedule {
    /// Number of times the thread leading to this branch point has been
    /// pre-empted.
    pub preemptions: u8,
    /// The thread that was active first
    pub initial_active: Option<u8>,
    /// State of each thread (`MAX_THREADS` entries)
    pub threads: Vec<Thread>,
    /// Index of the previous schedule branch
    pub prev: Option<usize>,
}

/// An atomic-load branch point: which of the recent stores the load returns.
#[derive(Debug)]
pub struct Load {
    /// All possible values (`MAX_ATOMIC_HISTORY` entries)
    pub values: Vec<u8>,
    /// Current value
    pub pos: u8,
    /// Number of values in list
    pub len: u8,
}

/// A spurious-wakeup branch point.
#[derive(Debug)]
pub struct Spurious(pub bool);

/// A branch point of the path.
#[derive(Debug)]
pub enum Entry {
    Schedule(Schedule),
    Load(Load),
    Spurious(Spurious),
}

/// An execution path.
#[derive(Debug)]
pub struct Path {
    pub preemption_bound: Option<u8>,
    /// Current execution's position in the branches vec.
    pub pos: usize,
    /// List of all branches in the execution.
    pub branches: Vec<Entry>,
    /// The number of branches the path may hold.
    pub max_branches: usize,
    /// The trace record of each entry of `branches`.
    pub schedule_trace: Vec<Trace>,
    /// Recent trace records, for the nondeterminism report.
    pub exec_trace: Vec<(Option<u32>, Trace)>,
    /// True if a consistency check has failed.
    pub inconsistent: bool,
    /// The first mismatch found: position, recorded trace, current trace.
    pub mismatch: Option<(usize, Trace, Trace)>,
    /// When false, new scheduling branch points offer no alternative threads.
    pub exploring: bool,
    /// Set once exploration was turned off for good.
    pub skipping: bool,
}

// ===== specifications =====

/// `r` is the first position of `t` in `ts` (`None`: `t` does not occur).
pub open spec fn is_first(ts: Seq<Thread>, t: Thread, r: Option<int>) -> bool {
    match r {
        Some(i) => 0 <= i < ts.len() && ts[i] == t && forall|j: int| 0 <= j < i ==> ts[j] != t,
        None => forall|j: int| 0 <= j < ts.len() ==> ts[j] != t,
    }
}

/// The first position of `t` in `ts`.
pub open spec fn first_index(ts: Seq<Thread>, t: Thread) -> Option<int> {
    choose|r: Option<int>| is_first(ts, t, r)
}

/// `t` occurs in `ts`.
pub open spec fn has_thread(ts: Seq<Thread>, t: Thread) -> bool {
    exists|i: int| 0 <= i < ts.len() && ts[i] == t
}

proof fn lemma_first_exists(ts: Seq<Thread>, t: Thread, j: int)
    requires
        0 <= j < ts.len(),
        ts[j] == t,
    ensures
        exists|i: int| is_first(ts, t, Some(i)),
    decreases j,
{
    if exists|k: int| 0 <= k < j && ts[k] == t {
        let k = choose|k: int| 0 <= k < j && ts[k] == t;
        lemma_first_exists(ts, t, k);
    } else {
        assert(is_first(ts, t, Some(j)));
    }
}

/// `first_index` is the unique first position.
pub proof fn lemma_first_index(ts: Seq<Thread>, t: Thread)
    ensures
        is_first(ts, t, first_index(ts, t)),
        forall|r: Option<int>| is_first(ts, t, r) ==> r == first_index(ts, t),
{
    if exists|j: int| 0 <= j < ts.len() && ts[j] == t {
        let j = choose|j: int| 0 <= j < ts.len() && ts[j] == t;
        lemma_first_exists(ts, t, j);
        let i = choose|i: int| is_first(ts, t, Some(i));
        assert(is_first(ts, t, Some(i)));
    } else {
        assert(is_first(ts, t, None));
    }
    assert forall|r: Option<int>| is_first(ts, t, r) implies r == first_index(ts, t) by {
        let f = first_index(ts, t);
        match r {
            Some(i) => {
                match f {
                    Some(k) => {
                        if i < k {
                        } else if k < i {
                        }
                    },
                    None => {},
                }
            },
            None => {
                match f {
                    Some(k) => {},
                    None => {},
                }
            },
        }
    }
}

pub open spec fn opt_u8_int(o: Option<u8>) -> Option<int> {
    match o {
        Some(x) => Some(x as int),
        None => None,
    }
}

/// The preemption count a new branch point inherits from this one: one more
/// when the active thread is no longer the one that was active first.
pub open spec fn spec_preemptions(s: Schedule) -> int {
    if s.initial_active is Some && opt_u8_int(s.initial_active) != first_index(
        s.threads@,
        Thread::Active,
    ) {
        s.preemptions + 1
    } else {
        s.preemptions as int
    }
}

/// Well-formedness of the scheduling branch point at position `k`.
pub open spec fn schedule_wf(s: Schedule, k: int, bs: Seq<Entry>, bound: Option<u8>) -> bool {
    &&& s.threads@.len() == MAX_THREADS
    &&& (s.prev matches Some(p) ==> p < k && bs[p as int] is Schedule)
    &&& (s.initial_active matches Some(i) ==> !has_thread(s.threads@, Thread::Visited) ==> is_first(
        s.threads@,
        Thread::Active,
        Some(i as int),
    ))
    &&& (bound matches Some(b) ==> s.preemptions <= b && (s.preemptions == b ==> !has_thread(
        s.threads@,
        Thread::Pending,
    ) && !has_thread(s.threads@, Thread::Visited)))
}

/// Well-formedness of the branch point at position `k`.
pub open spec fn entry_wf(e: Entry, k: int, bs: Seq<Entry>, bound: Option<u8>) -> bool {
    match e {
        Entry::Schedule(s) => schedule_wf(s, k, bs, bound),
        Entry::Load(l) => l.values@.len() == MAX_ATOMIC_HISTORY && l.pos < MAX_ATOMIC_HISTORY
            && l.len <= MAX_ATOMIC_HISTORY,
        Entry::Spurious(_) => true,
    }
}

/// Positions of `old` keep their kind of branch point in `new`, which may be
/// longer.
pub open spec fn kinds_preserved(old: Seq<Entry>, new: Seq<Entry>) -> bool {
    &&& old.len() <= new.len()
    &&& forall|k: int|
        0 <= k < old.len() ==> (#[trigger] old[k] is Schedule <==> new[k] is Schedule) && (
        old[k] is Load <==> new[k] is Load) && (old[k] is Spurious <==> new[k] is Spurious)
}

/// The thread states a new scheduling branch point starts from: the seed,
/// padded with disabled threads; with exploration off, no thread is left to
/// explore later.
pub open spec fn seeded(seed: Seq<Thread>, exploring: bool) -> Seq<Thread> {
    Seq::new(
        MAX_THREADS as nat,
        |i: int|
            if i < seed.len() {
                if !exploring && seed[i] == Thread::Skip {
                    Thread::Disabled
                } else {
                    seed[i]
                }
            } else {
                Thread::Disabled
            },
    )
}

/// If no thread is active, the first yielded thread becomes active.
pub open spec fn with_active(ts: Seq<Thread>) -> Seq<Thread> {
    if has_thread(ts, Thread::Active) {
        ts
    } else {
        match first_index(ts, Thread::Yield) {
            Some(j) => ts.update(j, Thread::Active),
            None => ts,
        }
    }
}

/// The remaining alternatives of a branch point: threads still to run, loads
/// still to return, or a spurious wakeup still to try.
pub open spec fn entry_rank(e: Entry) -> int {
    match e {
        Entry::Schedule(s) => count_open(s.threads@, s.threads@.len() as int),
        Entry::Load(l) => l.len - l.pos,
        Entry::Spurious(s) => if s.0 { 0 } else { 1 },
    }
}

/// The alternatives left among the first `n` threads: two for each thread
/// still to be explored (pending or skipped), one for the active thread.
pub open spec fn count_open(ts: Seq<Thread>, n: int) -> int
    decreases n,
{
    if n <= 0 {
        0
    } else {
        count_open(ts, n - 1) + if ts[n - 1] == Thread::Pending || ts[n - 1] == Thread::Skip {
            2int
        } else if ts[n - 1] == Thread::Active {
            1int
        } else {
            0int
        }
    }
}

/// `a` is lexicographically below `b` when both are read as sequences of
/// remaining alternatives.
pub open spec fn rank_below(a: Seq<Entry>, b: Seq<Entry>) -> bool {
    exists|k: int|
        0 <= k < a.len() && k < b.len() && (forall|j: int|
            0 <= j < k ==> #[trigger] entry_rank(a[j]) == entry_rank(b[j])) && entry_rank(a[k])
            < entry_rank(b[k])
}

/// The thread states after backtracking `tid` at a branch point with
/// `preemptions` preemptions: nothing changes at the preemption bound or for a
/// thread id out of range; otherwise the thread, or every thread when it is
/// disabled, goes from skipped to pending.
pub open spec fn bt_threads(ts: Seq<Thread>, tid: int, preemptions: u8, bound: Option<u8>) -> Seq<
    Thread,
> {
    let blocked = (bound matches Some(b) && preemptions == b) || tid >= MAX_THREADS;
    if blocked {
        ts
    } else if ts[tid].spec_is_enabled() {
        ts.update(tid, if ts[tid] == Thread::Skip { Thread::Pending } else { ts[tid] })
    } else {
        Seq::new(
            MAX_THREADS as nat,
            |i: int|
                if ts[i] == Thread::Skip {
                    Thread::Pending
                } else {
                    ts[i]
                },
        )
    }
}

/// The threads of a scheduling branch point.
pub open spec fn threads_of(e: Entry) -> Seq<Thread> {
    match e {
        Entry::Schedule(s) => s.threads@,
        _ => Seq::empty(),
    }
}

/// `e` is a scheduling branch point below the preemption bound at which
/// thread `tid` (an id in range) was disabled.
pub open spec fn disabled_below_bound(e: Entry, tid: usize, bound: Option<u8>) -> bool {
    &&& e matches Entry::Schedule(s)
    &&& !(bound matches Some(b) && s.preemptions == b)
    &&& tid < MAX_THREADS
    &&& s.threads@[tid as int] == Thread::Disabled
}

/// Walking back from scheduling branch point `c`, the first one whose active
/// thread differs from that of its predecessor (or the very first one):
/// where preemption-bounded search adds its conservative backtrack point.
pub open spec fn chain_target(bs: Seq<Entry>, c: int) -> int
    decreases c,
{
    if c < 0 || c >= bs.len() {
        c
    } else {
        match bs[c] {
            Entry::Schedule(s) => match s.prev {
                Some(p) => if 0 <= p < c {
                    if first_index(s.threads@, Thread::Active) != first_index(
                        threads_of(bs[p as int]),
                        Thread::Active,
                    ) {
                        c
                    } else {
                        chain_target(bs, p as int)
                    }
                } else {
                    c
                },
                None => c,
            },
            _ => c,
        }
    }
}

/// The earlier branch point that preemption-bounded backtracking at `point`
/// also marks, or -1 when there is none.
pub open spec fn second_target(bs: Seq<Entry>, point: int, bound: Option<u8>) -> int {
    match bs[point] {
        Entry::Schedule(s) => if bound is Some && s.prev is Some {
            chain_target(bs, s.prev->0 as int)
        } else {
            -1
        },
        _ => -1,
    }
}

/// The branch point offers no alternative beyond its current one.
pub open spec fn exhausted(e: Entry) -> bool {
    match e {
        Entry::Schedule(s) => !has_thread(s.threads@, Thread::Pending),
        Entry::Load(l) => l.pos + 1 >= l.len,
        Entry::Spurious(s) => s.0,
    }
}

/// `new` continues the exploration of `old` at branch point `k`: the
/// branch points before `k` are kept, `k` moves on to its next alternative,
/// and every later one, having no alternative left, is dropped.
pub open spec fn stepped_at(old: Seq<Entry>, new: Seq<Entry>, k: int) -> bool {
    &&& 0 <= k < old.len()
    &&& new.len() == k + 1
    &&& forall|j: int| 0 <= j < k ==> #[trigger] new[j] == old[j]
    &&& !exhausted(old[k])
    &&& advanced(old[k], new[k])
    &&& forall|j: int| k < j < old.len() ==> exhausted(#[trigger] old[j])
}

/// `new` continues the exploration of `old` at some branch point.
pub open spec fn stepped(old: Seq<Entry>, new: Seq<Entry>) -> bool {
    exists|k: int| stepped_at(old, new, k)
}

/// The active thread becomes visited and the first pending thread active.
pub open spec fn activate_next(ts: Seq<Thread>) -> Seq<Thread> {
    let t1 = match first_index(ts, Thread::Active) {
        Some(i) => ts.update(i, Thread::Visited),
        None => ts,
    };
    match first_index(t1, Thread::Pending) {
        Some(j) => t1.update(j, Thread::Active),
        None => t1,
    }
}

/// `new` is the branch point `old` moved on to its next alternative.
pub open spec fn advanced(old: Entry, new: Entry) -> bool {
    match (old, new) {
        (Entry::Schedule(a), Entry::Schedule(b)) => a.preemptions == b.preemptions
            && a.initial_active == b.initial_active && a.prev == b.prev && b.threads@
            == activate_next(a.threads@),
        (Entry::Load(a), Entry::Load(b)) => b.values == a.values && b.len == a.len && b.pos == a.pos
            + 1,
        (Entry::Spurious(a), Entry::Spurious(b)) => !a.0 && b.0,
        _ => false,
    }
}

/// `new` is `old` with some skipped threads made pending.
pub open spec fn only_explored(old: Seq<Thread>, new: Seq<Thread>) -> bool {
    &&& old.len() == new.len()
    &&& forall|t: int|
        0 <= t < old.len() ==> #[trigger] new[t] == old[t] || (old[t] == Thread::Skip && new[t]
            == Thread::Pending)
}

/// Making skipped threads pending keeps the number of alternatives.
pub proof fn lemma_count_open_explored(old: Seq<Thread>, new: Seq<Thread>, n: int)
    requires
        only_explored(old, new),
        n <= old.len(),
    ensures
        count_open(old, n) == count_open(new, n),
    decreases n,
{
    if n > 0 {
        lemma_count_open_explored(old, new, n - 1);
        assert(new[n - 1] == old[n - 1] || (old[n - 1] == Thread::Skip && new[n - 1]
            == Thread::Pending));
    }
}

/// The scheduling branch point `new` is `old` with some skipped threads made
/// pending; all else is equal.
pub open spec fn schedule_explored(old: Entry, new: Entry) -> bool {
    match (old, new) {
        (Entry::Schedule(a), Entry::Schedule(b)) => a.preemptions == b.preemptions
            && a.initial_active == b.initial_active && a.prev == b.prev && only_explored(
            a.threads@,
            b.threads@,
        ),
        _ => false,
    }
}

spec fn weight(t: Thread) -> int {
    if t == Thread::Pending || t == Thread::Skip {
        2
    } else if t == Thread::Active {
        1
    } else {
        0
    }
}

proof fn lemma_count_open_update(ts: Seq<Thread>, i: int, v: Thread, n: int)
    requires
        0 <= i < ts.len(),
        0 <= n <= ts.len(),
    ensures
        count_open(ts.update(i, v), n) == count_open(ts, n) + if i < n {
            weight(v) - weight(ts[i])
        } else {
            0
        },
    decreases n,
{
    if n > 0 {
        lemma_count_open_update(ts, i, v, n - 1);
    }
}

/// Each successful step of the exploration moves the path strictly down in
/// the lexicographic order of remaining alternatives: the branch points
/// before the advanced one are kept and the advanced one has one
/// alternative fewer. Branch points appended later, past it, cannot undo
/// this, so no path is explored twice and the exploration terminates.
pub proof fn lemma_step_makes_progress(old_bs: Seq<Entry>, new_bs: Seq<Entry>, k: int)
    requires
        0 <= k < old_bs.len(),
        k < new_bs.len(),
        forall|j: int| 0 <= j < k ==> #[trigger] new_bs[j] == old_bs[j],
        !exhausted(old_bs[k]),
        advanced(old_bs[k], new_bs[k]),
        old_bs[k] is Schedule ==> threads_of(old_bs[k]).len() == MAX_THREADS,
    ensures
        rank_below(new_bs, old_bs),
        entry_rank(new_bs[k]) < entry_rank(old_bs[k]),
{
    match (old_bs[k], new_bs[k]) {
        (Entry::Schedule(a), Entry::Schedule(b)) => {
            let ts = a.threads@;
            lemma_first_index(ts, Thread::Active);
            let t1 = match first_index(ts, Thread::Active) {
                Some(i) => ts.update(i, Thread::Visited),
                None => ts,
            };
            if let Some(i) = first_index(ts, Thread::Active) {
                lemma_count_open_update(ts, i, Thread::Visited, ts.len() as int);
            }
            lemma_first_index(t1, Thread::Pending);
            let pk = choose|m: int| 0 <= m < ts.len() && ts[m] == Thread::Pending;
            assert(t1[pk] == Thread::Pending);
            let j = first_index(t1, Thread::Pending)->0;
            lemma_count_open_update(t1, j, Thread::Active, t1.len() as int);
        },
        _ => {},
    }
    assert(forall|j: int| 0 <= j < k ==> entry_rank(#[trigger] new_bs[j]) == entry_rank(old_bs[j]));
}

/// The exploration never visits a path twice: each step from a well-formed
/// path (see `Execution::step`) moves it strictly down in the lexicographic
/// order of the alternatives left at its branch points.
pub proof fn lemma_stepped_is_progress(old: Path, new_bs: Seq<Entry>)
    requires
        old.wf(),
        stepped(old.branches@, new_bs),
    ensures
        rank_below(new_bs, old.branches@),
{
    let k = choose|k: int| stepped_at(old.branches@, new_bs, k);
    assert(entry_wf(old.branches@[k], k, old.branches@, old.preemption_bound));
    lemma_step_makes_progress(old.branches@, new_bs, k);
}

/// Backtracking keeps the number of alternatives of a branch point: a thread
/// it marks for exploration was already counted as one left to explore.
pub proof fn lemma_explored_keeps_rank(a: Entry, b: Entry)
    requires
        schedule_explored(a, b),
    ensures
        entry_rank(a) == entry_rank(b),
{
    match (a, b) {
        (Entry::Schedule(x), Entry::Schedule(y)) => {
            lemma_count_open_explored(x.threads@, y.threads@, x.threads@.len() as int);
        },
        _ => {},
    }
}

impl Thread {
    pub open spec fn spec_is_enabled(self) -> bool {
        self != Thread::Disabled
    }

    /// A skipped thread becomes pending.
    pub fn explore(&mut self)
        ensures
            *old(self) == Thread::Skip ==> *final(self) == Thread::Pending,
            *old(self) != Thread::Skip ==> *final(self) == *old(self),
    {
        match *self {
            Thread::Skip => {
                *self = Thread::Pending;
            },
            _ => {},
        }
    }

    pub fn is_pending(&self) -> (r: bool)
        ensures
            r == (*self == Thread::Pending),
    {
        match *self {
            Thread::Pending => true,
            _ => false,
        }
    }

    pub fn is_active(&self) -> (r: bool)
        ensures
            r == (*self == Thread::Active),
    {
        match *self {
            Thread::Active => true,
            _ => false,
        }
    }

    pub fn is_enabled(&self) -> (r: bool)
        ensures
            r == self.spec_is_enabled(),
    {
        !self.is_disabled()
    }

    pub fn is_disabled(&self) -> (r: bool)
        ensures
            r == (*self == Thread::Disabled),
    {
        match *self {
            Thread::Disabled => true,
            _ => false,
        }
    }
}

/// First position of `t` in `ts`.
/// Whether the branch point at position `k` is well formed.
fn entry_is_wf(bs: &Vec<Entry>, k: usize, bound: Option<u8>) -> (r: bool)
    requires
        k < bs@.len(),
    ensures
        r == entry_wf(bs@[k as int], k as int, bs@, bound),
{
    match &bs[k] {
        Entry::Schedule(s) => {
            if s.threads.len() != MAX_THREADS {
                return false;
            }
            match s.prev {
                Some(p) => {
                    if p >= k {
                        return false;
                    }
                    match &bs[p] {
                        Entry::Schedule(_) => {},
                        _ => {
                            return false;
                        },
                    }
                },
                None => {},
            }
            let visited = find_first(&s.threads, Thread::Visited);
            let pending = find_first(&s.threads, Thread::Pending);
            proof {
                lemma_is_first_has(s.threads@, Thread::Visited, visited);
                lemma_is_first_has(s.threads@, Thread::Pending, pending);
            }
            match s.initial_active {
                Some(i) => {
                    if visited.is_none() {
                        let active = find_first(&s.threads, Thread::Active);
                        proof {
                            lemma_is_first_unique(s.threads@, Thread::Active, active, Some(i as int));
                        }
                        match active {
                            Some(a) => {
                                if a != i as usize {
                                    return false;
                                }
                            },
                            None => {
                                return false;
                            },
                        }
                    }
                },
                None => {},
            }
            match bound {
                Some(b) => {
                    if s.preemptions > b {
                        return false;
                    }
                    if s.preemptions == b && (pending.is_some() || visited.is_some()) {
                        return false;
                    }
                },
                None => {},
            }
            true
        },
        Entry::Load(l) => l.values.len() == MAX_ATOMIC_HISTORY && (l.pos as usize) < MAX_ATOMIC_HISTORY && (l.len
            as usize) <= MAX_ATOMIC_HISTORY,
        Entry::Spurious(_) => true,
    }
}

/// A first position tells whether the thread state occurs.
proof fn lemma_is_first_has(ts: Seq<Thread>, t: Thread, r: Option<usize>)
    requires
        is_first(ts, t, match r {
            Some(i) => Some(i as int),
            None => None,
        }),
    ensures
        r is Some <==> has_thread(ts, t),
{
    if let Some(i) = r {
        assert(ts[i as int] == t);
    }
}

/// The first position of a thread state is unique.
proof fn lemma_is_first_unique(ts: Seq<Thread>, t: Thread, r: Option<usize>, q: Option<int>)
    requires
        is_first(ts, t, match r {
            Some(i) => Some(i as int),
            None => None,
        }),
    ensures
        is_first(ts, t, q) <==> q == match r {
            Some(i) => Some(i as int),
            None => None::<int>,
        },
{
    if let Some(i) = r {
        if let Some(j) = q {
            if is_first(ts, t, q) {
                assert(!(j < i) && !(i < j));
            }
        }
    }
}

fn find_first(ts: &Vec<Thread>, t: Thread) -> (r: Option<usize>)
    ensures
        is_first(ts@, t, match r {
            Some(i) => Some(i as int),
            None => None,
        }),
{
    let mut i: usize = 0;
    while i < ts.len()
        invariant
            i <= ts@.len(),
            forall|j: int| 0 <= j < i ==> ts@[j] != t,
        decreases ts@.len() - i,
    {
        if ts[i] == t {
            return Some(i);
        }
        i = i + 1;
    }
    None
}

impl Schedule {
    /// Returns the index of the currently active thread
    pub fn active_thread_index(&self) -> (r: Option<u8>)
        requires
            self.threads@.len() == MAX_THREADS,
        ensures
            opt_u8_int(r) == first_index(self.threads@, Thread::Active),
    {
        let r = find_first(&self.threads, Thread::Active);
        proof {
            lemma_first_index(self.threads@, Thread::Active);
        }
        match r {
            Some(i) => Some(i as u8),
            None => None,
        }
    }

    /// `true` when computing the preemption count would exceed `u8`.
    pub fn preemptions_overflow(&self) -> (r: bool)
        requires
            self.threads@.len() == MAX_THREADS,
        ensures
            r == (spec_preemptions(*self) > u8::MAX),
    {
        if self.preemptions == u8::MAX && self.initial_active.is_some() {
            let a = self.active_thread_index();
            self.initial_active != a
        } else {
            false
        }
    }

    /// Compute the number of preemptions for the current state of the branch
    pub fn preemptions(&self) -> (r: u8)
        requires
            self.threads@.len() == MAX_THREADS,
            spec_preemptions(*self) <= u8::MAX,
        ensures
            r == spec_preemptions(*self),
    {
        if self.initial_active.is_some() {
            let a = self.active_thread_index();
            if self.initial_active != a {
                return self.preemptions + 1;
            }
        }
        self.preemptions
    }

    /// Marks `thread_id` (or, when it is disabled, every thread) to be
    /// explored from this branch point, unless the preemption bound is
    /// reached.
    pub fn backtrack(&mut self, thread_id: thread::Id, preemption_bound: Option<u8>)
        requires
            old(self).threads@.len() == MAX_THREADS,
            preemption_bound matches Some(b) ==> old(self).preemptions <= b,
        ensures
            final(self).preemptions == old(self).preemptions,
            final(self).initial_active == old(self).initial_active,
            final(self).prev == old(self).prev,
            final(self).threads@.len() == MAX_THREADS,
            final(self).threads@ == bt_threads(
                old(self).threads@,
                thread_id.id as int,
                old(self).preemptions,
                preemption_bound,
            ),
            // At the preemption bound, or for an id out of range, nothing changes.
            (preemption_bound matches Some(b) && old(self).preemptions == b) || thread_id.id
                >= MAX_THREADS ==> final(self).threads@ == old(self).threads@,
            // An enabled thread is marked for exploration, and only it.
            !(preemption_bound matches Some(b) && old(self).preemptions == b) && thread_id.id
                < MAX_THREADS && old(self).threads@[thread_id.id as int] != Thread::Disabled
                ==> forall|i: int|
                0 <= i < MAX_THREADS ==> #[trigger] final(self).threads@[i] == (if i
                    == thread_id.id && old(self).threads@[i] == Thread::Skip {
                    Thread::Pending
                } else {
                    old(self).threads@[i]
                }),
            // A disabled thread cannot run here: every skipped thread is
            // marked, so that whichever releases it gets explored.
            !(preemption_bound matches Some(b) && old(self).preemptions == b) && thread_id.id
                < MAX_THREADS && old(self).threads@[thread_id.id as int] == Thread::Disabled
                ==> forall|i: int|
                0 <= i < MAX_THREADS ==> #[trigger] final(self).threads@[i] == (if old(
                    self,
                ).threads@[i] == Thread::Skip {
                    Thread::Pending
                } else {
                    old(self).threads@[i]
                }),
    {
        if let Some(bound) = preemption_bound {
            if self.preemptions == bound {
                return;
            }
        }
        let thread_id = thread_id.as_usize();
        if thread_id >= self.threads.len() {
            return;
        }
        if self.threads[thread_id].is_enabled() {
            let mut th = self.threads[thread_id];
            th.explore();
            self.threads.set(thread_id, th);
        } else {
            let ghost ts = self.threads@;
            let mut i: usize = 0;
            while i < self.threads.len()
                invariant
                    self.threads@.len() == MAX_THREADS,
                    self.preemptions == old(self).preemptions,
                    self.initial_active == old(self).initial_active,
                    self.prev == old(self).prev,
                    ts == old(self).threads@,
                    ts.len() == MAX_THREADS,
                    i <= MAX_THREADS,
                    forall|k: int|
                        0 <= k < i ==> self.threads@[k] == if ts[k] == Thread::Skip {
                            Thread::Pending
                        } else {
                            ts[k]
                        },
                    forall|k: int| i <= k < MAX_THREADS ==> self.threads@[k] == ts[k],
                decreases MAX_THREADS - i,
            {
                let mut th = self.threads[i];
                th.explore();
                self.threads.set(i, th);
                i = i + 1;
            }
            assert(self.threads@ =~= Seq::new(
                MAX_THREADS as nat,
                |i: int|
                    if ts[i] == Thread::Skip {
                        Thread::Pending
                    } else {
                        ts[i]
                    },
            ));
        }
    }
}

/// `r` is the position of the last scheduling branch point of `bs`.
pub open spec fn is_last_schedule(bs: Seq<Entry>, r: Option<usize>) -> bool {
    match r {
        Some(i) => i < bs.len() && bs[i as int] is Schedule && forall|j: int|
            i < j < bs.len() ==> !(#[trigger] bs[j] is Schedule),
        None => forall|j: int| 0 <= j < bs.len() ==> !(#[trigger] bs[j] is Schedule),
    }
}

/// Appending a well-formed branch point keeps every branch point well formed.
proof fn lemma_push_preserves_wf(bs: Seq<Entry>, e: Entry, bound: Option<u8>)
    requires
        forall|k: int| 0 <= k < bs.len() ==> entry_wf(#[trigger] bs[k], k, bs, bound),
        entry_wf(e, bs.len() as int, bs.push(e), bound),
    ensures
        forall|k: int|
            0 <= k < bs.push(e).len() ==> entry_wf(#[trigger] bs.push(e)[k], k, bs.push(e), bound),
{
    let nbs = bs.push(e);
    assert forall|k: int| 0 <= k < nbs.len() implies entry_wf(#[trigger] nbs[k], k, nbs, bound) by {
        if k < bs.len() {
            assert(entry_wf(bs[k], k, bs, bound));
            if let Entry::Schedule(s) = nbs[k] {
                if let Some(p) = s.prev {
                    assert(bs[p as int] is Schedule);
                }
            }
        }
    }
}

/// A well-formed branch point never passes on more preemptions than the
/// bound allows.
proof fn lemma_preemptions_within_bound(s: Schedule, k: int, bs: Seq<Entry>, b: u8)
    requires
        schedule_wf(s, k, bs, Some(b)),
    ensures
        spec_preemptions(s) <= b,
{
    lemma_first_index(s.threads@, Thread::Active);
    if s.initial_active is Some && opt_u8_int(s.initial_active) != first_index(
        s.threads@,
        Thread::Active,
    ) {
        let i = s.initial_active->0;
        if !has_thread(s.threads@, Thread::Visited) {
            assert(is_first(s.threads@, Thread::Active, Some(i as int)));
        }
    }
}

/// The last scheduling branch point passes on more preemptions than `u8`
/// holds.
pub open spec fn prev_overflows(bs: Seq<Entry>) -> bool {
    exists|i: usize| is_last_schedule(bs, Some(i)) && entry_overflows(#[trigger] bs[i as int])
}

/// The branch point is a scheduling one that passes on more preemptions than
/// `u8` holds.
pub open spec fn entry_overflows(e: Entry) -> bool {
    match e {
        Entry::Schedule(s) => spec_preemptions(s) > u8::MAX,
        _ => false,
    }
}

pub open spec fn opt_thread_index(r: Option<thread::Id>) -> Option<int> {
    match r {
        Some(id) => Some(id.id as int),
        None => None,
    }
}

fn opt_u32_eq(a: Option<u32>, b: Option<u32>) -> (r: bool)
    ensures
        r == (a == b),
{
    match (a, b) {
        (Some(x), Some(y)) => x == y,
        (None, None) => true,
        _ => false,
    }
}

/// The contract of deciding a spurious wakeup (see `Path::branch_spurious`),
/// from the path `old` to `new`, with result `r`.
pub open spec fn spurious_decided(old: Path, new: Path, r: Result<bool, Failure>) -> bool {
    &&& (new.wf())
    &&& (new.same_config(&old))
    &&& (kinds_preserved(old.branches@, new.branches@))
    &&& (forall|k: int|
        0 <= k < old.branches@.len() ==> new.branches@[k]
            == old.branches@[k])
    &&& (old.spec_is_traversed() ==> {
        &&& r is Err <==> old.branches@.len() >= old.max_branches
        &&& r is Err ==> r == Err::<bool, Failure>(Failure::BranchLimit)
        &&& r is Ok ==> r == Ok::<bool, Failure>(false) && new.pos == old.pos + 1 && new.branches@.len() == old.branches@.len() + 1
            && new.branches@.last() == Entry::Spurious(Spurious(false))
    })
    &&& (!old.spec_is_traversed() ==> {
        &&& new.branches == old.branches
        &&& r is Err <==> !(old.branches@[old.pos as int] is Spurious)
        &&& r is Err ==> r == Err::<bool, Failure>(Failure::Nondeterministic)
        &&& r matches Ok(v) ==> new.pos == old.pos + 1 && old.branches@[old.pos as int] == Entry::Spurious(Spurious(v))
    })
    &&& (new.pos >= old.pos)
}

impl Path {
    /// The path's invariant.
    pub open spec fn wf(&self) -> bool {
        &&& self.pos <= self.branches@.len()
        &&& self.schedule_trace@.len() == self.branches@.len()
        &&& self.branches@.len() <= self.max_branches
        &&& forall|k: int|
            0 <= k < self.branches@.len() ==> entry_wf(
                #[trigger] self.branches@[k],
                k,
                self.branches@,
                self.preemption_bound,
            )
    }

    /// Everything but the debugging trace is unchanged.
    pub open spec fn same_but_exec_trace(&self, other: &Path) -> bool {
        &&& self.preemption_bound == other.preemption_bound
        &&& self.pos == other.pos
        &&& self.branches == other.branches
        &&& self.max_branches == other.max_branches
        &&& self.schedule_trace == other.schedule_trace
        &&& self.inconsistent == other.inconsistent
        &&& self.exploring == other.exploring
        &&& self.skipping == other.skipping
    }

    /// Configuration that no branching operation changes.
    pub open spec fn same_config(&self, other: &Path) -> bool {
        &&& self.preemption_bound == other.preemption_bound
        &&& self.max_branches == other.max_branches
        &&& self.exploring == other.exploring
        &&& self.skipping == other.skipping
    }

    pub open spec fn spec_is_traversed(&self) -> bool {
        self.pos == self.branches@.len()
    }

    /// Create a new, blank path, configured to branch at most `max_branches`
    /// times and at most `preemption_bound` thread preemptions.
    pub fn new(max_branches: usize, preemption_bound: Option<u8>) -> (r: Path)
        ensures
            r.wf(),
            r.pos == 0,
            r.branches@.len() == 0,
            r.max_branches == max_branches,
            r.preemption_bound == preemption_bound,
            !r.inconsistent,
            r.mismatch is None,
            r.exploring,
            !r.skipping,
    {
        Path {
            preemption_bound,
            pos: 0,
            branches: Vec::new(),
            max_branches,
            schedule_trace: Vec::new(),
            exec_trace: Vec::new(),
            inconsistent: false,
            mismatch: None,
            exploring: true,
            skipping: false,
        }
    }

    /// Whether the path is well formed, as one read back from a checkpoint
    /// must be before an execution follows it.
    pub fn is_wf(&self) -> (r: bool)
        ensures
            r == self.wf(),
    {
        let n = self.branches.len();
        if self.pos > n || self.schedule_trace.len() != n || n > self.max_branches {
            return false;
        }
        let mut k: usize = 0;
        while k < n
            invariant
                n == self.branches@.len(),
                k <= n,
                forall|j: int| 0 <= j < k ==> entry_wf(#[trigger] self.branches@[j], j, self.branches@, self.preemption_bound),
            decreases n - k,
        {
            if !entry_is_wf(&self.branches, k, self.preemption_bound) {
                return false;
            }
            k = k + 1;
        }
        true
    }

    /// Raises the number of branches the path may hold.
    pub fn set_max_branches(&mut self, max_branches: usize)
        requires
            old(self).wf(),
            max_branches >= old(self).branches@.len(),
        ensures
            final(self).wf(),
            final(self).max_branches == if max_branches > old(self).max_branches {
                max_branches
            } else {
                old(self).max_branches
            },
            final(self).branches == old(self).branches,
            final(self).pos == old(self).pos,
            final(self).schedule_trace == old(self).schedule_trace,
            final(self).preemption_bound == old(self).preemption_bound,
    {
        if max_branches > self.max_branches {
            self.max_branches = max_branches;
        }
    }

    /// Returns `true` if the execution has reached a point where the known
    /// path has been traversed and has reached a new branching point.
    pub fn is_traversed(&self) -> (r: bool)
        ensures
            r == self.spec_is_traversed(),
    {
        self.pos == self.branches.len()
    }

    /// Returns `true` if nondeterministic execution was detected.
    pub fn is_inconsistent(&self) -> (r: bool)
        ensures
            r == self.inconsistent,
    {
        self.inconsistent
    }

    pub fn pos(&self) -> (r: usize)
        ensures
            r == self.pos,
    {
        self.pos
    }

    /// Tells the path to offer alternative threads at new scheduling branch
    /// points again, unless exploration was turned off for good.
    pub fn explore_state(&mut self)
        ensures
            final(self).exploring == (old(self).exploring || !old(self).skipping),
            final(self).skipping == old(self).skipping,
            final(self).branches == old(self).branches,
            final(self).pos == old(self).pos,
            final(self).schedule_trace == old(self).schedule_trace,
            final(self).preemption_bound == old(self).preemption_bound,
            final(self).max_branches == old(self).max_branches,
            final(self).inconsistent == old(self).inconsistent,
    {
        if !self.skipping {
            self.exploring = true;
        }
    }

    /// Tells the path to offer no alternative threads at new scheduling
    /// branch points.
    pub fn critical(&mut self)
        ensures
            !final(self).exploring,
            final(self).skipping == old(self).skipping,
            final(self).branches == old(self).branches,
            final(self).pos == old(self).pos,
            final(self).schedule_trace == old(self).schedule_trace,
            final(self).preemption_bound == old(self).preemption_bound,
            final(self).max_branches == old(self).max_branches,
            final(self).inconsistent == old(self).inconsistent,
    {
        self.exploring = false;
    }

    /// Like `critical`, but `explore_state` cannot undo it.
    pub fn skip_branch(&mut self)
        ensures
            !final(self).exploring,
            final(self).skipping,
            final(self).branches == old(self).branches,
            final(self).pos == old(self).pos,
            final(self).schedule_trace == old(self).schedule_trace,
            final(self).preemption_bound == old(self).preemption_bound,
            final(self).max_branches == old(self).max_branches,
            final(self).inconsistent == old(self).inconsistent,
    {
        self.exploring = false;
        self.skipping = true;
    }

    /// Records a branching point in the recent-events trace, keeping at most
    /// `DETAIL_TRACE_LEN` records unless they reach back to the previous
    /// branching point.
    fn record_schedule(&mut self, pos: u32, trace: &Trace)
        ensures
            final(self).same_but_exec_trace(old(self)),
            final(self).mismatch == old(self).mismatch,
            final(self).exec_trace@.len() >= 1,
    {
        self.exec_trace.push((Some(pos), trace.clone()));
        let prior = pos.checked_sub(1);
        while self.exec_trace.len() > DETAIL_TRACE_LEN && !opt_u32_eq(self.exec_trace[0].0, prior)
            invariant
                self.same_but_exec_trace(old(self)),
                self.mismatch == old(self).mismatch,
                self.exec_trace@.len() >= 1,
            decreases self.exec_trace@.len(),
        {
            self.exec_trace.remove(0);
        }
    }

    /// Records an arbitrary non-branching event, for the nondeterminism
    /// report.
    pub fn record_event(&mut self, trace: &Trace)
        ensures
            final(self).same_but_exec_trace(old(self)),
            final(self).mismatch == old(self).mismatch,
            final(self).exec_trace@.len() == old(self).exec_trace@.len() + 1,
            final(self).exec_trace@.last().0 is None,
            trace_same(final(self).exec_trace@.last().1, *trace),
    {
        self.exec_trace.push((None, trace.clone()));
    }

    /// Remembers the first mismatch between a recorded and a current trace.
    fn trace_mismatch(&mut self, expected: Trace, trace: &Trace)
        ensures
            final(self).same_but_exec_trace(old(self)),
            final(self).exec_trace == old(self).exec_trace,
            old(self).mismatch is Some ==> final(self).mismatch == old(self).mismatch,
            old(self).mismatch is None ==> final(self).mismatch is Some,
    {
        if self.mismatch.is_none() {
            self.mismatch = Some((self.pos, expected, trace.clone()));
        }
    }

    /// Checks that the current branching point matches the given trace; on a
    /// mismatch the path becomes inconsistent.
    fn check_trace(&mut self, trace: &Trace)
        requires
            old(self).pos < old(self).schedule_trace@.len(),
        ensures
            final(self).preemption_bound == old(self).preemption_bound,
            final(self).pos == old(self).pos,
            final(self).branches == old(self).branches,
            final(self).max_branches == old(self).max_branches,
            final(self).schedule_trace == old(self).schedule_trace,
            final(self).exploring == old(self).exploring,
            final(self).skipping == old(self).skipping,
            final(self).inconsistent == (old(self).inconsistent || !trace_matches(
                old(self).schedule_trace@[old(self).pos as int],
                *trace,
            )),
    {
        let matches = self.schedule_trace[self.pos].eq(trace);
        if !matches {
            let expected = self.schedule_trace[self.pos].clone();
            self.inconsistent = true;
            self.trace_mismatch(expected, trace);
            return ;
        }
        let pos = self.pos as u32;
        self.record_schedule(pos, trace);
    }

    /// Appends a branch point with its trace record; returns its position.
    fn push_new_schedule_trace(&mut self, trace: &Trace, entry: Entry) -> (r: usize)
        ensures
            r == old(self).branches@.len(),
            final(self).branches@ == old(self).branches@.push(entry),
            final(self).schedule_trace@.len() == old(self).schedule_trace@.len() + 1,
            forall|k: int|
                0 <= k < old(self).schedule_trace@.len() ==> final(self).schedule_trace@[k]
                    == old(self).schedule_trace@[k],
            trace_same(final(self).schedule_trace@.last(), *trace),
            final(self).preemption_bound == old(self).preemption_bound,
            final(self).pos == old(self).pos,
            final(self).max_branches == old(self).max_branches,
            final(self).inconsistent == old(self).inconsistent,
            final(self).exploring == old(self).exploring,
            final(self).skipping == old(self).skipping,
    {
        let r = self.branches.len();
        self.branches.push(entry);
        let index = self.schedule_trace.len() as u32;
        self.schedule_trace.push(trace.clone());
        self.record_schedule(index, trace);
        r
    }

    /// Pushes a new atomic-load branch point whose alternatives are `seed`:
    /// how many stores back each possible load reads.
    pub fn push_load(&mut self, trace: &Trace, seed: &[u8]) -> (r: Result<(), Failure>)
        requires
            old(self).wf(),
            seed@.len() <= MAX_ATOMIC_HISTORY,
            !old(self).inconsistent ==> forall|i: int|
                0 <= i < seed@.len() ==> seed@[i] < MAX_ATOMIC_HISTORY,
        ensures
            final(self).wf(),
            final(self).same_config(old(self)),
            final(self).pos == old(self).pos,
            final(self).inconsistent == old(self).inconsistent,
            r is Err <==> old(self).branches@.len() >= old(self).max_branches,
            r is Err ==> r == Err::<(), Failure>(Failure::BranchLimit) && final(self).branches
                == old(self).branches,
            r is Ok ==> {
                &&& final(self).branches@.len() == old(self).branches@.len() + 1
                &&& forall|k: int|
                    0 <= k < old(self).branches@.len() ==> final(self).branches@[k]
                        == old(self).branches@[k]
                &&& final(self).branches@.last() matches Entry::Load(l) && l.pos == 0 && l.len
                    == seed@.len() && forall|i: int|
                    0 <= i < MAX_ATOMIC_HISTORY ==> l.values@[i] == if i < seed@.len() {
                        seed@[i]
                    } else {
                        0u8
                    }
            },
    {
        if self.branches.len() >= self.max_branches {
            return Err(Failure::BranchLimit);
        }
        let mut values: Vec<u8> = Vec::new();
        let mut len: u8 = 0;
        let mut i: usize = 0;
        while i < MAX_ATOMIC_HISTORY
            invariant
                i <= MAX_ATOMIC_HISTORY,
                values@.len() == i,
                len == if i < seed@.len() {
                    i as int
                } else {
                    seed@.len() as int
                },
                forall|k: int|
                    0 <= k < i ==> values@[k] == if k < seed@.len() {
                        seed@[k]
                    } else {
                        0u8
                    },
            decreases MAX_ATOMIC_HISTORY - i,
        {
            if i < seed.len() {
                values.push(seed[i]);
                len = len + 1;
            } else {
                values.push(0);
            }
            i = i + 1;
        }
        let ghost old_bs = self.branches@;
        self.push_new_schedule_trace(trace, Entry::Load(Load { values, pos: 0, len }));
        proof {
            let bs = self.branches@;
            assert forall|k: int| 0 <= k < bs.len() implies entry_wf(
                #[trigger] bs[k],
                k,
                bs,
                self.preemption_bound,
            ) by {
                if k < old_bs.len() {
                    assert(entry_wf(old_bs[k], k, old_bs, self.preemption_bound));
                    if let Entry::Schedule(s) = bs[k] {
                        if let Some(p) = s.prev {
                            assert(old_bs[p as int] is Schedule);
                        }
                    }
                }
            }
        }
        Ok(())
    }

    /// Returns how many stores back the current atomic load reads.
    pub fn branch_load(&mut self, trace: &Trace) -> (r: Result<usize, Failure>)
        requires
            old(self).wf(),
            !old(self).spec_is_traversed(),
        ensures
            old(self).pos <= final(self).pos,
            final(self).wf(),
            final(self).same_config(old(self)),
            final(self).branches == old(self).branches,
            final(self).inconsistent == (old(self).inconsistent || !trace_matches(
                old(self).schedule_trace@[old(self).pos as int],
                *trace,
            )),
            r is Err <==> !(old(self).branches@[old(self).pos as int] is Load),
            r is Err ==> r == Err::<usize, Failure>(Failure::Nondeterministic),
            r matches Ok(v) ==> {
                &&& final(self).pos == old(self).pos + 1
                &&& old(self).branches@[old(self).pos as int] matches Entry::Load(l) && v
                    == l.values@[l.pos as int]
            },
    {
        self.check_trace(trace);
        let pos = self.pos;
        let v = match &self.branches[pos] {
            Entry::Load(l) => l.values[l.pos as usize],
            _ => {
                return Err(Failure::Nondeterministic);
            },
        };
        self.pos = pos + 1;
        Ok(v as usize)
    }

    /// Returns whether the current wait wakes up spuriously.
    pub fn branch_spurious(&mut self, trace: &Trace) -> (r: Result<bool, Failure>)
        requires
            old(self).wf(),
        ensures
            spurious_decided(*old(self), *final(self), r),
    {
        if !self.is_traversed() {
            self.check_trace(trace);
        }
        if self.is_traversed() {
            if self.branches.len() >= self.max_branches {
                return Err(Failure::BranchLimit);
            }
            let ghost old_bs = self.branches@;
            self.push_new_schedule_trace(trace, Entry::Spurious(Spurious(false)));
            proof {
                let bs = self.branches@;
                assert forall|k: int| 0 <= k < bs.len() implies entry_wf(
                    #[trigger] bs[k],
                    k,
                    bs,
                    self.preemption_bound,
                ) by {
                    if k < old_bs.len() {
                        assert(entry_wf(old_bs[k], k, old_bs, self.preemption_bound));
                        if let Entry::Schedule(s) = bs[k] {
                            if let Some(p) = s.prev {
                                assert(old_bs[p as int] is Schedule);
                            }
                        }
                    }
                }
            }
        }
        let pos = self.pos;
        let v = match &self.branches[pos] {
            Entry::Spurious(s) => s.0,
            _ => {
                return Err(Failure::Nondeterministic);
            },
        };
        self.pos = pos + 1;
        Ok(v)
    }

    /// Returns the thread to schedule at this scheduling branch point: the
    /// recorded choice when replaying a known path, otherwise a new branch
    /// point is seeded with the current state of every thread.
    pub fn branch_thread(
        &mut self,
        trace: &Trace,
        execution_id: execution::Id,
        seed: Vec<Thread>,
    ) -> (r: Result<Option<thread::Id>, Failure>)
        requires
            old(self).wf(),
            seed@.len() <= MAX_THREADS,
            forall|i: int, j: int|
                0 <= i < seed@.len() && 0 <= j < seed@.len() && seed@[i] == Thread::Active
                    && seed@[j] == Thread::Active ==> i == j,
            forall|i: int|
                0 <= i < seed@.len() ==> seed@[i] != Thread::Pending && seed@[i] != Thread::Visited,
        ensures
            final(self).wf(),
            final(self).same_config(old(self)),
            kinds_preserved(old(self).branches@, final(self).branches@),
            forall|k: int|
                0 <= k < old(self).branches@.len() ==> final(self).branches@[k]
                    == old(self).branches@[k],
            old(self).pos <= final(self).pos,
            final(self).inconsistent == (old(self).inconsistent || (!old(self).spec_is_traversed() && !trace_matches(
                old(self).schedule_trace@[old(self).pos as int],
                *trace,
            ))),
            r is Err ==> r == Err::<Option<thread::Id>, Failure>(Failure::BranchLimit) || r == Err::<
                Option<thread::Id>,
                Failure,
            >(Failure::PreemptionOverflow) || r == Err::<Option<thread::Id>, Failure>(Failure::Nondeterministic),
            r matches Ok(res) ==> {
                &&& old(self).pos < final(self).pos <= final(self).branches@.len()
                &&& final(self).branches@[final(self).pos - 1] matches Entry::Schedule(s)
                    && is_first(s.threads@, Thread::Active, opt_thread_index(res))
                &&& res matches Some(id) ==> id.execution_id == execution_id
            },
            old(self).spec_is_traversed() && !old(self).inconsistent ==> {
                &&& r is Err <==> (old(self).branches@.len() >= old(self).max_branches
                    || prev_overflows(old(self).branches@))
                &&& r is Ok ==> {
                    &&& final(self).pos == old(self).branches@.len() + 1
                    &&& final(self).branches@.len() == old(self).branches@.len() + 1
                    &&& final(self).branches@.last() matches Entry::Schedule(s) && s.threads@
                        == with_active(seeded(seed@, old(self).exploring))
                }
            },
            !old(self).spec_is_traversed() && !old(self).inconsistent && trace_matches(
                old(self).schedule_trace@[old(self).pos as int],
                *trace,
            ) ==> {
                &&& final(self).branches == old(self).branches
                &&& !final(self).inconsistent
                &&& r is Err <==> !(old(self).branches@[old(self).pos as int] is Schedule)
                &&& r is Err ==> r == Err::<Option<thread::Id>, Failure>(Failure::Nondeterministic)
                &&& r is Ok ==> final(self).pos == old(self).pos + 1
            },
    {
        if !self.is_traversed() {
            self.check_trace(trace);
        }
        if self.is_traversed() || self.is_inconsistent() {
            if self.is_inconsistent() {
                self.pos = self.branches.len();
            }
            if self.branches.len() >= self.max_branches {
                return Err(Failure::BranchLimit);
            }
            let prev = self.last_schedule();
            let mut preemptions: u8 = 0;
            let mut prev_active: Option<u8> = None;
            if let Some(p) = prev {
                match &self.branches[p] {
                    Entry::Schedule(ps) => {
                        assert(entry_wf(self.branches@[p as int], p as int, self.branches@, self.preemption_bound));
                        if ps.preemptions_overflow() {
                            return Err(Failure::PreemptionOverflow);
                        }
                        preemptions = ps.preemptions();
                        prev_active = ps.active_thread_index();
                        proof {
                            if let Some(b) = self.preemption_bound {
                                lemma_preemptions_within_bound(*ps, p as int, self.branches@, b);
                            }
                        }
                    },
                    _ => {},
                }
            } else {
                proof {
                    if prev_overflows(self.branches@) {
                        let i = choose|i: usize|
                            is_last_schedule(self.branches@, Some(i)) && entry_overflows(
                                #[trigger] self.branches@[i as int],
                            );
                        assert(self.branches@[i as int] is Schedule);
                    }
                }
            }
            proof {
                if let Some(p) = prev {
                    if prev_overflows(self.branches@) {
                        let i = choose|i: usize|
                            is_last_schedule(self.branches@, Some(i)) && entry_overflows(
                                #[trigger] self.branches@[i as int],
                            );
                        assert(i == p);
                    }
                }
            }
            // Initialize the thread states from the seed.
            let mut threads: Vec<Thread> = Vec::new();
            let mut i: usize = 0;
            while i < MAX_THREADS
                invariant
                    i <= MAX_THREADS,
                    threads@.len() == i,
                    forall|k: int| 0 <= k < i ==> threads@[k] == seeded(seed@, self.exploring)[k],
                decreases MAX_THREADS - i,
            {
                if i < seed.len() {
                    let v = seed[i];
                    if !self.exploring && v == Thread::Skip {
                        threads.push(Thread::Disabled);
                    } else {
                        threads.push(v);
                    }
                } else {
                    threads.push(Thread::Disabled);
                }
                i = i + 1;
            }
            let ghost ts0 = threads@;
            assert(ts0 =~= seeded(seed@, self.exploring));
            let found = find_first(&threads, Thread::Active);
            let mut active: Option<u8> = None;
            match found {
                Some(a) => {
                    active = Some(a as u8);
                },
                None => {
                    // Ensure at least one thread is active, otherwise toggle a
                    // yielded thread.
                    let y = find_first(&threads, Thread::Yield);
                    if let Some(j) = y {
                        threads.set(j, Thread::Active);
                        active = Some(j as u8);
                    }
                },
            }
            proof {
                lemma_first_index(ts0, Thread::Active);
                lemma_first_index(ts0, Thread::Yield);
                assert(threads@ =~= with_active(ts0));
                lemma_first_index(threads@, Thread::Active);
                assert(is_first(threads@, Thread::Active, opt_u8_int(active)));
                // No pending or visited thread in a fresh branch point.
                assert forall|k: int| 0 <= k < MAX_THREADS implies threads@[k] != Thread::Pending
                    && threads@[k] != Thread::Visited by {
                    if k < seed@.len() {
                        assert(seed@[k] != Thread::Pending && seed@[k] != Thread::Visited);
                    }
                }
            }
            let mut initial_active = active;
            if prev.is_some() {
                if initial_active != prev_active {
                    initial_active = None;
                }
            }
            let ghost old_bs = self.branches@;
            let sched = Schedule { preemptions, initial_active, threads, prev };
            proof {
                assert(!has_thread(sched.threads@, Thread::Visited));
                assert(!has_thread(sched.threads@, Thread::Pending));
                assert(schedule_wf(sched, old_bs.len() as int, old_bs.push(Entry::Schedule(sched)), self.preemption_bound));
                lemma_push_preserves_wf(old_bs, Entry::Schedule(sched), self.preemption_bound);
            }
            self.push_new_schedule_trace(trace, Entry::Schedule(sched));
            assert(self.branches@ =~= old_bs.push(Entry::Schedule(sched)));
        }
        let pos = self.pos;
        let r = match &self.branches[pos] {
            Entry::Schedule(s) => {
                assert(entry_wf(self.branches@[pos as int], pos as int, self.branches@, self.preemption_bound));
                find_first(&s.threads, Thread::Active)
            },
            _ => {
                return Err(Failure::Nondeterministic);
            },
        };
        self.pos = pos + 1;
        match r {
            Some(i) => Ok(Some(thread::Id::new(execution_id, i))),
            None => Ok(None),
        }
    }

    /// Backtracks `thread_id` at the scheduling branch point `point`.
    fn backtrack_at(&mut self, point: usize, thread_id: thread::Id)
        requires
            old(self).wf(),
            point < old(self).branches@.len(),
            old(self).branches@[point as int] is Schedule,
        ensures
            final(self).wf(),
            final(self).same_config(old(self)),
            final(self).pos == old(self).pos,
            final(self).schedule_trace == old(self).schedule_trace,
            final(self).inconsistent == old(self).inconsistent,
            final(self).branches@.len() == old(self).branches@.len(),
            forall|k: int|
                0 <= k < old(self).branches@.len() && k != point ==> final(self).branches@[k]
                    == old(self).branches@[k],
            schedule_explored(old(self).branches@[point as int], final(self).branches@[point as int]),
            final(self).branches@[point as int] matches Entry::Schedule(s) && s.threads@
                == bt_threads(
                threads_of(old(self).branches@[point as int]),
                thread_id.id as int,
                s.preemptions,
                old(self).preemption_bound,
            ),
            disabled_below_bound(old(self).branches@[point as int], thread_id.id, old(self).preemption_bound)
                ==> forall|i: int|
                0 <= i < MAX_THREADS ==> #[trigger] threads_of(final(self).branches@[point as int])[i]
                    != Thread::Skip,
    {
        let ghost old_bs = self.branches@;
        let mut e = Entry::Spurious(Spurious(false));
        self.branches.set_and_swap(point, &mut e);
        match e {
            Entry::Schedule(mut s) => {
                assert(entry_wf(old_bs[point as int], point as int, old_bs, self.preemption_bound));
                let ghost ts = s.threads@;
                s.backtrack(thread_id, self.preemption_bound);
                proof {
                    if disabled_below_bound(old_bs[point as int], thread_id.id, self.preemption_bound) {
                        assert forall|i: int| 0 <= i < MAX_THREADS implies #[trigger] s.threads@[i] != Thread::Skip by {
                            assert(s.threads@[i] == (if ts[i] == Thread::Skip { Thread::Pending } else { ts[i] }));
                        }
                    }
                    assert(only_explored(ts, s.threads@));
                    // The active threads do not move and no thread becomes
                    // visited, so the branch point stays well formed.
                    assert(has_thread(s.threads@, Thread::Visited) ==> has_thread(ts, Thread::Visited));
                    assert(has_thread(ts, Thread::Visited) ==> has_thread(s.threads@, Thread::Visited)) by {
                        if has_thread(ts, Thread::Visited) {
                            let k = choose|k: int| 0 <= k < ts.len() && ts[k] == Thread::Visited;
                            assert(s.threads@[k] == Thread::Visited);
                        }
                    }
                    assert(has_thread(s.threads@, Thread::Pending) ==> (has_thread(ts, Thread::Pending) || !(self.preemption_bound matches Some(b) && s.preemptions == b)));
                    if let Some(i) = s.initial_active {
                        if !has_thread(s.threads@, Thread::Visited) {
                            assert(is_first(ts, Thread::Active, Some(i as int)));
                            assert(is_first(s.threads@, Thread::Active, Some(i as int)));
                        }
                    }
                    let nbs = old_bs.update(point as int, Entry::Schedule(s));
                    assert(schedule_wf(s, point as int, nbs, self.preemption_bound));
                    assert forall|k: int| 0 <= k < nbs.len() implies entry_wf(#[trigger] nbs[k], k, nbs, self.preemption_bound) by {
                        if k != point {
                            assert(entry_wf(old_bs[k], k, old_bs, self.preemption_bound));
                            if let Entry::Schedule(s2) = nbs[k] {
                                if let Some(p) = s2.prev {
                                    assert(old_bs[p as int] is Schedule);
                                }
                            }
                        }
                    }
                }
                self.branches.set(point, Entry::Schedule(s));
            },
            other => {
                self.branches.set(point, other);
            },
        }
    }

    /// Adds a backtrack point: `thread_id` is to be explored from the
    /// scheduling branch point `point`. Under a preemption bound, the first
    /// earlier branch point where the active thread changed (or the very
    /// first one) is also backtracked, to cover the cases the bound cuts off.
    pub fn backtrack(&mut self, point: usize, thread_id: thread::Id)
        requires
            old(self).wf(),
            point < old(self).branches@.len(),
            old(self).branches@[point as int] is Schedule,
        ensures
            final(self).wf(),
            final(self).same_config(old(self)),
            final(self).pos == old(self).pos,
            final(self).schedule_trace == old(self).schedule_trace,
            final(self).inconsistent == old(self).inconsistent,
            final(self).branches@.len() == old(self).branches@.len(),
            schedule_explored(old(self).branches@[point as int], final(self).branches@[point as int]),
            threads_of(final(self).branches@[point as int]) == bt_threads(
                threads_of(old(self).branches@[point as int]),
                thread_id.id as int,
                old(self).branches@[point as int]->Schedule_0.preemptions,
                old(self).preemption_bound,
            ),
            ({
                let bs = old(self).branches@;
                let second = second_target(bs, point as int, old(self).preemption_bound);
                second >= 0 ==> second < point && schedule_explored(bs[second], final(self).branches@[second])
            }),
            ({
                let bs = old(self).branches@;
                let second = second_target(bs, point as int, old(self).preemption_bound);
                second >= 0 ==> threads_of(final(self).branches@[second]) == bt_threads(
                    threads_of(bs[second]),
                    thread_id.id as int,
                    bs[second]->Schedule_0.preemptions,
                    old(self).preemption_bound,
                )
            }),
            forall|k: int|
                0 <= k < old(self).branches@.len() && k != point && k != second_target(
                    old(self).branches@,
                    point as int,
                    old(self).preemption_bound,
                ) ==> final(self).branches@[k] == old(self).branches@[k],
            // A race with a thread that was disabled at the race point leaves
            // no thread skipped there.
            disabled_below_bound(old(self).branches@[point as int], thread_id.id, old(self).preemption_bound)
                ==> forall|i: int|
                0 <= i < MAX_THREADS ==> #[trigger] threads_of(final(self).branches@[point as int])[i]
                    != Thread::Skip,
    {
        let ghost bs = self.branches@;
        proof {
            assert(entry_wf(bs[point as int], point as int, bs, self.preemption_bound));
        }
        let prev = match &self.branches[point] {
            Entry::Schedule(s) => s.prev,
            _ => None,
        };
        // Exhaustive DPOR only requires adding this backtrack point
        self.backtrack_at(point, thread_id);
        let ghost bs1 = self.branches@;
        let mut curr = match prev {
            Some(c) => c,
            None => {
                return ;
            },
        };
        if self.preemption_bound.is_some() {
            loop
                invariant
                    self.wf(),
                    self.branches@ == bs1,
                    self.same_config(old(self)),
                    self.pos == old(self).pos,
                    self.schedule_trace == old(self).schedule_trace,
                    self.inconsistent == old(self).inconsistent,
                    bs1.len() == bs.len(),
                    bs == old(self).branches@,
                    self.preemption_bound is Some,
                    prev == (match bs[point as int] { Entry::Schedule(s) => s.prev, _ => None }),
                    schedule_explored(bs[point as int], bs1[point as int]),
                    threads_of(bs1[point as int]) == bt_threads(
                        threads_of(bs[point as int]),
                        thread_id.id as int,
                        bs[point as int]->Schedule_0.preemptions,
                        self.preemption_bound,
                    ),
                    disabled_below_bound(bs[point as int], thread_id.id, self.preemption_bound)
                        ==> forall|i: int|
                        0 <= i < MAX_THREADS ==> #[trigger] threads_of(bs1[point as int])[i]
                            != Thread::Skip,
                    curr < point,
                    point < bs.len(),
                    bs[curr as int] is Schedule,
                    prev is Some,
                    chain_target(bs, prev->0 as int) == chain_target(bs, curr as int),
                    forall|k: int| 0 <= k < bs.len() && k != point ==> bs1[k] == bs[k],
                decreases curr,
            {
                assert(bs1[curr as int] == bs[curr as int]);
                assert(entry_wf(bs1[curr as int], curr as int, bs1, self.preemption_bound));
                let (curr_prev, active_a) = match &self.branches[curr] {
                    Entry::Schedule(s) => (s.prev, s.active_thread_index()),
                    _ => (None, None),
                };
                match curr_prev {
                    Some(p) => {
                        assert(bs1[p as int] == bs[p as int]);
                        assert(entry_wf(bs1[p as int], p as int, bs1, self.preemption_bound));
                        let active_b = match &self.branches[p] {
                            Entry::Schedule(s) => s.active_thread_index(),
                            _ => None,
                        };
                        proof {
                            assert(opt_u8_int(active_a) == first_index(threads_of(bs[curr as int]), Thread::Active));
                            assert(opt_u8_int(active_b) == first_index(threads_of(bs[p as int]), Thread::Active));
                            assert((active_a == active_b) <==> (opt_u8_int(active_a) == opt_u8_int(active_b)));
                        }
                        if active_a != active_b {
                            assert(chain_target(bs, curr as int) == curr as int);
                            assert(second_target(bs, point as int, self.preemption_bound) == curr as int);
                            self.backtrack_at(curr, thread_id);
                            return ;
                        }
                        assert(chain_target(bs, curr as int) == chain_target(bs, p as int));
                        curr = p;
                    },
                    None => {
                        // This is the very first schedule
                        assert(chain_target(bs, curr as int) == curr as int);
                        assert(second_target(bs, point as int, self.preemption_bound) == curr as int);
                        self.backtrack_at(curr, thread_id);
                        return ;
                    },
                }
            }
        }
    }

    /// Resets the path for the next execution of the model: the last branch
    /// point with an alternative left moves on to it, and every branch point
    /// after it is dropped. Returns `false` when every path has been explored.
    /// A path on which the model did not replay its operations cannot step.
    pub fn step(&mut self) -> (r: bool)
        requires
            old(self).wf(),
            !old(self).inconsistent,
        ensures
            final(self).same_config(old(self)),
            final(self).pos == 0,
            !final(self).inconsistent,
            r ==> {
                &&& final(self).wf()
                &&& stepped(old(self).branches@, final(self).branches@)
            },
            !r ==> forall|j: int|
                0 <= j < old(self).branches@.len() ==> exhausted(#[trigger] old(self).branches@[j]),
    {
        // The path starts traversing from the beginning.
        self.pos = 0;
        self.exec_trace.clear();
        let ghost obs = old(self).branches@;
        let mut i = self.branches.len();
        while i > 0
            invariant
                self.same_config(old(self)),
                !self.inconsistent,
                !old(self).inconsistent,
                self.pos == 0,
                obs == old(self).branches@,
                forall|k: int| 0 <= k < obs.len() ==> entry_wf(#[trigger] obs[k], k, obs, self.preemption_bound),
                obs.len() == old(self).schedule_trace@.len(),
                obs.len() <= self.max_branches,
                i <= self.branches@.len(),
                self.branches@.len() <= obs.len(),
                self.schedule_trace@.len() == self.branches@.len(),
                forall|j: int| 0 <= j < i ==> #[trigger] self.branches@[j] == obs[j],
                forall|j: int| i <= j < obs.len() ==> exhausted(#[trigger] obs[j]),
            decreases i,
        {
            let last = i - 1;
            // Remove all branch points created after this one.
            self.branches.truncate(last + 1);
            self.schedule_trace.truncate(last + 1);
            let ghost pre = self.branches@;
            assert(pre[last as int] == obs[last as int]);
            assert(entry_wf(obs[last as int], last as int, obs, self.preemption_bound));
            let mut e = Entry::Spurious(Spurious(true));
            self.branches.set_and_swap(last, &mut e);
            match e {
                Entry::Schedule(mut s) => {
                    let ghost ts = s.threads@;
                    // Transition the active thread to visited.
                    let a = find_first(&s.threads, Thread::Active);
                    if let Some(ai) = a {
                        s.threads.set(ai, Thread::Visited);
                    }
                    let ghost t1 = s.threads@;
                    // Find a pending thread and transition it to active.
                    let p = find_first(&s.threads, Thread::Pending);
                    if let Some(pi) = p {
                        s.threads.set(pi, Thread::Active);
                    }
                    proof {
                        lemma_first_index(ts, Thread::Active);
                        lemma_first_index(t1, Thread::Pending);
                        assert(s.threads@ =~= activate_next(ts));
                        // Pending threads were there before and stay apart
                        // from the active one.
                        assert(has_thread(ts, Thread::Pending) <==> has_thread(t1, Thread::Pending)) by {
                            if has_thread(ts, Thread::Pending) {
                                let k = choose|k: int| 0 <= k < ts.len() && ts[k] == Thread::Pending;
                                assert(t1[k] == Thread::Pending);
                            }
                            if has_thread(t1, Thread::Pending) {
                                let k = choose|k: int| 0 <= k < t1.len() && t1[k] == Thread::Pending;
                                assert(ts[k] == Thread::Pending);
                            }
                        }
                    }
                    let rem = p.is_some();
                    let ghost ns = s;
                    self.branches.set(last, Entry::Schedule(s));
                    if rem {
                        proof {
                            let pi = p->0;
                            assert(has_thread(ts, Thread::Pending));
                            let nbs = self.branches@;
                            // The branch point now has a visited thread (or
                            // never had an initial active one).
                            assert(has_thread(ns.threads@, Thread::Visited) || ns.initial_active is None) by {
                                if let Some(ia) = ns.initial_active {
                                    if !has_thread(ts, Thread::Visited) {
                                        assert(is_first(ts, Thread::Active, Some(ia as int)));
                                        let ai = a->0;
                                        assert(ns.threads@[ai as int] == Thread::Visited);
                                    } else {
                                        let k = choose|k: int| 0 <= k < ts.len() && ts[k] == Thread::Visited;
                                        assert(t1[k] == Thread::Visited);
                                        assert(ns.threads@[k] == Thread::Visited);
                                    }
                                }
                            }
                            assert(schedule_wf(ns, last as int, nbs, self.preemption_bound));
                            assert forall|k: int| 0 <= k < nbs.len() implies entry_wf(#[trigger] nbs[k], k, nbs, self.preemption_bound) by {
                                if k < last {
                                    assert(nbs[k] == obs[k]);
                                    assert(entry_wf(obs[k], k, obs, self.preemption_bound));
                                    if let Entry::Schedule(s2) = nbs[k] {
                                        if let Some(pp) = s2.prev {
                                            assert(nbs[pp as int] == obs[pp as int]);
                                        }
                                    }
                                }
                            }
                            assert(forall|j: int| 0 <= j < last ==> #[trigger] self.branches@[j] == obs[j]);
                            assert(advanced(obs[last as int], self.branches@[last as int]));
                            assert(stepped_at(obs, self.branches@, last as int));
                        }
                        return true;
                    }
                },
                Entry::Load(mut l) => {
                    l.pos = l.pos + 1;
                    let more = l.pos < l.len;
                    self.branches.set(last, Entry::Load(l));
                    if more {
                        proof {
                            let nbs = self.branches@;
                            assert forall|k: int| 0 <= k < nbs.len() implies entry_wf(#[trigger] nbs[k], k, nbs, self.preemption_bound) by {
                                if k < last {
                                    assert(nbs[k] == obs[k]);
                                    assert(entry_wf(obs[k], k, obs, self.preemption_bound));
                                    if let Entry::Schedule(s2) = nbs[k] {
                                        if let Some(pp) = s2.prev {
                                            assert(nbs[pp as int] == obs[pp as int]);
                                        }
                                    }
                                }
                            }
                            assert(advanced(obs[last as int], self.branches@[last as int]));
                            assert(stepped_at(obs, self.branches@, last as int));
                        }
                        return true;
                    }
                },
                Entry::Spurious(mut sp) => {
                    if !sp.0 {
                        sp.0 = true;
                        self.branches.set(last, Entry::Spurious(sp));
                        proof {
                            let nbs = self.branches@;
                            assert forall|k: int| 0 <= k < nbs.len() implies entry_wf(#[trigger] nbs[k], k, nbs, self.preemption_bound) by {
                                if k < last {
                                    assert(nbs[k] == obs[k]);
                                    assert(entry_wf(obs[k], k, obs, self.preemption_bound));
                                    if let Entry::Schedule(s2) = nbs[k] {
                                        if let Some(pp) = s2.prev {
                                            assert(nbs[pp as int] == obs[pp as int]);
                                        }
                                    }
                                }
                            }
                            assert(advanced(obs[last as int], self.branches@[last as int]));
                            assert(stepped_at(obs, self.branches@, last as int));
                        }
                        return true;
                    }
                    self.branches.set(last, Entry::Spurious(sp));
                },
            }
            i = last;
        }
        false
    }

    /// Position of the last scheduling branch point.
    pub fn last_schedule(&self) -> (r: Option<usize>)
        ensures
            is_last_schedule(self.branches@, r),
    {
        let mut i = self.branches.len();
        while i > 0
            invariant
                i <= self.branches@.len(),
                forall|j: int| i <= j < self.branches@.len() ==> !(#[trigger] self.branches@[j] is Schedule),
            decreases i,
        {
            i = i - 1;
            if let Entry::Schedule(_) = &self.branches[i] {
                return Some(i);
            }
        }
        None
    }
}

} // verus!
