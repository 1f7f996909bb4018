//! Causality tracking of causally checked cells: every access must be
//! ordered after the last mutable access, and a mutable access after every
//! access. Accesses may also be checked later (deferred), against all the
//! accesses that happen before they are checked.
use vstd::prelude::*;

use crate::rt::execution::Execution;
use crate::rt::object::CausalCellRef;
use crate::rt::thread::{active_causality, lemma_active_wf, ThreadSet};
use crate::rt::vv::{lemma_join_least_upper_bound, vv_join, vv_le, VersionVec};
use crate::rt::Failure;

verus! {

/// The access clocks of a cell.
#[derive(Debug)]
pub struct Causality {
    /// The transitive closure of all immutable accesses of the data.
    pub immut_access_version: VersionVec,
    /// The last mutable access of the data.
    pub mut_access_version: VersionVec,
}

/// An access whose check was deferred.
#[derive(Debug)]
pub struct Deferred {
    /// True if a mutable access
    pub is_mut: bool,
    /// Thread causality at the point the access happened.
    pub thread_causality: VersionVec,
    /// Whether the access is still valid.
    pub result: Result<(), Failure>,
}

/// The causality state of one cell.
#[derive(Debug)]
pub struct State {
    pub causality: Causality,
    /// Deferred accesses, by the index handed out when they were made;
    /// `None` once checked.
    pub deferred: Vec<Option<Deferred>>,
}

/// A set of deferred accesses to check together.
#[derive(Debug)]
pub struct CausalCheck {
    /// The cell and the index of each deferred access.
    pub deferred: Vec<(CausalCellRef, usize)>,
}

// ===== specifications =====

/// A deferred access: whether it is mutable, the clock of the accessing
/// thread, and whether it is still valid.
pub type DeferredView = (bool, Seq<usize>, bool);

/// A cell: its immutable and mutable access clocks and its deferred accesses.
pub type StateView = (Seq<usize>, Seq<usize>, Seq<Option<DeferredView>>);

impl View for Deferred {
    type V = DeferredView;

    open spec fn view(&self) -> DeferredView {
        (self.is_mut, self.thread_causality@, self.result is Ok)
    }
}

pub open spec fn opt_deferred_view(d: Option<Deferred>) -> Option<DeferredView> {
    match d {
        Some(x) => Some(x@),
        None => None,
    }
}

impl View for State {
    type V = StateView;

    open spec fn view(&self) -> StateView {
        (
            self.causality.immut_access_version@,
            self.causality.mut_access_version@,
            self.deferred@.map_values(|d: Option<Deferred>| opt_deferred_view(d)),
        )
    }
}

/// Two clocks are concurrent: neither happens before the other.
pub open spec fn concurrent(a: Seq<usize>, b: Seq<usize>) -> bool {
    !vv_le(a, b) && !vv_le(b, a)
}

/// An immutable access at `t` is allowed.
pub open spec fn read_ok(s: StateView, t: Seq<usize>) -> bool {
    vv_le(s.1, t)
}

/// A mutable access at `t` is allowed.
pub open spec fn write_ok(s: StateView, t: Seq<usize>) -> bool {
    vv_le(s.1, t) && vv_le(s.0, t)
}

/// A deferred access after another access at `t` (mutable if `by_mut`): a
/// mutable access concurrent with any access, or any access concurrent with
/// a mutable one, is invalid.
pub open spec fn deferred_after(d: DeferredView, t: Seq<usize>, by_mut: bool) -> DeferredView {
    if d.2 && (by_mut || d.0) && concurrent(d.1, t) {
        (d.0, d.1, false)
    } else {
        d
    }
}

/// Every pending deferred access after another access at `t`.
pub open spec fn all_after(ds: Seq<Option<DeferredView>>, t: Seq<usize>, by_mut: bool) -> Seq<Option<DeferredView>> {
    ds.map_values(|o: Option<DeferredView>| match o {
        Some(d) => Some(deferred_after(d, t, by_mut)),
        None => None,
    })
}

/// A cell after an allowed immutable access at `t`.
pub open spec fn after_read(s: StateView, t: Seq<usize>) -> StateView {
    (vv_join(s.0, t), s.1, all_after(s.2, t, false))
}

/// A cell after an allowed mutable access at `t`.
pub open spec fn after_write(s: StateView, t: Seq<usize>) -> StateView {
    (s.0, vv_join(s.1, t), all_after(s.2, t, true))
}

/// All clocks of a cell have `max` entries.
pub open spec fn state_wf(s: StateView, max: nat) -> bool {
    &&& s.0.len() == max
    &&& s.1.len() == max
    &&& forall|i: int| 0 <= i < s.2.len() ==> (#[trigger] s.2[i] matches Some(d) ==> d.1.len() == max)
}

/// All cells are well formed for `max` threads.
pub open spec fn cells_wf(cells: Seq<StateView>, max: nat) -> bool {
    forall|i: int| 0 <= i < cells.len() ==> state_wf(#[trigger] cells[i], max)
}

/// Resolving the deferred access `idx` of cell `c`: `None` when it was
/// invalid; otherwise it counts as an access at its own time, and every
/// other pending access is checked against it.
pub open spec fn resolve_step(cells: Seq<StateView>, c: int, idx: int) -> Option<Seq<StateView>> {
    let s = cells[c];
    let d = s.2[idx]->Some_0;
    if !d.2 {
        None
    } else {
        let rest = all_after(s.2.update(idx, None), d.1, d.0);
        let ns = if d.0 {
            (s.0, vv_join(s.1, d.1), rest)
        } else {
            (vv_join(s.0, d.1), s.1, rest)
        };
        Some(cells.update(c, ns))
    }
}

/// The cell index and access index of a deferred check entry.
pub open spec fn pair_view(p: (CausalCellRef, usize)) -> (int, int) {
    (p.0.index as int, p.1 as int)
}

/// Resolving the first `n` deferred accesses of `pairs`, in order.
pub open spec fn resolve_prefix(cells: Seq<StateView>, pairs: Seq<(CausalCellRef, usize)>, n: nat) -> Option<Seq<StateView>>
    decreases n,
{
    if n == 0 {
        Some(cells)
    } else {
        match resolve_prefix(cells, pairs, (n - 1) as nat) {
            Some(cs) => resolve_step(cs, pair_view(pairs[n - 1]).0, pair_view(pairs[n - 1]).1),
            None => None,
        }
    }
}

/// Every entry names a pending deferred access, and no two name the same.
pub open spec fn checks_valid(cells: Seq<StateView>, pairs: Seq<(CausalCellRef, usize)>) -> bool {
    &&& forall|k: int| 0 <= k < pairs.len() ==> pair_valid(cells, #[trigger] pair_view(pairs[k]))
    &&& forall|k: int, l: int| 0 <= k < l < pairs.len() ==> #[trigger] pair_view(pairs[k]) != #[trigger] pair_view(pairs[l])
}

/// Every clock of each cell has as many entries as its immutable access
/// clock.
pub open spec fn cells_uniform(cells: Seq<StateView>) -> bool {
    forall|i: int| 0 <= i < cells.len() ==> state_wf(#[trigger] cells[i], cells[i].0.len())
}

/// The entry `p` names a pending deferred access of `cells`.
pub open spec fn pair_valid(cells: Seq<StateView>, p: (int, int)) -> bool {
    0 <= p.0 < cells.len() && 0 <= p.1 < cells[p.0].2.len() && cells[p.0].2[p.1] is Some
}

/// Once a deferred access is invalid, resolving more of them still fails.
pub proof fn lemma_resolve_none(cells: Seq<StateView>, pairs: Seq<(CausalCellRef, usize)>, m: nat, n: nat)
    requires
        m <= n,
        resolve_prefix(cells, pairs, m) is None,
    ensures
        resolve_prefix(cells, pairs, n) is None,
    decreases n - m,
{
    if n > m {
        lemma_resolve_none(cells, pairs, m, (n - 1) as nat);
    }
}

/// The view of every cell of a store.
pub open spec fn cells_view(cells: Seq<State>) -> Seq<StateView> {
    cells.map_values(|s: State| s@)
}

// ===== impl Causality =====

impl Causality {
    /// An immutable access at `thread_causality` is allowed: there is no
    /// concurrent mutable access, i.e. the last mutable access happens before
    /// it.
    pub fn check(&self, thread_causality: &VersionVec) -> (r: Result<(), Failure>)
        ensures
            r is Ok <==> vv_le(self.mut_access_version@, thread_causality@),
            r is Err ==> r == Err::<(), Failure>(Failure::CausalityViolation),
    {
        if !self.mut_access_version.le(thread_causality) {
            // Concurrent mutable access and immutable access(es)
            return Err(Failure::CausalityViolation);
        }
        Ok(())
    }

    /// A mutable access at `thread_causality` is allowed: the last mutable
    /// access and every immutable access happen before it.
    pub fn check_mut(&self, thread_causality: &VersionVec) -> (r: Result<(), Failure>)
        ensures
            r is Ok <==> vv_le(self.mut_access_version@, thread_causality@) && vv_le(
                self.immut_access_version@,
                thread_causality@,
            ),
            r is Err ==> r == Err::<(), Failure>(Failure::CausalityViolation),
    {
        if !self.mut_access_version.le(thread_causality) {
            // Concurrent mutable accesses
            return Err(Failure::CausalityViolation);
        }
        if !self.immut_access_version.le(thread_causality) {
            // Concurrent mutable access and immutable access(es)
            return Err(Failure::CausalityViolation);
        }
        Ok(())
    }
}

// ===== impl Deferred =====

impl Deferred {
    /// Checks the deferred access against an immutable access at
    /// `thread_causality`: concurrent reads are fine, a concurrent mutable
    /// access is not.
    pub fn check(&mut self, thread_causality: &VersionVec)
        ensures
            final(self)@ == deferred_after(old(self)@, thread_causality@, false),
            final(self).thread_causality == old(self).thread_causality,
            final(self).result is Err ==> final(self).result == Err::<(), Failure>(Failure::CausalityViolation)
                || final(self).result == old(self).result,
    {
        if self.result.is_err() {
            return;
        }
        if !self.is_mut {
            // Concurrent reads are fine
            return;
        }
        // Mutable access w/ immutable access must not be concurrent
        if self.thread_causality.partial_cmp(thread_causality).is_none() {
            self.result = Err(Failure::CausalityViolation);
        }
    }

    /// Checks the deferred access against a mutable access at
    /// `thread_causality`: they must not be concurrent.
    pub fn check_mut(&mut self, thread_causality: &VersionVec)
        ensures
            final(self)@ == deferred_after(old(self)@, thread_causality@, true),
            final(self).thread_causality == old(self).thread_causality,
            final(self).result is Err ==> final(self).result == Err::<(), Failure>(Failure::CausalityViolation)
                || final(self).result == old(self).result,
    {
        if self.result.is_err() {
            return;
        }
        if self.thread_causality.partial_cmp(thread_causality).is_none() {
            self.result = Err(Failure::CausalityViolation);
        }
    }
}

// ===== impl State =====

impl State {
    /// A new cell; its creation counts as both a mutable and an immutable
    /// access by the active thread.
    pub fn new(threads: &ThreadSet) -> (r: State)
        requires
            threads.wf(),
            threads.active is Some,
        ensures
            r@ == (active_causality(*threads), active_causality(*threads), Seq::<Option<DeferredView>>::empty()),
    {
        let v = &threads.active().causality;
        let r = State {
            causality: Causality { immut_access_version: v.clone(), mut_access_version: v.clone() },
            deferred: Vec::new(),
        };
        assert(r@.2 =~= Seq::<Option<DeferredView>>::empty());
        r
    }

    /// Checks every pending deferred access against an access at `t`.
    fn check_deferred(&mut self, t: &VersionVec, by_mut: bool)
        ensures
            final(self)@ == (old(self)@.0, old(self)@.1, all_after(old(self)@.2, t@, by_mut)),
    {
        let n = self.deferred.len();
        let mut i: usize = 0;
        while i < n
            invariant
                n == self.deferred@.len(),
                n == old(self).deferred@.len(),
                i <= n,
                self.causality == old(self).causality,
                forall|k: int| 0 <= k < i ==> opt_deferred_view(#[trigger] self.deferred@[k]) == match opt_deferred_view(old(self).deferred@[k]) {
                    Some(d) => Some(deferred_after(d, t@, by_mut)),
                    None => None,
                },
                forall|k: int| i <= k < n ==> #[trigger] self.deferred@[k] == old(self).deferred@[k],
            decreases n - i,
        {
            let slot = &mut self.deferred[i];
            match slot {
                Some(d) => {
                    if by_mut {
                        d.check_mut(t);
                    } else {
                        d.check(t);
                    }
                },
                None => {},
            }
            i = i + 1;
        }
        assert(self@.2 =~= all_after(old(self)@.2, t@, by_mut));
    }

    /// Checks that the active thread can make an immutable access: there is
    /// no concurrent mutable access. The access joins the immutable access
    /// clock, and every deferred access is checked against it.
    pub fn check(&mut self, threads: &ThreadSet) -> (r: Result<(), Failure>)
        requires
            threads.wf(),
            threads.active is Some,
            state_wf(old(self)@, threads.max as nat),
        ensures
            r is Ok <==> read_ok(old(self)@, active_causality(*threads)),
            r is Err ==> r == Err::<(), Failure>(Failure::CausalityViolation) && *final(self) == *old(self),
            r is Ok ==> final(self)@ == after_read(old(self)@, active_causality(*threads)),
    {
        proof {
            lemma_active_wf(*threads);
        }
        let thread_causality = &threads.active().causality;
        let res = self.causality.check(thread_causality);
        if res.is_err() {
            return res;
        }
        self.causality.immut_access_version.join(thread_causality);
        self.check_deferred(thread_causality, false);
        Ok(())
    }

    /// Checks that the active thread can make a mutable access: no concurrent
    /// mutable or immutable access. The access becomes the last mutable
    /// access, and every deferred access is checked against it.
    pub fn check_mut(&mut self, threads: &ThreadSet) -> (r: Result<(), Failure>)
        requires
            threads.wf(),
            threads.active is Some,
            state_wf(old(self)@, threads.max as nat),
        ensures
            r is Ok <==> write_ok(old(self)@, active_causality(*threads)),
            r is Err ==> r == Err::<(), Failure>(Failure::CausalityViolation) && *final(self) == *old(self),
            r is Ok ==> final(self)@ == after_write(old(self)@, active_causality(*threads)),
    {
        proof {
            lemma_active_wf(*threads);
        }
        let thread_causality = &threads.active().causality;
        let res = self.causality.check_mut(thread_causality);
        if res.is_err() {
            return res;
        }
        self.causality.mut_access_version.join(thread_causality);
        self.check_deferred(thread_causality, true);
        Ok(())
    }

    /// Records an access by the active thread whose check is deferred, and
    /// returns its index. Whether it is valid now is recorded with it.
    pub fn defer(&mut self, threads: &ThreadSet, is_mut: bool) -> (r: usize)
        requires
            threads.wf(),
            threads.active is Some,
        ensures
            r == old(self)@.2.len(),
            final(self)@ == (old(self)@.0, old(self)@.1, old(self)@.2.push(Some((
                is_mut,
                active_causality(*threads),
                if is_mut {
                    write_ok(old(self)@, active_causality(*threads))
                } else {
                    read_ok(old(self)@, active_causality(*threads))
                },
            )))),
    {
        let thread_causality = &threads.active().causality;
        let index = self.deferred.len();
        let result = if is_mut {
            self.causality.check_mut(thread_causality)
        } else {
            self.causality.check(thread_causality)
        };
        self.deferred.push(Some(Deferred { is_mut, thread_causality: thread_causality.clone(), result }));
        assert(self@.2 =~= old(self)@.2.push(Some((
            is_mut,
            active_causality(*threads),
            if is_mut {
                write_ok(old(self)@, active_causality(*threads))
            } else {
                read_ok(old(self)@, active_causality(*threads))
            },
        ))));
        index
    }
}

// ===== impl CausalCheck =====

impl CausalCheck {
    /// No deferred access.
    pub fn default() -> (r: CausalCheck)
        ensures
            r.deferred@.len() == 0,
    {
        CausalCheck { deferred: Vec::new() }
    }

    /// Resolves the deferred accesses in order: fails if one of them was
    /// invalid; otherwise each counts as an access at the time it was made,
    /// and the accesses still pending are checked against it.
    pub fn resolve(self, cells: &mut Vec<State>) -> (r: Result<(), Failure>)
        requires
            cells_uniform(cells_view(old(cells)@)),
            checks_valid(cells_view(old(cells)@), self.deferred@),
        ensures
            final(cells)@.len() == old(cells)@.len(),
            r is Ok <==> resolve_prefix(cells_view(old(cells)@), self.deferred@, self.deferred@.len()) is Some,
            r is Ok ==> Some(cells_view(final(cells)@)) == resolve_prefix(
                cells_view(old(cells)@),
                self.deferred@,
                self.deferred@.len(),
            ),
            r is Err ==> r == Err::<(), Failure>(Failure::CausalityViolation),
            r is Ok ==> cells_uniform(cells_view(final(cells)@)),
            r is Ok ==> forall|j: int|
                0 <= j < old(cells)@.len() ==> (#[trigger] cells_view(final(cells)@)[j]).0.len() == cells_view(old(cells)@)[j].0.len(),
    {
        let n = self.deferred.len();
        let mut i: usize = 0;
        while i < n
            invariant
                n == self.deferred@.len(),
                i <= n,
                cells@.len() == old(cells)@.len(),
                resolve_prefix(cells_view(old(cells)@), self.deferred@, i as nat) == Some(cells_view(cells@)),
                cells_uniform(cells_view(cells@)),
                forall|j: int|
                    0 <= j < old(cells)@.len() ==> (#[trigger] cells_view(cells@)[j]).0.len() == cells_view(old(cells)@)[j].0.len(),
                forall|k: int| i <= k < n ==> pair_valid(cells_view(cells@), #[trigger] pair_view(self.deferred@[k])),
                forall|k: int, l: int|
                    0 <= k < l < n ==> #[trigger] pair_view(self.deferred@[k]) != #[trigger] pair_view(self.deferred@[l]),
            decreases n - i,
        {
            let (cref, idx) = self.deferred[i];
            let ghost before = cells_view(cells@);
            let ghost c = cref.index as int;
            proof {
                assert(pair_valid(before, pair_view(self.deferred@[i as int])));
                assert(cells@[c]@ == before[c]);
                assert(state_wf(before[c], before[c].0.len()));
            }
            let state = &mut cells[cref.index];
            let taken = state.deferred[idx].take();
            let d = taken.unwrap();
            if d.result.is_err() {
                proof {
                    assert(resolve_prefix(cells_view(old(cells)@), self.deferred@, (i + 1) as nat) is None);
                    lemma_resolve_none(cells_view(old(cells)@), self.deferred@, (i + 1) as nat, n as nat);
                }
                return Err(Failure::CausalityViolation);
            }
            if d.is_mut {
                state.causality.mut_access_version.join(&d.thread_causality);
            } else {
                state.causality.immut_access_version.join(&d.thread_causality);
            }
            state.check_deferred(&d.thread_causality, d.is_mut);
            proof {
                let s = before[c];
                let rest = all_after(s.2.update(idx as int, None), d.thread_causality@, d.is_mut);
                assert(cells@[c]@.2 =~= rest);
                assert(cells_view(cells@) =~= resolve_step(before, c, idx as int)->Some_0);
                assert forall|k: int| i + 1 <= k < n implies pair_valid(cells_view(cells@), #[trigger] pair_view(self.deferred@[k])) by {
                    assert(pair_valid(before, pair_view(self.deferred@[k])));
                    assert(pair_view(self.deferred@[i as int]) != pair_view(self.deferred@[k]));
                }
                assert forall|j: int| 0 <= j < cells_view(cells@).len() implies state_wf(#[trigger] cells_view(cells@)[j], cells_view(cells@)[j].0.len()) by {
                    assert(state_wf(before[j], before[j].0.len()));
                    if j == c {
                        let ns = cells_view(cells@)[j];
                        assert forall|q: int| 0 <= q < ns.2.len() implies (#[trigger] ns.2[q] matches Some(e) ==> e.1.len() == ns.0.len()) by {
                            assert(s.2[q] matches Some(e) ==> e.1.len() == s.0.len());
                        }
                    }
                }
            }
            i = i + 1;
        }
        Ok(())
    }

    /// Merges this check with another: the other's accesses are resolved
    /// after this one's.
    pub fn join(&mut self, other: CausalCheck)
        ensures
            final(self).deferred@ == old(self).deferred@ + other.deferred@,
    {
        let mut other = other;
        self.deferred.append(&mut other.deferred);
    }
}

/// The causality state of a causally checked cell: a handle to it in the
/// execution.
#[derive(Debug, Clone, Copy, PartialEq, Eq, Structural)]
pub struct CausalCell {
    pub obj_ref: CausalCellRef,
}

/// The handle names a causally checked cell of the execution.
pub open spec fn is_causal_cell(e: Execution, r: CausalCellRef) -> bool {
    &&& r.execution_id == e.objects.execution_id
    &&& r.index < e.objects.causal_cells@.len()
}

/// The causality state of the cell `r`.
pub open spec fn causal_view(e: Execution, r: CausalCellRef) -> StateView {
    e.objects.causal_cells@[r.index as int]@
}

/// Only the causality state of cell `r` changed, to `v`.
pub open spec fn cell_changed(old: Execution, new: Execution, r: CausalCellRef, v: StateView) -> bool {
    &&& new.same_config(&old)
    &&& new.path == old.path
    &&& new.threads == old.threads
    &&& new.objects.execution_id == old.objects.execution_id
    &&& new.objects.entries == old.objects.entries
    &&& new.objects.causal_cells@.len() == old.objects.causal_cells@.len()
    &&& causal_view(new, r) == v
    &&& forall|i: int|
        0 <= i < old.objects.causal_cells@.len() && i != r.index ==> #[trigger] new.objects.causal_cells@[i]
            == old.objects.causal_cells@[i]
}

/// Changing the causality state of one cell keeps the execution running.
proof fn lemma_cell_update(old: Execution, new: Execution, r: CausalCellRef)
    requires
        old.running(),
        is_causal_cell(old, r),
        cell_changed(old, new, r, causal_view(new, r)),
        state_wf(causal_view(new, r), old.max_threads as nat),
    ensures
        new.running(),
{
    let cs = cells_view(new.objects.causal_cells@);
    let ocs = cells_view(old.objects.causal_cells@);
    assert forall|i: int| 0 <= i < cs.len() implies state_wf(#[trigger] cs[i], new.max_threads as nat) by {
        if i != r.index {
            assert(state_wf(ocs[i], old.max_threads as nat));
        }
    }
    crate::rt::execution::lemma_wf_update(old, new);
}

impl CausalCell {
    /// A new cell: its creation counts as both a mutable and an immutable
    /// access by the active thread.
    pub fn new(execution: &mut Execution) -> (r: CausalCell)
        requires
            old(execution).running(),
        ensures
            final(execution).running(),
            final(execution).same_config(old(execution)),
            final(execution).path == old(execution).path,
            final(execution).threads == old(execution).threads,
            final(execution).objects.entries == old(execution).objects.entries,
            final(execution).objects.execution_id == old(execution).objects.execution_id,
            final(execution).objects.causal_cells@.drop_last() == old(execution).objects.causal_cells@,
            r.obj_ref.index == old(execution).objects.causal_cells@.len(),
            r.obj_ref.execution_id == old(execution).id,
            is_causal_cell(*final(execution), r.obj_ref),
            causal_view(*final(execution), r.obj_ref) == (
                active_causality(old(execution).threads),
                active_causality(old(execution).threads),
                Seq::<Option<DeferredView>>::empty(),
            ),
    {
        let ghost old_e = *execution;
        let state = State::new(&execution.threads);
        let obj_ref = execution.objects.insert_causal_cell(state);
        proof {
            assert(execution.objects.causal_cells@.drop_last() =~= old_e.objects.causal_cells@);
            let cs = cells_view(execution.objects.causal_cells@);
            let ocs = cells_view(old_e.objects.causal_cells@);
            lemma_active_wf(old_e.threads);
            assert forall|i: int| 0 <= i < cs.len() implies state_wf(#[trigger] cs[i], execution.max_threads as nat) by {
                if i < ocs.len() {
                    assert(state_wf(ocs[i], old_e.max_threads as nat));
                }
            }
            crate::rt::execution::lemma_wf_update(old_e, *execution);
        }
        CausalCell { obj_ref }
    }

    /// Whether an immutable access by the active thread is allowed now: no
    /// mutable access is concurrent with it.
    pub fn can_read(&self, execution: &Execution) -> (r: bool)
        requires
            execution.running(),
            is_causal_cell(*execution, self.obj_ref),
        ensures
            r == read_ok(causal_view(*execution, self.obj_ref), active_causality(execution.threads)),
    {
        let a = execution.threads.active.unwrap();
        proof {
            lemma_active_wf(execution.threads);
        }
        execution.objects.causal_cells[self.obj_ref.index].causality.mut_access_version.le(
            &execution.threads.threads[a].causality,
        )
    }

    /// Whether a mutable access by the active thread is allowed now: no
    /// access is concurrent with it.
    pub fn can_write(&self, execution: &Execution) -> (r: bool)
        requires
            execution.running(),
            is_causal_cell(*execution, self.obj_ref),
        ensures
            r == write_ok(causal_view(*execution, self.obj_ref), active_causality(execution.threads)),
    {
        let a = execution.threads.active.unwrap();
        proof {
            lemma_active_wf(execution.threads);
        }
        let c = &execution.objects.causal_cells[self.obj_ref.index].causality;
        c.mut_access_version.le(&execution.threads.threads[a].causality) && c.immut_access_version.le(
            &execution.threads.threads[a].causality,
        )
    }

    /// Checks an immutable access by the active thread: there is no
    /// concurrent mutable access. The access joins the cell's immutable
    /// access clock and every deferred access is checked against it.
    pub fn check(&self, execution: &mut Execution) -> (r: Result<(), Failure>)
        requires
            old(execution).running(),
            is_causal_cell(*old(execution), self.obj_ref),
        ensures
            final(execution).running(),
            r is Ok <==> read_ok(causal_view(*old(execution), self.obj_ref), active_causality(old(execution).threads)),
            r is Err ==> r == Err::<(), Failure>(Failure::CausalityViolation) && cell_changed(
                *old(execution),
                *final(execution),
                self.obj_ref,
                causal_view(*old(execution), self.obj_ref),
            ),
            r is Ok ==> cell_changed(
                *old(execution),
                *final(execution),
                self.obj_ref,
                after_read(causal_view(*old(execution), self.obj_ref), active_causality(old(execution).threads)),
            ),
    {
        let ghost old_e = *execution;
        proof {
            assert(state_wf(cells_view(old_e.objects.causal_cells@)[self.obj_ref.index as int], old_e.max_threads as nat));
        }
        let r = execution.objects.causal_cells[self.obj_ref.index].check(&execution.threads);
        proof {
            lemma_active_wf(old_e.threads);
            lemma_cell_update(old_e, *execution, self.obj_ref);
        }
        r
    }

    /// Checks a mutable access by the active thread: there is no concurrent
    /// access. The access becomes the cell's last mutable access and every
    /// deferred access is checked against it.
    pub fn check_mut(&self, execution: &mut Execution) -> (r: Result<(), Failure>)
        requires
            old(execution).running(),
            is_causal_cell(*old(execution), self.obj_ref),
        ensures
            final(execution).running(),
            r is Ok <==> write_ok(causal_view(*old(execution), self.obj_ref), active_causality(old(execution).threads)),
            r is Err ==> r == Err::<(), Failure>(Failure::CausalityViolation) && cell_changed(
                *old(execution),
                *final(execution),
                self.obj_ref,
                causal_view(*old(execution), self.obj_ref),
            ),
            r is Ok ==> cell_changed(
                *old(execution),
                *final(execution),
                self.obj_ref,
                after_write(causal_view(*old(execution), self.obj_ref), active_causality(old(execution).threads)),
            ),
    {
        let ghost old_e = *execution;
        proof {
            assert(state_wf(cells_view(old_e.objects.causal_cells@)[self.obj_ref.index as int], old_e.max_threads as nat));
        }
        let r = execution.objects.causal_cells[self.obj_ref.index].check_mut(&execution.threads);
        proof {
            lemma_active_wf(old_e.threads);
            lemma_cell_update(old_e, *execution, self.obj_ref);
        }
        r
    }

    /// Records an access by the active thread (mutable if `is_mut`) whose
    /// check is deferred; whether it is valid now is recorded with it. The
    /// returned check resolves it.
    pub fn defer(&self, execution: &mut Execution, is_mut: bool) -> (r: CausalCheck)
        requires
            old(execution).running(),
            is_causal_cell(*old(execution), self.obj_ref),
        ensures
            final(execution).running(),
            r.deferred@ == seq![(self.obj_ref, causal_view(*old(execution), self.obj_ref).2.len() as usize)],
            ({
                let v = causal_view(*old(execution), self.obj_ref);
                let c = active_causality(old(execution).threads);
                cell_changed(*old(execution), *final(execution), self.obj_ref, (v.0, v.1, v.2.push(Some((
                    is_mut,
                    c,
                    if is_mut { write_ok(v, c) } else { read_ok(v, c) },
                )))))
            }),
    {
        let ghost old_e = *execution;
        let index = execution.objects.causal_cells[self.obj_ref.index].defer(&execution.threads, is_mut);
        proof {
            lemma_active_wf(old_e.threads);
            let v = causal_view(old_e, self.obj_ref);
            assert(state_wf(cells_view(old_e.objects.causal_cells@)[self.obj_ref.index as int], old_e.max_threads as nat));
            let nv = causal_view(*execution, self.obj_ref);
            assert forall|i: int| 0 <= i < nv.2.len() implies (#[trigger] nv.2[i] matches Some(d) ==> d.1.len() == old_e.max_threads) by {
                if i < v.2.len() {
                    assert(v.2[i] matches Some(d) ==> d.1.len() == old_e.max_threads);
                }
            }
            lemma_cell_update(old_e, *execution, self.obj_ref);
        }
        let mut deferred = Vec::new();
        deferred.push((self.obj_ref, index));
        CausalCheck { deferred }
    }
}

impl CausalCheck {
    /// Resolves the deferred accesses in order (see `resolve`): fails if
    /// one of them was invalid.
    pub fn check(self, execution: &mut Execution) -> (r: Result<(), Failure>)
        requires
            old(execution).running(),
            checks_valid(cells_view(old(execution).objects.causal_cells@), self.deferred@),
            forall|k: int| 0 <= k < self.deferred@.len() ==> (#[trigger] self.deferred@[k]).0.execution_id == old(execution).id,
        ensures
            final(execution).same_config(old(execution)),
            final(execution).path == old(execution).path,
            final(execution).threads == old(execution).threads,
            final(execution).objects.entries == old(execution).objects.entries,
            r is Ok <==> resolve_prefix(cells_view(old(execution).objects.causal_cells@), self.deferred@, self.deferred@.len()) is Some,
            r is Ok ==> Some(cells_view(final(execution).objects.causal_cells@)) == resolve_prefix(
                cells_view(old(execution).objects.causal_cells@),
                self.deferred@,
                self.deferred@.len(),
            ),
            r is Err ==> r == Err::<(), Failure>(Failure::CausalityViolation),
            r is Ok ==> final(execution).running(),
    {
        let ghost old_e = *execution;
        proof {
            let cs = cells_view(old_e.objects.causal_cells@);
            assert forall|i: int| 0 <= i < cs.len() implies state_wf(#[trigger] cs[i], cs[i].0.len()) by {
                assert(state_wf(cs[i], old_e.max_threads as nat));
            }
        }
        let r = self.resolve(&mut execution.objects.causal_cells);
        proof {
            if r is Ok {
                let cs = cells_view(execution.objects.causal_cells@);
                let ocs = cells_view(old_e.objects.causal_cells@);
                assert forall|i: int| 0 <= i < cs.len() implies state_wf(#[trigger] cs[i], execution.max_threads as nat) by {
                    assert(state_wf(ocs[i], old_e.max_threads as nat));
                    assert(cs[i].0.len() == ocs[i].0.len());
                    assert(state_wf(cs[i], cs[i].0.len()));
                }
                crate::rt::execution::lemma_wf_update(old_e, *execution);
            }
        }
        r
    }
}

} // verus!
