//! Reference-count state of a mocked `Arc`.
use vstd::prelude::*;

use crate::rt::execution::{lemma_entry_insert, lemma_entry_update, Execution};
use crate::rt::mutex::entry_changed;
use crate::rt::object::{access_view, clone_access, Access, Entry, Object};
use crate::rt::synchronize::Synchronize;
use crate::rt::thread::{acquired, active_causality};
use crate::rt::vv::{lemma_join_least_upper_bound, lemma_le_partial_order, vv_join, vv_le, VersionVec};
use std::sync::atomic::Ordering;

verus! {

/// Actions performed on the Arc. Clones are only dependent with
/// inspections; drops are dependent between each other.
#[derive(Debug, Clone, Copy, PartialEq, Eq, Structural)]
pub enum Action {
    /// Clone the arc
    RefInc,
    /// Drop the Arc
    RefDec,
}

#[derive(Debug)]
pub struct State {
    /// Reference count
    pub ref_cnt: usize,
    /// Causality transfers between threads; only updated on ref dec and
    /// acquired before drop.
    pub synchronize: Synchronize,
    /// Tracks access to the arc object
    pub last_ref_inc: Option<Access>,
    pub last_ref_dec: Option<Access>,
}

impl State {
    /// `true` when no reference is left; otherwise the Arc leaked.
    pub fn check_for_leaks(&self) -> (r: bool)
        ensures
            r == (self.ref_cnt == 0),
    {
        self.ref_cnt == 0
    }

    /// The access a new `action` depends on: clones depend on nothing, drops
    /// on the last drop.
    pub fn last_dependent_access(&self, action: Action) -> (r: Option<Access>)
        ensures
            access_view(r) == match action {
                Action::RefInc => None,
                Action::RefDec => access_view(self.last_ref_dec),
            },
    {
        match action {
            Action::RefInc => None,
            Action::RefDec => clone_access(&self.last_ref_dec),
        }
    }

    pub fn set_last_access(&mut self, action: Action, path_id: usize, version: &VersionVec)
        requires
            old(self).last_ref_inc matches Some(a) ==> a.dpor_vv@.len() == version@.len(),
            old(self).last_ref_dec matches Some(a) ==> a.dpor_vv@.len() == version@.len(),
        ensures
            final(self).ref_cnt == old(self).ref_cnt,
            final(self).synchronize == old(self).synchronize,
            action == Action::RefInc ==> access_view(final(self).last_ref_inc) == Some((path_id, version@))
                && final(self).last_ref_dec == old(self).last_ref_dec,
            action == Action::RefDec ==> access_view(final(self).last_ref_dec) == Some((path_id, version@))
                && final(self).last_ref_inc == old(self).last_ref_inc,
    {
        match action {
            Action::RefInc => Access::set_or_create(&mut self.last_ref_inc, path_id, version),
            Action::RefDec => Access::set_or_create(&mut self.last_ref_dec, path_id, version),
        }
    }
}

/// The reference count of a mocked `Arc`: a handle to its state in the
/// execution.
#[derive(Debug, Clone, Copy, PartialEq, Eq, Structural)]
pub struct Arc {
    pub obj: Object,
}

/// The object is an `Arc` of the execution.
pub open spec fn is_arc(e: Execution, obj: Object) -> bool {
    &&& obj.execution_id == e.objects.execution_id
    &&& obj.index < e.objects.entries@.len()
    &&& e.objects.entries@[obj.index as int] is Arc
}

/// The state of the `Arc` `obj`.
pub open spec fn arc_state(e: Execution, obj: Object) -> State {
    e.objects.entries@[obj.index as int]->Arc_0
}

/// Only the reference count of the `Arc` `obj` changed, to `n`.
pub open spec fn count_changed(old: Execution, new: Execution, obj: Object, n: usize) -> bool {
    entry_changed(old, new, obj, Entry::Arc(State { ref_cnt: n, ..arc_state(old, obj) }))
}

/// The effect of dropping a reference to the `Arc` `obj`: one reference
/// less, and the `Arc` releases the active thread's causality; the last drop
/// (`last`) also acquires the causality released by all drops.
pub open spec fn dropped(old: Execution, new: Execution, obj: Object, last: bool) -> bool {
    let s = arc_state(old, obj);
    let ns = arc_state(new, obj);
    let released = vv_join(s.synchronize@, active_causality(old.threads));
    &&& new.objects.entries@[obj.idx()] is Arc
    &&& ns.ref_cnt == s.ref_cnt - 1
    &&& ns.synchronize@ == released
    &&& ns.last_ref_inc == s.last_ref_inc && ns.last_ref_dec == s.last_ref_dec
    &&& entry_changed(old, new, obj, new.objects.entries@[obj.idx()])
    &&& last ==> acquired(old.threads, new.threads, released)
    &&& !last ==> new.threads == old.threads
}

impl Arc {
    /// A new `Arc`, with one reference.
    pub fn new(execution: &mut Execution) -> (r: Arc)
        requires
            old(execution).wf(),
        ensures
            final(execution).wf(),
            final(execution).same_config(old(execution)),
            final(execution).path == old(execution).path,
            final(execution).threads == old(execution).threads,
            final(execution).objects.causal_cells == old(execution).objects.causal_cells,
            final(execution).objects.execution_id == old(execution).objects.execution_id,
            final(execution).objects.entries@.drop_last() == old(execution).objects.entries@,
            r.obj.index == old(execution).objects.entries@.len(),
            r.obj.execution_id == old(execution).id,
            is_arc(*final(execution), r.obj),
            ({
                let s = arc_state(*final(execution), r.obj);
                &&& s.ref_cnt == 1 && s.last_ref_inc is None && s.last_ref_dec is None
                &&& s.synchronize@ == Seq::new(old(execution).max_threads as nat, |i: int| 0usize)
            }),
    {
        let ghost old_e = *execution;
        let max = execution.threads.max();
        let state = State { ref_cnt: 1, synchronize: Synchronize::new(max), last_ref_inc: None, last_ref_dec: None };
        let obj = execution.objects.insert(Entry::Arc(state));
        proof {
            assert(execution.objects.entries@.drop_last() =~= old_e.objects.entries@);
            lemma_entry_insert(old_e, *execution);
            assert(execution.objects.entries@[obj.index as int] == Entry::Arc(state));
        }
        Arc { obj }
    }

    /// The current reference count.
    pub fn ref_count(&self, execution: &Execution) -> (r: usize)
        requires
            is_arc(*execution, self.obj),
        ensures
            r == arc_state(*execution, self.obj).ref_cnt,
    {
        match &execution.objects.entries[self.obj.index] {
            Entry::Arc(s) => s.ref_cnt,
            _ => 0,
        }
    }

    /// A clone: one more reference. The caller branches on the `Arc` with
    /// `RefInc` first.
    pub fn ref_inc(&self, execution: &mut Execution)
        requires
            old(execution).running(),
            is_arc(*old(execution), self.obj),
            arc_state(*old(execution), self.obj).ref_cnt < usize::MAX,
        ensures
            final(execution).running(),
            final(execution).threads == old(execution).threads,
            count_changed(*old(execution), *final(execution), self.obj, (arc_state(*old(execution), self.obj).ref_cnt + 1) as usize),
    {
        let ghost old_e = *execution;
        match &mut execution.objects.entries[self.obj.index] {
            Entry::Arc(state) => {
                state.ref_cnt = state.ref_cnt + 1;
            },
            _ => {},
        }
        proof {
            lemma_entry_update(old_e, *execution, self.obj.index as int);
            assert(execution.objects.entries@ =~= old_e.objects.entries@.update(
                self.obj.index as int,
                Entry::Arc(State { ref_cnt: (arc_state(old_e, self.obj).ref_cnt + 1) as usize, ..arc_state(old_e, self.obj) }),
            ));
        }
    }
}

impl Arc {
    /// Validates a `get_mut` call: the active thread acquires the causality
    /// released by the drops of other references. Returns whether this is
    /// the only reference. The caller branches on the `Arc` with `RefDec`
    /// first.
    pub fn get_mut(&self, execution: &mut Execution) -> (r: bool)
        requires
            old(execution).running(),
            is_arc(*old(execution), self.obj),
            arc_state(*old(execution), self.obj).ref_cnt >= 1,
        ensures
            final(execution).running(),
            r == (arc_state(*old(execution), self.obj).ref_cnt == 1),
            final(execution).objects.entries@ == old(execution).objects.entries@,
            final(execution).objects.causal_cells == old(execution).objects.causal_cells,
            final(execution).objects.execution_id == old(execution).objects.execution_id,
            final(execution).same_config(old(execution)),
            final(execution).path == old(execution).path,
            acquired(old(execution).threads, final(execution).threads, arc_state(*old(execution), self.obj).synchronize@),
    {
        let ghost old_e = *execution;
        let mut only = false;
        match &mut execution.objects.entries[self.obj.index] {
            Entry::Arc(state) => {
                // Synchronize the threads
                state.synchronize.sync_load(&mut execution.threads, Ordering::Acquire);
                only = state.ref_cnt == 1;
            },
            _ => {},
        }
        proof {
            assert(execution.objects.entries@ =~= old_e.objects.entries@);
            lemma_entry_update(old_e, *execution, self.obj.idx());
        }
        only
    }

    /// A drop: one reference less, releasing the active thread's
    /// causality. The last drop also acquires the causality released by the
    /// others, and returns `true`: the value is to be dropped. The caller
    /// branches on the `Arc` with `RefDec` first.
    pub fn ref_dec(&self, execution: &mut Execution) -> (r: bool)
        requires
            old(execution).running(),
            is_arc(*old(execution), self.obj),
            arc_state(*old(execution), self.obj).ref_cnt >= 1,
        ensures
            final(execution).running(),
            r == (arc_state(*old(execution), self.obj).ref_cnt == 1),
            final(execution).same_config(old(execution)),
            final(execution).path == old(execution).path,
            dropped(*old(execution), *final(execution), self.obj, r),
    {
        let ghost old_e = *execution;
        let mut last = false;
        match &mut execution.objects.entries[self.obj.index] {
            Entry::Arc(state) => {
                // Decrement the ref count
                state.ref_cnt = state.ref_cnt - 1;
                // Synchronize the threads.
                state.synchronize.sync_store(&mut execution.threads, Ordering::Release);
                if state.ref_cnt == 0 {
                    // Final ref count, the arc will be dropped. This requires
                    // acquiring the causality.
                    state.synchronize.sync_load(&mut execution.threads, Ordering::Acquire);
                    last = true;
                }
            },
            _ => {},
        }
        proof {
            lemma_entry_update(old_e, *execution, self.obj.idx());
        }
        last
    }
}

/// In a running execution, the clock of an `Arc` and the active thread's
/// causality have one entry per thread.
proof fn lemma_arc_lens(e: Execution, obj: Object)
    requires
        e.running(),
        is_arc(e, obj),
    ensures
        arc_state(e, obj).synchronize@.len() == e.max_threads,
        active_causality(e.threads).len() == e.max_threads,
{
    assert(crate::rt::object::entry_wf(e.objects.entries@[obj.index as int], e.max_threads as nat));
    crate::rt::thread::lemma_active_wf(e.threads);
}

/// The last drop of an `Arc` sees every earlier drop: every event of a
/// thread up to its drop happens before the thread that drops the last
/// reference, once it did. In between, the clock of the `Arc` may only have
/// grown, as each drop joins into it.
pub proof fn lemma_drop_then_last_drop(e0: Execution, e1: Execution, e2: Execution, e3: Execution, obj: Object, last: bool)
    requires
        e0.running(),
        e2.running(),
        is_arc(e0, obj),
        is_arc(e2, obj),
        dropped(e0, e1, obj, last),
        vv_le(arc_state(e1, obj).synchronize@, arc_state(e2, obj).synchronize@),
        dropped(e2, e3, obj, true),
    ensures
        vv_le(active_causality(e0.threads), active_causality(e3.threads)),
{
    let c0 = active_causality(e0.threads);
    let s1 = arc_state(e1, obj).synchronize@;
    let s2 = arc_state(e2, obj).synchronize@;
    let c2 = active_causality(e2.threads);
    let rel = vv_join(s2, c2);
    let c3 = vv_join(c2, rel);
    lemma_arc_lens(e0, obj);
    lemma_arc_lens(e2, obj);
    lemma_join_least_upper_bound(arc_state(e0, obj).synchronize@, c0, s1);
    lemma_join_least_upper_bound(s2, c2, rel);
    lemma_join_least_upper_bound(c2, rel, c3);
    lemma_le_partial_order(c0, s1, s2);
    lemma_le_partial_order(c0, s2, rel);
    lemma_le_partial_order(c0, rel, c3);
    assert(active_causality(e3.threads) == c3);
}

} // verus!
