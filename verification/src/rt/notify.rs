//! Notification state of the park/unpark primitive.
use vstd::prelude::*;

use crate::rt::execution::{
    active_set_keep, lemma_entry_insert, lemma_entry_update, same_but_state, scheduled, unpark_state, waiting_on,
    yield_set, Execution,
};
use crate::rt::mutex::{entry_changed, same_but_causality, threads_synced};
use crate::rt::object::{access_view, clone_access, Access, Action, Entry, Object, Operation};
use crate::rt::path;
use crate::rt::synchronize::Synchronize;
use crate::rt::thread::{self, active_causality};
use crate::rt::trace::Trace;
use crate::rt::vv::{lemma_join_least_upper_bound, lemma_le_partial_order, vv_join, vv_le, VersionVec};
use crate::rt::Failure;
use std::sync::atomic::Ordering;

verus! {

#[derive(Debug)]
pub struct State {
    /// If true, spurious notifications are possible
    pub spurious: bool,
    /// True if the notify woke up spuriously last time
    pub did_spur: bool,
    /// When true, notification is sequentially consistent.
    pub seq_cst: bool,
    /// `true` if there is a pending notification to consume.
    pub notified: bool,
    /// Tracks access to the notify object
    pub last_access: Option<Access>,
    /// Causality transfers between threads
    pub synchronize: Synchronize,
}

impl State {
    /// A wait may still wake up spuriously.
    pub fn might_spur(&self) -> (r: bool)
        ensures
            r == (self.spurious && !self.did_spur),
    {
        self.spurious && !self.did_spur
    }

    pub fn last_dependent_access(&self) -> (r: Option<Access>)
        ensures
            access_view(r) == access_view(self.last_access),
    {
        clone_access(&self.last_access)
    }

    pub fn set_last_access(&mut self, path_id: usize, version: &VersionVec)
        requires
            old(self).last_access matches Some(a) ==> a.dpor_vv@.len() == version@.len(),
        ensures
            access_view(final(self).last_access) == Some((path_id, version@)),
            final(self).spurious == old(self).spurious,
            final(self).did_spur == old(self).did_spur,
            final(self).seq_cst == old(self).seq_cst,
            final(self).notified == old(self).notified,
            final(self).synchronize == old(self).synchronize,
    {
        Access::set_or_create(&mut self.last_access, path_id, version);
    }
}

/// The park/unpark primitive behind futures and thread parking: a handle
/// to its notification state in the execution.
#[derive(Debug, Clone, Copy, PartialEq, Eq, Structural)]
pub struct Notify {
    pub obj: Object,
}

/// The object is a notify object of the execution.
pub open spec fn is_notify(e: Execution, obj: Object) -> bool {
    &&& obj.execution_id == e.objects.execution_id
    &&& obj.index < e.objects.entries@.len()
    &&& e.objects.entries@[obj.index as int] is Notify
}

/// The notification state of `obj`.
pub open spec fn notify_state(e: Execution, obj: Object) -> State {
    e.objects.entries@[obj.index as int]->Notify_0
}

/// The effect of notifying `obj`: a notification is pending and the object
/// holds the active thread's causality (for a sequentially consistent
/// object, the thread also synchronizes with the sequential-consistency
/// clock); the other threads about to operate on the object are unparked.
pub open spec fn notify_done(old: Execution, new: Execution, obj: Object) -> bool {
    let s = notify_state(old, obj);
    let o = old.threads;
    let c = active_causality(o);
    let sc = vv_join(c, o.seq_cst_causality@);
    let c2 = if s.seq_cst { sc } else { c };
    let a = o.active->0 as int;
    let ns = notify_state(new, obj);
    &&& new.objects.entries@[obj.index as int] is Notify
    &&& ns.notified
    &&& ns.synchronize@ == vv_join(s.synchronize@, c)
    &&& ns.spurious == s.spurious && ns.did_spur == s.did_spur && ns.seq_cst == s.seq_cst
    &&& ns.last_access == s.last_access
    &&& entry_changed(old, new, obj, new.objects.entries@[obj.index as int])
    &&& new.threads.execution_id == o.execution_id
    &&& new.threads.max == o.max
    &&& new.threads.active == o.active
    &&& new.threads.threads@.len() == o.threads@.len()
    &&& new.threads.seq_cst_causality@ == if s.seq_cst { sc } else { o.seq_cst_causality@ }
    &&& new.threads.threads@[a].causality@ == c2
    &&& same_but_causality(o.threads@[a], new.threads.threads@[a])
    &&& forall|k: int|
        0 <= k < o.threads@.len() && k != a ==> {
            let ot = #[trigger] o.threads@[k];
            let t = new.threads.threads@[k];
            if waiting_on(ot, obj, None) {
                &&& t.causality@ == vv_join(ot.causality@, c2)
                &&& t.state == unpark_state(ot.state)
                &&& t.id == ot.id && t.critical == ot.critical && t.operation == ot.operation
                &&& t.dpor_vv == ot.dpor_vv && t.notified == ot.notified && t.pending == ot.pending
                &&& t.last_yield == ot.last_yield && t.yield_count == ot.yield_count
            } else {
                t == ot
            }
        }
}

/// The effect of a thread woken by a notification: it consumes it and
/// acquires the causality of the notifier (for a sequentially consistent
/// object, it also synchronizes with the sequential-consistency clock).
pub open spec fn wait_done(old: Execution, new: Execution, obj: Object) -> bool {
    let s = notify_state(old, obj);
    let o = old.threads;
    let j = vv_join(active_causality(o), s.synchronize@);
    let c = if s.seq_cst {
        vv_join(j, o.seq_cst_causality@)
    } else {
        j
    };
    let a = o.active->0 as int;
    &&& entry_changed(old, new, obj, Entry::Notify(State { notified: false, ..s }))
    &&& new.threads.execution_id == o.execution_id
    &&& new.threads.max == o.max
    &&& new.threads.active == o.active
    &&& new.threads.seq_cst_causality@ == if s.seq_cst { c } else { o.seq_cst_causality@ }
    &&& new.threads.threads@[a].causality@ == c
    &&& same_but_causality(o.threads@[a], new.threads.threads@[a])
    &&& crate::rt::execution::others_same(o, new.threads, a)
}

/// How a wait that is not spurious branches: as an operation on the object,
/// blocked until the notification when none is pending.
pub open spec fn wait_branch(old: Execution, mid: Execution, obj: Object) -> bool {
    active_set_keep(
        old,
        mid,
        if notify_state(old, obj).notified {
            old.threads.active_thread().state
        } else {
            thread::State::Blocked
        },
        Some(Operation { obj, action: Action::Opaque }),
    )
}

/// The spurious wakeup decision of a wait took the path from `old` to `pre`:
/// only a notify object that may wake spuriously and has not yet done so
/// consults the path; the decision is recorded on the object.
pub open spec fn wait_decided(old: Execution, pre: Execution, obj: Object, spurious: bool) -> bool {
    let s = notify_state(old, obj);
    &&& pre.threads == old.threads
    &&& pre.id == old.id
    &&& pre.max_threads == old.max_threads
    &&& pre.max_history == old.max_history
    &&& pre.log == old.log
    &&& pre.running()
    &&& (s.spurious && !s.did_spur) ==> path::spurious_decided(old.path, pre.path, Ok(spurious))
    &&& !(s.spurious && !s.did_spur) ==> pre.path == old.path && !spurious
    &&& pre.objects.execution_id == old.objects.execution_id
    &&& pre.objects.causal_cells == old.objects.causal_cells
    &&& pre.objects.entries@ == old.objects.entries@.update(
        obj.index as int,
        Entry::Notify(State { did_spur: s.did_spur || spurious, ..s }),
    )
}

/// A wait from `old` to `new`: the spurious wakeup decision, then the yield
/// (for a spurious wakeup) or the operation on the object, then a
/// scheduling point whose result is `switched`.
pub open spec fn waited(old: Execution, new: Execution, obj: Object, spurious: bool, switched: bool) -> bool {
    exists|pre: Execution, mid: Execution|
        #![trigger wait_decided(old, pre, obj, spurious), scheduled(mid, new, Ok::<bool, Failure>(switched))]
        {
            &&& wait_decided(old, pre, obj, spurious)
            &&& spurious ==> yield_set(pre, mid)
            &&& !spurious ==> wait_branch(pre, mid, obj)
            &&& scheduled(mid, new, Ok::<bool, Failure>(switched))
        }
}

impl Notify {
    /// A new notify object with no pending notification.
    pub fn new(execution: &mut Execution, seq_cst: bool, spurious: bool) -> (r: Notify)
        requires
            old(execution).wf(),
        ensures
            final(execution).wf(),
            final(execution).same_config(old(execution)),
            final(execution).path == old(execution).path,
            final(execution).threads == old(execution).threads,
            final(execution).objects.causal_cells == old(execution).objects.causal_cells,
            final(execution).objects.execution_id == old(execution).objects.execution_id,
            final(execution).objects.entries@.drop_last() == old(execution).objects.entries@,
            r.obj.index == old(execution).objects.entries@.len(),
            r.obj.execution_id == old(execution).id,
            is_notify(*final(execution), r.obj),
            ({
                let s = notify_state(*final(execution), r.obj);
                &&& s.spurious == spurious && !s.did_spur && s.seq_cst == seq_cst && !s.notified
                &&& s.last_access is None
                &&& s.synchronize@ == Seq::new(old(execution).max_threads as nat, |i: int| 0usize)
            }),
    {
        let ghost old_e = *execution;
        let max = execution.threads.max();
        let state = State {
            spurious,
            did_spur: false,
            seq_cst,
            notified: false,
            last_access: None,
            synchronize: Synchronize::new(max),
        };
        let obj = execution.objects.insert(Entry::Notify(state));
        proof {
            assert(execution.objects.entries@.drop_last() =~= old_e.objects.entries@);
            lemma_entry_insert(old_e, *execution);
            assert(execution.objects.entries@[obj.index as int] == Entry::Notify(state));
        }
        Notify { obj }
    }
}

/// A wait from `old` to `new` failed with `e`: either the spurious wakeup
/// decision, which only an object that may wake spuriously and has not yet
/// done so takes, found no room on the path or a different recorded
/// branch, and nothing but the path changed; or the decision was taken and
/// the scheduling point after the yield or the operation failed with `e`.
pub open spec fn wait_failed(old: Execution, new: Execution, obj: Object, e: Failure) -> bool {
    let s = notify_state(old, obj);
    ||| {
        &&& s.spurious && !s.did_spur
        &&& path::spurious_decided(old.path, new.path, Err::<bool, Failure>(e))
        &&& new.threads == old.threads
        &&& new.objects == old.objects
        &&& new.id == old.id
    }
    ||| exists|pre: Execution, mid: Execution, spurious: bool|
        #![trigger wait_decided(old, pre, obj, spurious), scheduled(mid, new, Err::<bool, Failure>(e))]
        {
            &&& wait_decided(old, pre, obj, spurious)
            &&& spurious ==> yield_set(pre, mid)
            &&& !spurious ==> wait_branch(pre, mid, obj)
            &&& scheduled(mid, new, Err::<bool, Failure>(e))
        }
}

impl Notify {
    /// Notifies: the notification becomes pending and releases the active
    /// thread's causality; the threads waiting on the object are unparked.
    /// The caller branches on the object first.
    pub fn notify(&self, execution: &mut Execution)
        requires
            old(execution).running(),
            is_notify(*old(execution), self.obj),
        ensures
            final(execution).running(),
            notify_done(*old(execution), *final(execution), self.obj),
    {
        let ghost old_e = *execution;
        let mut seq_cst = false;
        match &mut execution.objects.entries[self.obj.index] {
            Entry::Notify(state) => {
                state.synchronize.sync_store(&mut execution.threads, Ordering::Release);
                seq_cst = state.seq_cst;
                state.notified = true;
            },
            _ => {},
        }
        if seq_cst {
            execution.threads.seq_cst();
        }
        proof {
            lemma_entry_update(old_e, *execution, self.obj.idx());
        }
        let ghost mid = *execution;
        execution.unpark_waiting(self.obj);
        proof {
            let a = old_e.threads.active_index();
            assert forall|k: int| 0 <= k < old_e.threads.threads@.len() && k != a implies ({
                let ot = #[trigger] old_e.threads.threads@[k];
                let t = execution.threads.threads@[k];
                if waiting_on(ot, self.obj, None) {
                    &&& t.causality@ == vv_join(ot.causality@, mid.threads.threads@[a].causality@)
                    &&& t.state == unpark_state(ot.state)
                    &&& t.id == ot.id && t.critical == ot.critical && t.operation == ot.operation
                    &&& t.dpor_vv == ot.dpor_vv && t.notified == ot.notified && t.pending == ot.pending
                    &&& t.last_yield == ot.last_yield && t.yield_count == ot.yield_count
                } else {
                    t == ot
                }
            }) by {
                assert(mid.threads.threads@[k] == old_e.threads.threads@[k]);
            }
        }
    }

    /// Waiting for a notification. A notify object that may wake
    /// spuriously and has not yet done so lets the path decide whether this
    /// wait wakes up spuriously; a spurious wakeup yields. Otherwise the
    /// wait is an operation on the object, blocked until the notification
    /// when none is pending; once the thread runs again, `post_wait`
    /// consumes it. Returns whether the wait was spurious and whether to
    /// switch threads.
    pub fn wait(&self, execution: &mut Execution, trace: &Trace) -> (r: Result<(bool, bool), Failure>)
        requires
            old(execution).running(),
            is_notify(*old(execution), self.obj),
            old(execution).threads.active_thread().yield_count < usize::MAX,
        ensures
            r matches Ok(p) ==> waited(*old(execution), *final(execution), self.obj, p.0, p.1),
            r matches Err(e) ==> wait_failed(*old(execution), *final(execution), self.obj, e),
    {
        let ghost old_e = *execution;
        let might_spur = match &execution.objects.entries[self.obj.index] {
            Entry::Notify(state) => state.might_spur(),
            _ => false,
        };
        let spurious = if might_spur {
            match execution.branch_spurious(trace) {
                Ok(v) => v,
                Err(e) => {
                    proof {
                        assert(wait_failed(old_e, *execution, self.obj, e));
                    }
                    return Err(e);
                },
            }
        } else {
            false
        };
        let ghost decided = *execution;
        match &mut execution.objects.entries[self.obj.index] {
            Entry::Notify(state) => {
                if spurious {
                    state.did_spur = true;
                }
            },
            _ => {},
        }
        proof {
            let s = notify_state(old_e, self.obj);
            assert(execution.objects.entries@ =~= old_e.objects.entries@.update(
                self.obj.idx(),
                Entry::Notify(State { did_spur: s.did_spur || spurious, ..s }),
            ));
            lemma_entry_update(decided, *execution, self.obj.idx());
        }
        let ghost pre = *execution;
        if spurious {
            execution.yield_active();
            let ghost mid = *execution;
            let r = execution.schedule(trace);
            return match r {
                Ok(sw) => {
                    proof {
                        assert(wait_decided(old_e, pre, self.obj, spurious));
                        assert(yield_set(pre, mid));
                        assert(scheduled(mid, *execution, Ok::<bool, Failure>(sw)));
                        assert(waited(old_e, *execution, self.obj, true, sw));
                    }
                    Ok((true, sw))
                },
                Err(e) => {
                    proof {
                        assert(wait_decided(old_e, pre, self.obj, spurious));
                        assert(scheduled(mid, *execution, Err::<bool, Failure>(e)));
                        assert(wait_failed(old_e, *execution, self.obj, e));
                    }
                    Err(e)
                },
            };
        }
        let notified = match &execution.objects.entries[self.obj.index] {
            Entry::Notify(state) => state.notified,
            _ => false,
        };
        let a = execution.threads.active.unwrap();
        let st = if notified {
            execution.threads.threads[a].state
        } else {
            // This should become a disabled branch
            thread::State::Blocked
        };
        execution.set_active(st, Some(Operation { obj: self.obj, action: Action::Opaque }));
        let ghost mid = *execution;
        let r = execution.schedule(trace);
        match r {
            Ok(sw) => {
                proof {
                    assert(wait_decided(old_e, pre, self.obj, spurious));
                    assert(wait_branch(pre, mid, self.obj));
                    assert(scheduled(mid, *execution, Ok::<bool, Failure>(sw)));
                    assert(waited(old_e, *execution, self.obj, false, sw));
                }
                Ok((false, sw))
            },
            Err(e) => {
                proof {
                    assert(wait_decided(old_e, pre, self.obj, spurious));
                    assert(wait_branch(pre, mid, self.obj));
                    assert(scheduled(mid, *execution, Err::<bool, Failure>(e)));
                    assert(wait_failed(old_e, *execution, self.obj, e));
                }
                Err(e)
            },
        }
    }

    /// The thread was woken by a notification: it consumes it and acquires
    /// the notifier's causality. Returns `false`, changing nothing, when no
    /// notification is pending.
    pub fn post_wait(&self, execution: &mut Execution) -> (r: bool)
        requires
            old(execution).running(),
            is_notify(*old(execution), self.obj),
        ensures
            final(execution).running(),
            r == notify_state(*old(execution), self.obj).notified,
            !r ==> *final(execution) == *old(execution),
            r ==> wait_done(*old(execution), *final(execution), self.obj),
    {
        let ghost old_e = *execution;
        let notified = match &execution.objects.entries[self.obj.index] {
            Entry::Notify(state) => state.notified,
            _ => false,
        };
        if !notified {
            return false;
        }
        let mut seq_cst = false;
        match &mut execution.objects.entries[self.obj.index] {
            Entry::Notify(state) => {
                state.synchronize.sync_load(&mut execution.threads, Ordering::Acquire);
                seq_cst = state.seq_cst;
                state.notified = false;
            },
            _ => {},
        }
        if seq_cst {
            // Establish sequential consistency between locks
            execution.threads.seq_cst();
        }
        proof {
            lemma_entry_update(old_e, *execution, self.obj.idx());
        }
        true
    }
}

/// In a running execution, the clock of a notify object and the active
/// thread's causality have one entry per thread.
proof fn lemma_notify_lens(e: Execution, obj: Object)
    requires
        e.running(),
        is_notify(e, obj),
    ensures
        notify_state(e, obj).synchronize@.len() == e.max_threads,
        active_causality(e.threads).len() == e.max_threads,
        e.threads.seq_cst_causality@.len() == e.max_threads,
{
    assert(crate::rt::object::entry_wf(e.objects.entries@[obj.index as int], e.max_threads as nat));
    crate::rt::thread::lemma_active_wf(e.threads);
}

/// What a notification hands to the thread it wakes: every event of the
/// notifying thread up to the notification happens before the woken thread
/// once it consumed the notification. In between, the object's clock may
/// only have grown: notifications join into it and waits keep it.
pub proof fn lemma_notify_then_wait(e0: Execution, e1: Execution, e2: Execution, e3: Execution, obj: Object)
    requires
        e0.running(),
        e2.running(),
        is_notify(e0, obj),
        is_notify(e2, obj),
        notify_done(e0, e1, obj),
        vv_le(notify_state(e1, obj).synchronize@, notify_state(e2, obj).synchronize@),
        wait_done(e2, e3, obj),
    ensures
        vv_le(active_causality(e0.threads), active_causality(e3.threads)),
        !notify_state(e3, obj).notified,
{
    let c0 = active_causality(e0.threads);
    let s1 = notify_state(e1, obj).synchronize@;
    let s2 = notify_state(e2, obj).synchronize@;
    let j = vv_join(active_causality(e2.threads), s2);
    let c = vv_join(j, e2.threads.seq_cst_causality@);
    lemma_notify_lens(e0, obj);
    lemma_notify_lens(e2, obj);
    lemma_join_least_upper_bound(notify_state(e0, obj).synchronize@, c0, s1);
    lemma_join_least_upper_bound(active_causality(e2.threads), s2, j);
    lemma_join_least_upper_bound(j, e2.threads.seq_cst_causality@, c);
    lemma_le_partial_order(c0, s1, s2);
    lemma_le_partial_order(c0, s2, j);
    lemma_le_partial_order(c0, j, c);
}

} // verus!
