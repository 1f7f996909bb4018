//! Handles to the objects a model creates, and the operations threads are
//! about to perform on them.
use vstd::prelude::*;

use crate::rt::causal::{self, cells_view, cells_wf};
use crate::rt::execution::{active_set_keep, scheduled, Execution};
use crate::rt::thread;
use crate::rt::trace::Trace;
use crate::rt::path;
use crate::rt::vv::VersionVec;
use crate::rt::{allocation, arc, atomic, cell, condvar, execution, mpsc, mutex, notify, rwlock, Failure};

verus! {

/// A handle to an object in the execution's object store.
#[derive(Debug, Clone, Copy, PartialEq, Eq, Structural)]
pub struct Object {
    /// Index in the store
    pub index: usize,
    /// Execution the object is part of
    pub execution_id: execution::Id,
}

/// A handle to the causality state of a causally checked cell.
#[derive(Debug, Clone, Copy, PartialEq, Eq, Structural)]
pub struct CausalCellRef {
    /// Index in the causal cells of the store.
    pub index: usize,
    /// Execution the object is part of
    pub execution_id: execution::Id,
}

/// What a thread does to an object; the scheduler uses it to decide which
/// operations are dependent.
#[derive(Debug, Clone, Copy, PartialEq, Eq, Structural)]
pub enum Action {
    /// Action on an Arc object
    Arc(arc::Action),
    /// Action on an atomic object
    Atomic(atomic::Action),
    /// Action on a channel
    Channel(mpsc::Action),
    /// Generic action with no specialized dependencies on access.
    Opaque,
}

/// An operation a thread is about to take.
#[derive(Debug, Clone, Copy, PartialEq, Eq, Structural)]
pub struct Operation {
    pub obj: Object,
    pub action: Action,
}

/// The last access of an object at a scheduling branch point: where in the
/// path it happened and the DPOR clock of the thread that made it.
#[derive(Debug)]
pub struct Access {
    pub path_id: usize,
    pub dpor_vv: VersionVec,
}

/// The value of an optional access: its path position and clock.
pub open spec fn access_view(a: Option<Access>) -> Option<(usize, Seq<usize>)> {
    match a {
        Some(x) => Some((x.path_id, x.dpor_vv@)),
        None => None,
    }
}

/// An access fits a model of `max` threads and names a scheduling branch
/// point of the path `bs`.
pub open spec fn access_ok(a: Option<Access>, max: nat, bs: Seq<crate::rt::path::Entry>) -> bool {
    a matches Some(x) ==> x.dpor_vv@.len() == max && x.path_id < bs.len() && bs[x.path_id as int] is Schedule
}

impl Object {
    /// The position of the object in the store.
    pub open spec fn idx(self) -> int {
        self.index as int
    }
}

impl Operation {
    pub fn object(&self) -> (r: Object)
        ensures
            r == self.obj,
    {
        self.obj
    }

    pub fn action(&self) -> (r: Action)
        ensures
            r == self.action,
    {
        self.action
    }
}

/// A copy of an optional access.
pub fn clone_access(a: &Option<Access>) -> (r: Option<Access>)
    ensures
        access_view(r) == access_view(*a),
{
    match a {
        Some(x) => Some(x.clone()),
        None => None,
    }
}

impl Access {
    pub fn new(path_id: usize, dpor_vv: &VersionVec) -> (r: Access)
        ensures
            r.path_id == path_id,
            r.dpor_vv@ == dpor_vv@,
    {
        Access { path_id, dpor_vv: dpor_vv.clone() }
    }

    pub fn clone(&self) -> (r: Access)
        ensures
            r.path_id == self.path_id,
            r.dpor_vv@ == self.dpor_vv@,
            access_view(Some(r)) == access_view(Some(*self)),
    {
        Access { path_id: self.path_id, dpor_vv: self.dpor_vv.clone() }
    }

    /// Records an access in `access`, creating it when there is none yet.
    pub fn set_or_create(access: &mut Option<Access>, path_id: usize, version: &VersionVec)
        requires
            *old(access) matches Some(a) ==> a.dpor_vv@.len() == version@.len(),
        ensures
            access_view(*final(access)) == Some((path_id, version@)),
    {
        match access {
            Some(a) => {
                a.path_id = path_id;
                a.dpor_vv.set(version);
            },
            None => {
                *access = Some(Access::new(path_id, version));
            },
        }
    }
}

/// An entry of the object store: the state of one object.
#[derive(Debug)]
pub enum Entry {
    Alloc(allocation::State),
    Arc(arc::State),
    Atomic(atomic::State),
    Mutex(mutex::State),
    Condvar(condvar::State),
    Notify(notify::State),
    Channel(mpsc::State),
    Cell(cell::State),
    RwLock(rwlock::State),
}

/// Stores the objects of one execution.
#[derive(Debug)]
pub struct Store {
    /// Execution this store is part of
    pub execution_id: execution::Id,
    /// Stored state for all objects.
    pub entries: Vec<Entry>,
    /// Causality state of the causally checked cells.
    pub causal_cells: Vec<causal::State>,
}

/// Every recorded access of an entry fits a model of `max` threads and
/// names a scheduling branch point of `bs`.
pub open spec fn entry_accesses_ok(e: Entry, max: nat, bs: Seq<path::Entry>) -> bool {
    match e {
        Entry::Arc(s) => access_ok(s.last_ref_inc, max, bs) && access_ok(s.last_ref_dec, max, bs),
        Entry::Atomic(s) => access_ok(s.last_access, max, bs) && access_ok(s.last_non_load_access, max, bs),
        Entry::Mutex(s) => access_ok(s.last_access, max, bs),
        Entry::Condvar(s) => access_ok(s.last_access, max, bs),
        Entry::Notify(s) => access_ok(s.last_access, max, bs),
        Entry::RwLock(s) => access_ok(s.last_access, max, bs),
        Entry::Channel(s) => access_ok(s.last_send_access, max, bs) && access_ok(s.last_recv_access, max, bs),
        _ => true,
    }
}

/// A recorded access, if any, has a clock of `n` entries.
pub open spec fn access_len(a: Option<Access>, n: nat) -> bool {
    a matches Some(x) ==> x.dpor_vv@.len() == n
}

/// Every recorded access of an entry has a clock of `n` entries.
pub open spec fn entry_access_lens(e: Entry, n: nat) -> bool {
    match e {
        Entry::Arc(s) => access_len(s.last_ref_inc, n) && access_len(s.last_ref_dec, n),
        Entry::Atomic(s) => access_len(s.last_access, n) && access_len(s.last_non_load_access, n),
        Entry::Mutex(s) => access_len(s.last_access, n),
        Entry::Condvar(s) => access_len(s.last_access, n),
        Entry::Notify(s) => access_len(s.last_access, n),
        Entry::RwLock(s) => access_len(s.last_access, n),
        Entry::Channel(s) => access_len(s.last_send_access, n) && access_len(s.last_recv_access, n),
        _ => true,
    }
}

/// The clocks of an entry fit a model of `max` threads.
pub open spec fn entry_wf(e: Entry, max: nat) -> bool {
    match e {
        Entry::Arc(s) => s.synchronize@.len() == max,
        Entry::Atomic(s) => s.inv(max),
        Entry::Mutex(s) => s.synchronize@.len() == max,
        Entry::Notify(s) => s.synchronize@.len() == max,
        Entry::RwLock(s) => s.synchronize@.len() == max,
        Entry::Channel(s) => s.synchronize@.len() == max,
        Entry::Cell(s) => s.wf(max),
        _ => true,
    }
}

/// The action is an atomic load.
pub open spec fn is_load(action: Action) -> bool {
    action == Action::Atomic(atomic::Action::Load)
}

/// Whether the action is an atomic load.
pub fn action_is_load(action: Action) -> (r: bool)
    ensures
        r == is_load(action),
{
    match action {
        Action::Atomic(atomic::Action::Load) => true,
        _ => false,
    }
}

/// The access that an operation with `action` on the object `e` depends on.
pub open spec fn dependent_access(e: Entry, action: Action) -> Option<(usize, Seq<usize>)> {
    match e {
        Entry::Arc(s) => match action {
            Action::Arc(arc::Action::RefDec) => access_view(s.last_ref_dec),
            _ => None,
        },
        Entry::Atomic(s) => if is_load(action) {
            access_view(s.last_non_load_access)
        } else {
            access_view(s.last_access)
        },
        Entry::Mutex(s) => access_view(s.last_access),
        Entry::Condvar(s) => access_view(s.last_access),
        Entry::Notify(s) => access_view(s.last_access),
        Entry::RwLock(s) => access_view(s.last_access),
        Entry::Channel(s) => match action {
            Action::Channel(mpsc::Action::MsgSend) => access_view(s.last_send_access),
            Action::Channel(mpsc::Action::MsgRecv) => access_view(s.last_recv_access),
            _ => None,
        },
        _ => None,
    }
}

/// Loads never race with loads: recording a load of an atomic cell leaves
/// unchanged the access that a later load of the cell depends on, while
/// recording a store or a read-modify-write makes it the one a later load
/// depends on.
pub proof fn lemma_loads_do_not_race(old: Entry, new: Entry, action: Action, path_id: usize, vv: Seq<usize>)
    requires
        old is Atomic,
        access_set(old, new, action, path_id, vv),
    ensures
        is_load(action) ==> dependent_access(new, Action::Atomic(atomic::Action::Load)) == dependent_access(
            old,
            Action::Atomic(atomic::Action::Load),
        ),
        !is_load(action) ==> dependent_access(new, Action::Atomic(atomic::Action::Load)) == Some((path_id, vv)),
        dependent_access(new, Action::Atomic(atomic::Action::Store)) == Some((path_id, vv)),
{
}

/// `new` is `old` with the access that `action` records set to
/// `(path_id, vv)`; nothing else changes.
pub open spec fn access_set(old: Entry, new: Entry, action: Action, path_id: usize, vv: Seq<usize>) -> bool {
    let a = Some((path_id, vv));
    match (old, new) {
        (Entry::Arc(o), Entry::Arc(n)) => n.ref_cnt == o.ref_cnt && n.synchronize == o.synchronize && match action {
            Action::Arc(arc::Action::RefInc) => access_view(n.last_ref_inc) == a && n.last_ref_dec == o.last_ref_dec,
            Action::Arc(arc::Action::RefDec) => access_view(n.last_ref_dec) == a && n.last_ref_inc == o.last_ref_inc,
            _ => false,
        },
        (Entry::Atomic(o), Entry::Atomic(n)) => access_view(n.last_access) == a
            && (is_load(action) ==> n.last_non_load_access == o.last_non_load_access)
            && (!is_load(action) ==> access_view(n.last_non_load_access) == a) && n.loaded_at == o.loaded_at
            && n.unsync_loaded_at == o.unsync_loaded_at && n.stored_at == o.stored_at && n.unsync_mut_at
            == o.unsync_mut_at && n.is_mutating == o.is_mutating && n.stores == o.stores && n.cnt == o.cnt,
        (Entry::Mutex(o), Entry::Mutex(n)) => access_view(n.last_access) == a && n.seq_cst == o.seq_cst
            && n.lock == o.lock && n.synchronize == o.synchronize,
        (Entry::Condvar(o), Entry::Condvar(n)) => access_view(n.last_access) == a && n.waiters == o.waiters,
        (Entry::RwLock(o), Entry::RwLock(n)) => access_view(n.last_access) == a && n.lock == o.lock
            && n.synchronize == o.synchronize,
        (Entry::Notify(o), Entry::Notify(n)) => access_view(n.last_access) == a && n.spurious == o.spurious
            && n.did_spur == o.did_spur && n.seq_cst == o.seq_cst && n.notified == o.notified
            && n.synchronize == o.synchronize,
        (Entry::Channel(o), Entry::Channel(n)) => n.msg_cnt == o.msg_cnt && n.synchronize == o.synchronize
            && match action {
            Action::Channel(mpsc::Action::MsgSend) => access_view(n.last_send_access) == a
                && n.last_recv_access == o.last_recv_access,
            Action::Channel(mpsc::Action::MsgRecv) => access_view(n.last_recv_access) == a
                && n.last_send_access == o.last_send_access,
            _ => false,
        },
        _ => false,
    }
}

/// The entry leaked: a live allocation or an `Arc` with references left.
pub open spec fn leaked(e: Entry) -> bool {
    match e {
        Entry::Alloc(s) => !s.is_dropped,
        Entry::Arc(s) => s.ref_cnt != 0,
        _ => false,
    }
}

/// The operation names an object of this store that can be branched on,
/// with an action of its kind.
pub open spec fn op_ok(s: Store, op: Operation) -> bool {
    &&& op.obj.execution_id == s.execution_id
    &&& op.obj.index < s.entries@.len()
    &&& match s.entries@[op.obj.index as int] {
        Entry::Alloc(_) => false,
        Entry::Cell(_) => false,
        Entry::Arc(_) => op.action is Arc,
        Entry::Channel(_) => op.action is Channel,
        _ => true,
    }
}

impl Store {
    /// The store's invariant for a model of `max` threads and the branch
    /// points `bs` of the path.
    pub open spec fn wf(&self, max: nat, bs: Seq<path::Entry>) -> bool {
        &&& forall|i: int| 0 <= i < self.entries@.len() ==> entry_wf(#[trigger] self.entries@[i], max)
        &&& forall|i: int| 0 <= i < self.entries@.len() ==> entry_accesses_ok(#[trigger] self.entries@[i], max, bs)
        &&& cells_wf(cells_view(self.causal_cells@), max)
    }

    /// Create a new, empty, object store
    pub fn new(execution_id: execution::Id) -> (r: Store)
        ensures
            r.execution_id == execution_id,
            r.entries@.len() == 0,
            r.causal_cells@.len() == 0,
    {
        Store { execution_id, entries: Vec::new(), causal_cells: Vec::new() }
    }

    /// Adds an object; returns its handle.
    pub fn insert(&mut self, entry: Entry) -> (r: Object)
        ensures
            final(self).entries@ == old(self).entries@.push(entry),
            final(self).causal_cells == old(self).causal_cells,
            final(self).execution_id == old(self).execution_id,
            r.index == old(self).entries@.len(),
            r.execution_id == old(self).execution_id,
    {
        let index = self.entries.len();
        self.entries.push(entry);
        Object { index, execution_id: self.execution_id }
    }

    /// Adds the causality state of a causally checked cell; returns its
    /// handle.
    pub fn insert_causal_cell(&mut self, state: causal::State) -> (r: CausalCellRef)
        ensures
            final(self).causal_cells@ == old(self).causal_cells@.push(state),
            final(self).entries == old(self).entries,
            final(self).execution_id == old(self).execution_id,
            r.index == old(self).causal_cells@.len(),
            r.execution_id == old(self).execution_id,
    {
        let index = self.causal_cells.len();
        self.causal_cells.push(state);
        CausalCellRef { index, execution_id: self.execution_id }
    }

    /// The access the operation depends on.
    pub fn last_dependent_access(&self, operation: Operation) -> (r: Option<Access>)
        requires
            op_ok(*self, operation),
        ensures
            access_view(r) == dependent_access(self.entries@[operation.obj.index as int], operation.action),
    {
        match &self.entries[operation.obj.index] {
            Entry::Arc(entry) => match operation.action {
                Action::Arc(a) => entry.last_dependent_access(a),
                _ => None,
            },
            Entry::Atomic(entry) => entry.last_dependent_access(action_is_load(operation.action)),
            Entry::Mutex(entry) => entry.last_dependent_access(),
            Entry::Condvar(entry) => entry.last_dependent_access(),
            Entry::Notify(entry) => entry.last_dependent_access(),
            Entry::RwLock(entry) => entry.last_dependent_access(),
            Entry::Channel(entry) => match operation.action {
                Action::Channel(a) => entry.last_dependent_access(a),
                _ => None,
            },
            _ => None,
        }
    }

    /// Records the operation as the last access of its object.
    pub fn set_last_access(&mut self, operation: Operation, path_id: usize, dpor_vv: &VersionVec)
        requires
            op_ok(*old(self), operation),
            entry_access_lens(old(self).entries@[operation.obj.index as int], dpor_vv@.len()),
        ensures
            final(self).execution_id == old(self).execution_id,
            final(self).causal_cells == old(self).causal_cells,
            final(self).entries@.len() == old(self).entries@.len(),
            access_set(
                old(self).entries@[operation.obj.index as int],
                final(self).entries@[operation.obj.index as int],
                operation.action,
                path_id,
                dpor_vv@,
            ),
            forall|i: int|
                0 <= i < old(self).entries@.len() && i != operation.obj.index ==> final(self).entries@[i]
                    == old(self).entries@[i],
    {
        let idx = operation.obj.index;
        match &mut self.entries[idx] {
            Entry::Arc(entry) => match operation.action {
                Action::Arc(a) => entry.set_last_access(a, path_id, dpor_vv),
                _ => {},
            },
            Entry::Atomic(entry) => entry.set_last_access(action_is_load(operation.action), path_id, dpor_vv),
            Entry::Mutex(entry) => entry.set_last_access(path_id, dpor_vv),
            Entry::Condvar(entry) => entry.set_last_access(path_id, dpor_vv),
            Entry::Notify(entry) => entry.set_last_access(path_id, dpor_vv),
            Entry::RwLock(entry) => entry.set_last_access(path_id, dpor_vv),
            Entry::Channel(entry) => match operation.action {
                Action::Channel(a) => entry.set_last_access(a, path_id, dpor_vv),
                _ => {},
            },
            _ => {},
        }
    }

    /// Fails if an allocation or an `Arc` is still alive.
    pub fn check_for_leaks(&self) -> (r: Result<(), Failure>)
        ensures
            r is Ok <==> forall|i: int| 0 <= i < self.entries@.len() ==> !leaked(#[trigger] self.entries@[i]),
            r is Err ==> r == Err::<(), Failure>(Failure::Leak),
    {
        let n = self.entries.len();
        let mut i: usize = 0;
        while i < n
            invariant
                n == self.entries@.len(),
                i <= n,
                forall|k: int| 0 <= k < i ==> !leaked(#[trigger] self.entries@[k]),
            decreases n - i,
        {
            let ok = match &self.entries[i] {
                Entry::Alloc(entry) => entry.check_for_leaks(),
                Entry::Arc(entry) => entry.check_for_leaks(),
                _ => true,
            };
            if !ok {
                return Err(Failure::Leak);
            }
            i = i + 1;
        }
        Ok(())
    }

    /// Empties the store for a new execution.
    pub fn clear(&mut self, execution_id: execution::Id)
        ensures
            final(self).execution_id == execution_id,
            final(self).entries@.len() == 0,
            final(self).causal_cells@.len() == 0,
    {
        self.execution_id = execution_id;
        self.entries.clear();
        self.causal_cells.clear();
    }
}

impl Object {
    /// The active thread is about to perform `action` on this object: a
    /// scheduling branching point. Returns whether to switch threads.
    pub fn branch(self, execution: &mut Execution, action: Action, trace: &Trace) -> (r: Result<bool, Failure>)
        requires
            old(execution).running(),
            op_ok(old(execution).objects, Operation { obj: self, action }),
        ensures
            exists|mid: Execution|
                active_set_keep(
                    *old(execution),
                    mid,
                    old(execution).threads.active_thread().state,
                    Some(Operation { obj: self, action }),
                ) && #[trigger] scheduled(mid, *final(execution), r),
    {
        self.branch_disable(execution, action, false, trace)
    }

    /// Like `branch`, with an action that depends on every access of the
    /// object.
    pub fn branch_opaque(self, execution: &mut Execution, trace: &Trace) -> (r: Result<bool, Failure>)
        requires
            old(execution).running(),
            op_ok(old(execution).objects, Operation { obj: self, action: Action::Opaque }),
        ensures
            exists|mid: Execution|
                active_set_keep(
                    *old(execution),
                    mid,
                    old(execution).threads.active_thread().state,
                    Some(Operation { obj: self, action: Action::Opaque }),
                ) && #[trigger] scheduled(mid, *final(execution), r),
    {
        self.branch_disable(execution, Action::Opaque, false, trace)
    }

    /// A branching point for acquiring the object: while it is locked the
    /// active thread is blocked, as it cannot make progress.
    pub fn branch_acquire(self, execution: &mut Execution, is_locked: bool, trace: &Trace) -> (r: Result<bool, Failure>)
        requires
            old(execution).running(),
            op_ok(old(execution).objects, Operation { obj: self, action: Action::Opaque }),
        ensures
            exists|mid: Execution|
                active_set_keep(
                    *old(execution),
                    mid,
                    if is_locked {
                        thread::State::Blocked
                    } else {
                        old(execution).threads.active_thread().state
                    },
                    Some(Operation { obj: self, action: Action::Opaque }),
                ) && #[trigger] scheduled(mid, *final(execution), r),
    {
        self.branch_disable(execution, Action::Opaque, is_locked, trace)
    }

    /// A branching point for `action`; with `disable` the active thread is
    /// blocked, as it cannot make progress.
    pub fn branch_disable(self, execution: &mut Execution, action: Action, disable: bool, trace: &Trace) -> (r: Result<
        bool,
        Failure,
    >)
        requires
            old(execution).running(),
            op_ok(old(execution).objects, Operation { obj: self, action }),
        ensures
            exists|mid: Execution|
                active_set_keep(
                    *old(execution),
                    mid,
                    if disable {
                        thread::State::Blocked
                    } else {
                        old(execution).threads.active_thread().state
                    },
                    Some(Operation { obj: self, action }),
                ) && #[trigger] scheduled(mid, *final(execution), r),
    {
        let a = execution.threads.active.unwrap();
        let st = if disable {
            thread::State::Blocked
        } else {
            execution.threads.threads[a].state
        };
        execution.set_active(st, Some(Operation { obj: self, action }));
        let ghost mid = *execution;
        let r = execution.schedule(trace);
        assert(scheduled(mid, *execution, r));
        r
    }
}

} // verus!
