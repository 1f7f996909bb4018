//! Shareable mutable containers whose accesses are checked against the
//! memory model of the execution.
use vstd::prelude::*;

use crate::rt::causal;
use crate::rt::cell::{cell_state, is_cell, Cell};
use crate::rt::execution::Execution;
use crate::rt::thread::active_causality;
use crate::rt::Failure;

pub use crate::rt::causal::CausalCheck;

verus! {

/// A value whose accesses are checked for causality: an immutable access
/// must not be concurrent with a mutable one, and a mutable access with any
/// other access.
#[derive(Debug)]
pub struct CausalCell<T> {
    data: T,
    /// Causality associated with the cell
    obj: causal::CausalCell,
}

impl<T> CausalCell<T> {
    /// The value.
    pub closed spec fn value(&self) -> T {
        self.data
    }

    /// The handle of the cell's causality state.
    pub closed spec fn handle(&self) -> causal::CausalCell {
        self.obj
    }

    /// The cell belongs to the execution.
    pub open spec fn in_execution(&self, e: Execution) -> bool {
        causal::is_causal_cell(e, self.handle().obj_ref)
    }

    /// Wraps `data`; the creation counts as an access by the active thread.
    pub fn new(execution: &mut Execution, data: T) -> (r: CausalCell<T>)
        requires
            old(execution).running(),
        ensures
            final(execution).running(),
            r.value() == data,
            r.in_execution(*final(execution)),
            causal::causal_view(*final(execution), r.handle().obj_ref) == (
                active_causality(old(execution).threads),
                active_causality(old(execution).threads),
                Seq::<Option<causal::DeferredView>>::empty(),
            ),
    {
        CausalCell { data, obj: causal::CausalCell::new(execution) }
    }

    /// Whether the active thread can make an immutable access now: no
    /// mutable access is concurrent with it.
    pub fn can_read(&self, execution: &Execution) -> (r: bool)
        requires
            execution.running(),
            self.in_execution(*execution),
        ensures
            r == causal::read_ok(causal::causal_view(*execution, self.handle().obj_ref), active_causality(execution.threads)),
    {
        self.obj.can_read(execution)
    }

    /// Whether the active thread can make a mutable access now: no access is
    /// concurrent with it.
    pub fn can_write(&self, execution: &Execution) -> (r: bool)
        requires
            execution.running(),
            self.in_execution(*execution),
        ensures
            r == causal::write_ok(causal::causal_view(*execution, self.handle().obj_ref), active_causality(execution.threads)),
    {
        self.obj.can_write(execution)
    }

    /// Records an immutable access by the active thread, which must not be
    /// concurrent with a mutable access (see `can_read`).
    pub fn check(&self, execution: &mut Execution)
        requires
            old(execution).running(),
            self.in_execution(*old(execution)),
            causal::read_ok(
                causal::causal_view(*old(execution), self.handle().obj_ref),
                active_causality(old(execution).threads),
            ),
        ensures
            final(execution).running(),
            causal::causal_view(*final(execution), self.handle().obj_ref) == causal::after_read(
                causal::causal_view(*old(execution), self.handle().obj_ref),
                active_causality(old(execution).threads),
            ),
    {
        let _ = self.obj.check(execution);
    }

    /// Records a mutable access by the active thread, which must not be
    /// concurrent with any access (see `can_write`).
    pub fn check_mut(&self, execution: &mut Execution)
        requires
            old(execution).running(),
            self.in_execution(*old(execution)),
            causal::write_ok(
                causal::causal_view(*old(execution), self.handle().obj_ref),
                active_causality(old(execution).threads),
            ),
        ensures
            final(execution).running(),
            causal::causal_view(*final(execution), self.handle().obj_ref) == causal::after_write(
                causal::causal_view(*old(execution), self.handle().obj_ref),
                active_causality(old(execution).threads),
            ),
    {
        let _ = self.obj.check_mut(execution);
    }

    /// An immutable access, which must not be concurrent with a mutable one
    /// (see `can_read`): it is recorded, then `f` reads the value, in a
    /// critical section.
    pub fn with<R, F: FnOnce(&T) -> R>(&self, execution: &mut Execution, f: F) -> (r: R)
        requires
            old(execution).running(),
            self.in_execution(*old(execution)),
            f.requires((&self.value(),)),
            causal::read_ok(
                causal::causal_view(*old(execution), self.handle().obj_ref),
                active_causality(old(execution).threads),
            ),
        ensures
            final(execution).running(),
            f.ensures((&self.value(),), r),
            causal::causal_view(*final(execution), self.handle().obj_ref) == causal::after_read(
                causal::causal_view(*old(execution), self.handle().obj_ref),
                active_causality(old(execution).threads),
            ),
    {
        execution.set_critical();
        let _ = self.obj.check(execution);
        let v = f(&self.data);
        execution.unset_critical();
        v
    }

    /// A mutable access, which must not be concurrent with any access (see
    /// `can_write`): it is recorded, then `f` computes the new value from
    /// the current one, in a critical section. Returns what `f` returns
    /// beside the new value.
    pub fn with_mut<R, F: FnOnce(&T) -> (T, R)>(&mut self, execution: &mut Execution, f: F) -> (r: R)
        requires
            old(execution).running(),
            old(self).in_execution(*old(execution)),
            f.requires((&old(self).value(),)),
            causal::write_ok(
                causal::causal_view(*old(execution), old(self).handle().obj_ref),
                active_causality(old(execution).threads),
            ),
        ensures
            final(execution).running(),
            final(self).handle() == old(self).handle(),
            f.ensures((&old(self).value(),), (final(self).value(), r)),
            causal::causal_view(*final(execution), old(self).handle().obj_ref) == causal::after_write(
                causal::causal_view(*old(execution), old(self).handle().obj_ref),
                active_causality(old(execution).threads),
            ),
    {
        execution.set_critical();
        let _ = self.obj.check_mut(execution);
        let (data, v) = f(&self.data);
        self.data = data;
        execution.unset_critical();
        v
    }

    /// An immutable access whose check is deferred: `f` reads the value
    /// now, in a critical section; the returned check tells later whether
    /// the access was valid.
    pub fn with_deferred<R, F: FnOnce(&T) -> R>(&self, execution: &mut Execution, f: F) -> (r: (R, CausalCheck))
        requires
            old(execution).running(),
            self.in_execution(*old(execution)),
            f.requires((&self.value(),)),
        ensures
            final(execution).running(),
            f.ensures((&self.value(),), r.0),
            ({
                let v = causal::causal_view(*old(execution), self.handle().obj_ref);
                let c = active_causality(old(execution).threads);
                &&& r.1.deferred@ == seq![(self.handle().obj_ref, v.2.len() as usize)]
                &&& causal::causal_view(*final(execution), self.handle().obj_ref) == (
                    v.0,
                    v.1,
                    v.2.push(Some((false, c, causal::read_ok(v, c)))),
                )
            }),
    {
        execution.set_critical();
        let check = self.obj.defer(execution, false);
        let v = f(&self.data);
        execution.unset_critical();
        (v, check)
    }

    /// A mutable access whose check is deferred: `f` computes the new value
    /// now, in a critical section; the returned check tells later whether
    /// the access was valid.
    pub fn with_deferred_mut<R, F: FnOnce(&T) -> (T, R)>(&mut self, execution: &mut Execution, f: F) -> (r: (R, CausalCheck))
        requires
            old(execution).running(),
            old(self).in_execution(*old(execution)),
            f.requires((&old(self).value(),)),
        ensures
            final(execution).running(),
            final(self).handle() == old(self).handle(),
            f.ensures((&old(self).value(),), (final(self).value(), r.0)),
            ({
                let v = causal::causal_view(*old(execution), old(self).handle().obj_ref);
                let c = active_causality(old(execution).threads);
                &&& r.1.deferred@ == seq![(old(self).handle().obj_ref, v.2.len() as usize)]
                &&& causal::causal_view(*final(execution), old(self).handle().obj_ref) == (
                    v.0,
                    v.1,
                    v.2.push(Some((true, c, causal::write_ok(v, c)))),
                )
            }),
    {
        execution.set_critical();
        let check = self.obj.defer(execution, true);
        let (data, v) = f(&self.data);
        self.data = data;
        execution.unset_critical();
        (v, check)
    }

    /// Reads the value without any check.
    pub fn with_unchecked<R, F: FnOnce(&T) -> R>(&self, f: F) -> (r: R)
        requires
            f.requires((&self.value(),)),
        ensures
            f.ensures((&self.value(),), r),
    {
        f(&self.data)
    }

    /// Updates the value without any check: `f` computes the new value from
    /// the current one.
    pub fn with_mut_unchecked<R, F: FnOnce(&T) -> (T, R)>(&mut self, f: F) -> (r: R)
        requires
            f.requires((&old(self).value(),)),
        ensures
            final(self).handle() == old(self).handle(),
            f.ensures((&old(self).value(),), (final(self).value(), r)),
    {
        let (data, v) = f(&self.data);
        self.data = data;
        v
    }
}

/// A checked version of `std::cell::UnsafeCell`: every access is tracked
/// from start to end. Reads must not be concurrent with writes, nor writes
/// with any access, and a cell is not entered while a conflicting access is
/// in progress.
#[derive(Debug)]
pub struct UnsafeCell<T> {
    /// Causality associated with the cell
    state: Cell,
    data: T,
}

impl<T> UnsafeCell<T> {
    /// The value.
    pub closed spec fn value(&self) -> T {
        self.data
    }

    /// The handle of the cell's access state.
    pub closed spec fn handle(&self) -> Cell {
        self.state
    }

    /// Wraps `data`; the creation counts as a read and a write by the
    /// active thread.
    pub fn new(execution: &mut Execution, data: T) -> (r: UnsafeCell<T>)
        requires
            old(execution).running(),
        ensures
            final(execution).running(),
            r.value() == data,
            is_cell(*final(execution), r.handle().obj),
            cell_state(*final(execution), r.handle().obj).is_reading == 0,
            !cell_state(*final(execution), r.handle().obj).is_writing,
            cell_state(*final(execution), r.handle().obj).read_access@ == active_causality(old(execution).threads),
            cell_state(*final(execution), r.handle().obj).write_access@ == active_causality(old(execution).threads),
    {
        UnsafeCell { state: Cell::new(execution), data }
    }

    /// The number of reads of the cell in progress.
    pub fn reader_count(&self, execution: &Execution) -> (r: usize)
        requires
            is_cell(*execution, self.handle().obj),
        ensures
            r == cell_state(*execution, self.handle().obj).is_reading,
    {
        self.state.reader_count(execution)
    }

    /// Whether a write of the cell is in progress.
    pub fn is_writing(&self, execution: &Execution) -> (r: bool)
        requires
            is_cell(*execution, self.handle().obj),
        ensures
            r == cell_state(*execution, self.handle().obj).is_writing,
    {
        self.state.is_writing(execution)
    }

    /// Whether a read by the active thread may start now: the cell is not
    /// being written, and its last write happens before the thread.
    pub fn can_read(&self, execution: &Execution) -> (r: bool)
        requires
            execution.running(),
            is_cell(*execution, self.handle().obj),
            active_causality(execution.threads)[execution.threads.active_index()] < usize::MAX,
        ensures
            r == (!cell_state(*execution, self.handle().obj).is_writing && crate::rt::vv::vv_le(
                cell_state(*execution, self.handle().obj).write_access@,
                crate::rt::cell::tick_clock(execution.threads),
            )),
    {
        self.state.can_read(execution)
    }

    /// Whether a write by the active thread may start now: the cell is
    /// neither read nor written, and its last write and every read happen
    /// before the thread.
    pub fn can_write(&self, execution: &Execution) -> (r: bool)
        requires
            execution.running(),
            is_cell(*execution, self.handle().obj),
            active_causality(execution.threads)[execution.threads.active_index()] < usize::MAX,
        ensures
            r == ({
                let s = cell_state(*execution, self.handle().obj);
                let c = crate::rt::cell::tick_clock(execution.threads);
                s.is_reading == 0 && !s.is_writing && crate::rt::vv::vv_le(s.write_access@, c) && crate::rt::vv::vv_le(
                    s.read_access@,
                    c,
                )
            }),
    {
        self.state.can_write(execution)
    }

    /// A read, which may start only while no write is in progress or
    /// concurrent with it (see `can_read`): tracked at its start and its
    /// end; `f` reads the value.
    pub fn with<R, F: FnOnce(&T) -> R>(&self, execution: &mut Execution, f: F) -> (r: R)
        requires
            old(execution).running(),
            is_cell(*old(execution), self.handle().obj),
            active_causality(old(execution).threads)[old(execution).threads.active_index()] < usize::MAX,
            cell_state(*old(execution), self.handle().obj).is_reading < usize::MAX,
            f.requires((&self.value(),)),
            !cell_state(*old(execution), self.handle().obj).is_writing,
            crate::rt::vv::vv_le(
                cell_state(*old(execution), self.handle().obj).write_access@,
                crate::rt::cell::tick_clock(old(execution).threads),
            ),
        ensures
            final(execution).running(),
            f.ensures((&self.value(),), r),
            ({
                let s = cell_state(*old(execution), self.handle().obj);
                let ns = cell_state(*final(execution), self.handle().obj);
                let c = crate::rt::cell::tick_clock(old(execution).threads);
                &&& is_cell(*final(execution), self.handle().obj)
                &&& ns.is_reading == s.is_reading
                &&& !ns.is_writing
                &&& ns.write_access == s.write_access
                &&& ns.read_access@ == crate::rt::vv::vv_join(s.read_access@, c)
                &&& crate::rt::mutex::objects_changed(
                    *old(execution),
                    *final(execution),
                    self.handle().obj,
                    final(execution).objects.entries@[self.handle().obj.index as int],
                )
                &&& active_causality(final(execution).threads) == c
            }),
    {
        let ghost old_e = *execution;
        let _ = self.state.enter_read(execution);
        let v = f(&self.data);
        let _ = self.state.exit_read(execution);
        proof {
            let s = cell_state(old_e, self.handle().obj);
            let c = crate::rt::cell::tick_clock(old_e.threads);
            crate::rt::thread::lemma_active_wf(old_e.threads);
            assert(crate::rt::vv::vv_join(crate::rt::vv::vv_join(s.read_access@, c), c) =~= crate::rt::vv::vv_join(
                s.read_access@,
                c,
            ));
            assert(execution.objects.entries@ =~= old_e.objects.entries@.update(
                self.handle().obj.index as int,
                execution.objects.entries@[self.handle().obj.index as int],
            ));
        }
        v
    }

    /// A write, which may start only while the cell is neither read nor
    /// written and no access is concurrent with it (see `can_write`):
    /// tracked at its start and its end; `f` computes the new value from
    /// the current one.
    pub fn with_mut<R, F: FnOnce(&T) -> (T, R)>(&mut self, execution: &mut Execution, f: F) -> (r: R)
        requires
            old(execution).running(),
            is_cell(*old(execution), old(self).handle().obj),
            active_causality(old(execution).threads)[old(execution).threads.active_index()] < usize::MAX,
            f.requires((&old(self).value(),)),
            ({
                let s = cell_state(*old(execution), old(self).handle().obj);
                let c = crate::rt::cell::tick_clock(old(execution).threads);
                s.is_reading == 0 && !s.is_writing && crate::rt::vv::vv_le(s.write_access@, c) && crate::rt::vv::vv_le(
                    s.read_access@,
                    c,
                )
            }),
        ensures
            final(execution).running(),
            final(self).handle() == old(self).handle(),
            f.ensures((&old(self).value(),), (final(self).value(), r)),
            ({
                let s = cell_state(*old(execution), old(self).handle().obj);
                let ns = cell_state(*final(execution), old(self).handle().obj);
                let c = crate::rt::cell::tick_clock(old(execution).threads);
                &&& is_cell(*final(execution), old(self).handle().obj)
                &&& !ns.is_writing
                &&& ns.is_reading == 0
                &&& ns.read_access == s.read_access
                &&& ns.write_access@ == crate::rt::vv::vv_join(s.write_access@, c)
                &&& crate::rt::mutex::objects_changed(
                    *old(execution),
                    *final(execution),
                    old(self).handle().obj,
                    final(execution).objects.entries@[old(self).handle().obj.index as int],
                )
                &&& active_causality(final(execution).threads) == c
            }),
    {
        let ghost old_e = *execution;
        let _ = self.state.enter_write(execution);
        let (data, v) = f(&self.data);
        self.data = data;
        proof {
            let c = active_causality(execution.threads);
            let w = cell_state(old_e, old(self).handle().obj).write_access@;
            crate::rt::vv::lemma_join_least_upper_bound(w, c, c);
            crate::rt::vv::lemma_le_partial_order(c, c, c);
        }
        let _ = self.state.exit_write(execution);
        proof {
            let s = cell_state(old_e, old(self).handle().obj);
            let c = crate::rt::cell::tick_clock(old_e.threads);
            crate::rt::thread::lemma_active_wf(old_e.threads);
            assert(crate::rt::vv::vv_join(crate::rt::vv::vv_join(s.write_access@, c), c) =~= crate::rt::vv::vv_join(
                s.write_access@,
                c,
            ));
            assert(execution.objects.entries@ =~= old_e.objects.entries@.update(
                old(self).handle().obj.index as int,
                execution.objects.entries@[old(self).handle().obj.index as int],
            ));
        }
        v
    }
}

} // verus!
