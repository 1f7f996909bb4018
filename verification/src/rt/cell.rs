//! Access tracking of a checked `UnsafeCell`: reads must not be concurrent
//! with writes, and writes with any access; a cell is not entered for
//! writing while it is being read or written.
use vstd::prelude::*;

use crate::rt::execution::{lemma_entry_insert, lemma_entry_update, Execution};
use crate::rt::mutex::objects_changed;
use crate::rt::object::{Entry, Object};
use crate::rt::thread::{self, active_causality, lemma_active_wf, ThreadSet};
use crate::rt::vv::{vv_join, vv_le, VersionVec};
use crate::rt::Failure;

verus! {

/// Tracks immutable and mutable access to a single memory cell.
#[derive(Debug)]
pub struct State {
    /// Number of threads currently reading the cell
    pub is_reading: usize,
    /// `true` if in a `with_mut` closure.
    pub is_writing: bool,
    /// The transitive closure of all immutable accesses of the data.
    pub read_access: VersionVec,
    /// The last mutable access of the data.
    pub write_access: VersionVec,
}

impl State {
    /// The cell's invariant for a model of `max` threads.
    pub open spec fn wf(&self, max: nat) -> bool {
        &&& self.read_access@.len() == max
        &&& self.write_access@.len() == max
    }

    /// Everything but the access clocks is unchanged.
    pub open spec fn same_flags(&self, other: &State) -> bool {
        self.is_reading == other.is_reading && self.is_writing == other.is_writing
    }

    /// A new cell; its creation counts as both a read and a write by the
    /// active thread.
    pub fn new(threads: &ThreadSet) -> (r: State)
        requires
            threads.wf(),
            threads.active is Some,
        ensures
            r.wf(threads.max as nat),
            r.is_reading == 0,
            !r.is_writing,
            r.read_access@ == active_causality(*threads),
            r.write_access@ == active_causality(*threads),
    {
        proof {
            lemma_active_wf(*threads);
        }
        let version = threads.active().causality.clone();
        State { is_reading: 0, is_writing: false, read_access: version.clone(), write_access: version }
    }

    /// Performs a read access: the last write must happen before it.
    pub fn track_read(&mut self, threads: &ThreadSet) -> (r: Result<(), Failure>)
        requires
            threads.wf(),
            threads.active is Some,
            old(self).wf(threads.max as nat),
        ensures
            final(self).wf(threads.max as nat),
            final(self).same_flags(old(self)),
            final(self).write_access == old(self).write_access,
            r is Ok <==> vv_le(old(self).write_access@, active_causality(*threads)),
            r is Err ==> r == Err::<(), Failure>(Failure::CausalityViolation) && *final(self) == *old(self),
            r is Ok ==> final(self).read_access@ == vv_join(old(self).read_access@, active_causality(*threads)),
    {
        proof {
            lemma_active_wf(*threads);
        }
        let current = &threads.active().causality;
        // Check that there is no concurrent mutable access, i.e., the last
        // mutable access must happen-before this immutable access.
        if current.ahead(&self.write_access).is_some() {
            // Concurrent read and write accesses.
            return Err(Failure::CausalityViolation);
        }
        self.read_access.join(current);
        Ok(())
    }

    /// Performs a write access: the last write and every read must happen
    /// before it.
    pub fn track_write(&mut self, threads: &ThreadSet) -> (r: Result<(), Failure>)
        requires
            threads.wf(),
            threads.active is Some,
            old(self).wf(threads.max as nat),
        ensures
            final(self).wf(threads.max as nat),
            final(self).same_flags(old(self)),
            final(self).read_access == old(self).read_access,
            r is Ok <==> vv_le(old(self).write_access@, active_causality(*threads)) && vv_le(
                old(self).read_access@,
                active_causality(*threads),
            ),
            r is Err ==> r == Err::<(), Failure>(Failure::CausalityViolation) && *final(self) == *old(self),
            r is Ok ==> final(self).write_access@ == vv_join(old(self).write_access@, active_causality(*threads)),
    {
        proof {
            lemma_active_wf(*threads);
        }
        let current = &threads.active().causality;
        // Check that there is no concurrent mutable access, i.e., the last
        // mutable access must happen-before this mutable access.
        if current.ahead(&self.write_access).is_some() {
            // Concurrent write accesses.
            return Err(Failure::CausalityViolation);
        }
        // Check that there are no concurrent immutable accesses, i.e., every
        // immutable access must happen-before this mutable access.
        if current.ahead(&self.read_access).is_some() {
            // Concurrent read and write accesses.
            return Err(Failure::CausalityViolation);
        }
        self.write_access.join(current);
        Ok(())
    }

    /// Enters a read: refused while the cell is being written; otherwise the
    /// read is counted and tracked.
    pub fn enter_read(&mut self, threads: &ThreadSet) -> (r: Result<(), Failure>)
        requires
            threads.wf(),
            threads.active is Some,
            old(self).wf(threads.max as nat),
            old(self).is_reading < usize::MAX,
        ensures
            final(self).wf(threads.max as nat),
            final(self).write_access == old(self).write_access,
            old(self).is_writing ==> r == Err::<(), Failure>(Failure::CellBusy),
            r is Ok <==> !old(self).is_writing && vv_le(old(self).write_access@, active_causality(*threads)),
            !old(self).is_writing && r is Err ==> r == Err::<(), Failure>(Failure::CausalityViolation),
            r is Ok ==> {
                &&& final(self).is_reading == old(self).is_reading + 1
                &&& !final(self).is_writing
                &&& final(self).read_access@ == vv_join(old(self).read_access@, active_causality(*threads))
            },
    {
        if self.is_writing {
            // currently writing to cell
            return Err(Failure::CellBusy);
        }
        self.is_reading = self.is_reading + 1;
        self.track_read(threads)
    }

    /// Leaves a read: the end of the read is tracked as a read too.
    pub fn exit_read(&mut self, threads: &ThreadSet) -> (r: Result<(), Failure>)
        requires
            threads.wf(),
            threads.active is Some,
            old(self).wf(threads.max as nat),
            old(self).is_reading > 0,
            !old(self).is_writing,
        ensures
            final(self).wf(threads.max as nat),
            final(self).is_reading == old(self).is_reading - 1,
            !final(self).is_writing,
            final(self).write_access == old(self).write_access,
            r is Ok <==> vv_le(old(self).write_access@, active_causality(*threads)),
            r is Err ==> r == Err::<(), Failure>(Failure::CausalityViolation),
            r is Ok ==> final(self).read_access@ == vv_join(old(self).read_access@, active_causality(*threads)),
    {
        self.is_reading = self.is_reading - 1;
        self.track_read(threads)
    }

    /// Enters a write: refused while the cell is being read or written;
    /// otherwise the write is marked and tracked.
    pub fn enter_write(&mut self, threads: &ThreadSet) -> (r: Result<(), Failure>)
        requires
            threads.wf(),
            threads.active is Some,
            old(self).wf(threads.max as nat),
        ensures
            final(self).wf(threads.max as nat),
            final(self).read_access == old(self).read_access,
            old(self).is_reading != 0 || old(self).is_writing ==> r == Err::<(), Failure>(Failure::CellBusy),
            r is Ok <==> old(self).is_reading == 0 && !old(self).is_writing && vv_le(
                old(self).write_access@,
                active_causality(*threads),
            ) && vv_le(old(self).read_access@, active_causality(*threads)),
            old(self).is_reading == 0 && !old(self).is_writing && r is Err ==> r == Err::<(), Failure>(
                Failure::CausalityViolation,
            ),
            r is Ok ==> {
                &&& final(self).is_reading == 0
                &&& final(self).is_writing
                &&& final(self).write_access@ == vv_join(old(self).write_access@, active_causality(*threads))
            },
    {
        if self.is_reading != 0 {
            // currently reading from cell
            return Err(Failure::CellBusy);
        }
        if self.is_writing {
            // currently writing to cell
            return Err(Failure::CellBusy);
        }
        self.is_writing = true;
        self.track_write(threads)
    }

    /// Leaves a write: the end of the write is tracked as a write too.
    pub fn exit_write(&mut self, threads: &ThreadSet) -> (r: Result<(), Failure>)
        requires
            threads.wf(),
            threads.active is Some,
            old(self).wf(threads.max as nat),
            old(self).is_writing,
            old(self).is_reading == 0,
        ensures
            final(self).wf(threads.max as nat),
            !final(self).is_writing,
            final(self).is_reading == 0,
            final(self).read_access == old(self).read_access,
            r is Ok <==> vv_le(old(self).write_access@, active_causality(*threads)) && vv_le(
                old(self).read_access@,
                active_causality(*threads),
            ),
            r is Err ==> r == Err::<(), Failure>(Failure::CausalityViolation),
            r is Ok ==> final(self).write_access@ == vv_join(old(self).write_access@, active_causality(*threads)),
    {
        self.is_writing = false;
        self.track_write(threads)
    }
}

/// A cell whose accesses are tracked: a handle to its state in the
/// execution.
#[derive(Debug, Clone, Copy, PartialEq, Eq, Structural)]
pub struct Cell {
    pub obj: Object,
}

/// The object is a tracked cell of the execution.
pub open spec fn is_cell(e: Execution, obj: Object) -> bool {
    &&& obj.execution_id == e.objects.execution_id
    &&& obj.index < e.objects.entries@.len()
    &&& e.objects.entries@[obj.index as int] is Cell
}

/// The access state of the cell `obj`.
pub open spec fn cell_state(e: Execution, obj: Object) -> State {
    e.objects.entries@[obj.index as int]->Cell_0
}

/// The active thread's causality after a synchronization point.
pub open spec fn tick_clock(ts: ThreadSet) -> Seq<usize> {
    let a = ts.active_index();
    let c = active_causality(ts);
    c.update(a, (c[a] + 1) as usize)
}

impl Cell {
    /// A new cell; its creation counts as a read and a write by the active
    /// thread.
    pub fn new(execution: &mut Execution) -> (r: Cell)
        requires
            old(execution).running(),
        ensures
            final(execution).running(),
            final(execution).same_config(old(execution)),
            final(execution).path == old(execution).path,
            final(execution).threads == old(execution).threads,
            final(execution).objects.causal_cells == old(execution).objects.causal_cells,
            final(execution).objects.execution_id == old(execution).objects.execution_id,
            final(execution).objects.entries@.drop_last() == old(execution).objects.entries@,
            r.obj.index == old(execution).objects.entries@.len(),
            r.obj.execution_id == old(execution).id,
            is_cell(*final(execution), r.obj),
            ({
                let s = cell_state(*final(execution), r.obj);
                &&& s.is_reading == 0 && !s.is_writing
                &&& s.read_access@ == active_causality(old(execution).threads)
                &&& s.write_access@ == active_causality(old(execution).threads)
            }),
    {
        let ghost old_e = *execution;
        let state = State::new(&execution.threads);
        let obj = execution.objects.insert(Entry::Cell(state));
        proof {
            assert(execution.objects.entries@.drop_last() =~= old_e.objects.entries@);
            lemma_entry_insert(old_e, *execution);
            assert(execution.objects.entries@[obj.index as int] == Entry::Cell(state));
        }
        Cell { obj }
    }

    /// The number of reads of the cell in progress.
    pub fn reader_count(&self, execution: &Execution) -> (r: usize)
        requires
            is_cell(*execution, self.obj),
        ensures
            r == cell_state(*execution, self.obj).is_reading,
    {
        match &execution.objects.entries[self.obj.index] {
            Entry::Cell(state) => state.is_reading,
            _ => 0,
        }
    }

    /// Whether a write of the cell is in progress.
    pub fn is_writing(&self, execution: &Execution) -> (r: bool)
        requires
            is_cell(*execution, self.obj),
        ensures
            r == cell_state(*execution, self.obj).is_writing,
    {
        match &execution.objects.entries[self.obj.index] {
            Entry::Cell(state) => state.is_writing,
            _ => false,
        }
    }

    /// Whether a read of the cell by the active thread may start now: the
    /// cell is not being written, and its last write happens before the
    /// thread once its clock advances at the read.
    pub fn can_read(&self, execution: &Execution) -> (r: bool)
        requires
            execution.running(),
            is_cell(*execution, self.obj),
            active_causality(execution.threads)[execution.threads.active_index()] < usize::MAX,
        ensures
            r == (!cell_state(*execution, self.obj).is_writing && vv_le(
                cell_state(*execution, self.obj).write_access@,
                tick_clock(execution.threads),
            )),
    {
        let t = ticked_clock(&execution.threads);
        match &execution.objects.entries[self.obj.index] {
            Entry::Cell(state) => !state.is_writing && state.write_access.le(&t),
            _ => false,
        }
    }

    /// Whether a write of the cell by the active thread may start now: the
    /// cell is neither read nor written, and its last write and every read
    /// happen before the thread once its clock advances at the write.
    pub fn can_write(&self, execution: &Execution) -> (r: bool)
        requires
            execution.running(),
            is_cell(*execution, self.obj),
            active_causality(execution.threads)[execution.threads.active_index()] < usize::MAX,
        ensures
            r == ({
                let s = cell_state(*execution, self.obj);
                let c = tick_clock(execution.threads);
                s.is_reading == 0 && !s.is_writing && vv_le(s.write_access@, c) && vv_le(s.read_access@, c)
            }),
    {
        let t = ticked_clock(&execution.threads);
        match &execution.objects.entries[self.obj.index] {
            Entry::Cell(state) => state.is_reading == 0 && !state.is_writing && state.write_access.le(&t)
                && state.read_access.le(&t),
            _ => false,
        }
    }

    /// Starts a read of the cell: a synchronization point, then the read is
    /// entered (refused while the cell is written) and tracked (the last
    /// write must happen before it). `exit_read` ends it.
    pub fn enter_read(&self, execution: &mut Execution) -> (r: Result<(), Failure>)
        requires
            old(execution).running(),
            is_cell(*old(execution), self.obj),
            active_causality(old(execution).threads)[old(execution).threads.active_index()] < usize::MAX,
            cell_state(*old(execution), self.obj).is_reading < usize::MAX,
        ensures
            final(execution).running(),
            final(execution).path == old(execution).path,
            ({
                let s = cell_state(*old(execution), self.obj);
                let ns = cell_state(*final(execution), self.obj);
                let c = tick_clock(old(execution).threads);
                &&& final(execution).objects.entries@[self.obj.idx()] is Cell
                &&& objects_changed(*old(execution), *final(execution), self.obj, final(execution).objects.entries@[self.obj.idx()])
                &&& thread::with_active_causality(old(execution).threads, final(execution).threads, c, old(execution).threads.seq_cst_causality@)
                &&& s.is_writing ==> r == Err::<(), Failure>(Failure::CellBusy)
                &&& r is Ok <==> !s.is_writing && vv_le(s.write_access@, c)
                &&& !s.is_writing && r is Err ==> r == Err::<(), Failure>(Failure::CausalityViolation)
                &&& r is Ok ==> ns.is_reading == s.is_reading + 1 && !ns.is_writing && ns.write_access == s.write_access
                    && ns.read_access@ == vv_join(s.read_access@, c)
            }),
    {
        let ghost old_e = *execution;
        execution.synchronize();
        let ghost ticked_e = *execution;
        let r = match &mut execution.objects.entries[self.obj.index] {
            Entry::Cell(state) => state.enter_read(&execution.threads),
            _ => Ok(()),
        };
        proof {
            lemma_entry_update(ticked_e, *execution, self.obj.idx());
            assert(execution.objects.entries@ =~= old_e.objects.entries@.update(self.obj.idx(), execution.objects.entries@[self.obj.idx()]));
        }
        r
    }

    /// Ends a read of the cell; the end is tracked as a read too.
    pub fn exit_read(&self, execution: &mut Execution) -> (r: Result<(), Failure>)
        requires
            old(execution).running(),
            is_cell(*old(execution), self.obj),
            cell_state(*old(execution), self.obj).is_reading > 0,
            !cell_state(*old(execution), self.obj).is_writing,
        ensures
            final(execution).running(),
            final(execution).path == old(execution).path,
            final(execution).threads == old(execution).threads,
            ({
                let s = cell_state(*old(execution), self.obj);
                let ns = cell_state(*final(execution), self.obj);
                let c = active_causality(old(execution).threads);
                &&& final(execution).objects.entries@[self.obj.idx()] is Cell
                &&& objects_changed(*old(execution), *final(execution), self.obj, final(execution).objects.entries@[self.obj.idx()])
                &&& ns.is_reading == s.is_reading - 1 && !ns.is_writing && ns.write_access == s.write_access
                &&& r is Ok <==> vv_le(s.write_access@, c)
                &&& r is Err ==> r == Err::<(), Failure>(Failure::CausalityViolation)
                &&& r is Ok ==> ns.read_access@ == vv_join(s.read_access@, c)
            }),
    {
        let ghost old_e = *execution;
        let r = match &mut execution.objects.entries[self.obj.index] {
            Entry::Cell(state) => state.exit_read(&execution.threads),
            _ => Ok(()),
        };
        proof {
            lemma_entry_update(old_e, *execution, self.obj.idx());
            assert(execution.objects.entries@ =~= old_e.objects.entries@.update(self.obj.idx(), execution.objects.entries@[self.obj.idx()]));
        }
        r
    }

    /// Starts a write of the cell: a synchronization point, then the write
    /// is entered (refused while the cell is read or written) and tracked
    /// (the last write and every read must happen before it). `exit_write`
    /// ends it.
    pub fn enter_write(&self, execution: &mut Execution) -> (r: Result<(), Failure>)
        requires
            old(execution).running(),
            is_cell(*old(execution), self.obj),
            active_causality(old(execution).threads)[old(execution).threads.active_index()] < usize::MAX,
        ensures
            final(execution).running(),
            final(execution).path == old(execution).path,
            ({
                let s = cell_state(*old(execution), self.obj);
                let ns = cell_state(*final(execution), self.obj);
                let c = tick_clock(old(execution).threads);
                &&& final(execution).objects.entries@[self.obj.idx()] is Cell
                &&& objects_changed(*old(execution), *final(execution), self.obj, final(execution).objects.entries@[self.obj.idx()])
                &&& thread::with_active_causality(old(execution).threads, final(execution).threads, c, old(execution).threads.seq_cst_causality@)
                &&& s.is_reading != 0 || s.is_writing ==> r == Err::<(), Failure>(Failure::CellBusy)
                &&& r is Ok <==> s.is_reading == 0 && !s.is_writing && vv_le(s.write_access@, c) && vv_le(s.read_access@, c)
                &&& s.is_reading == 0 && !s.is_writing && r is Err ==> r == Err::<(), Failure>(Failure::CausalityViolation)
                &&& r is Ok ==> ns.is_reading == 0 && ns.is_writing && ns.read_access == s.read_access
                    && ns.write_access@ == vv_join(s.write_access@, c)
            }),
    {
        let ghost old_e = *execution;
        execution.synchronize();
        let ghost ticked_e = *execution;
        let r = match &mut execution.objects.entries[self.obj.index] {
            Entry::Cell(state) => state.enter_write(&execution.threads),
            _ => Ok(()),
        };
        proof {
            lemma_entry_update(ticked_e, *execution, self.obj.idx());
            assert(execution.objects.entries@ =~= old_e.objects.entries@.update(self.obj.idx(), execution.objects.entries@[self.obj.idx()]));
        }
        r
    }

    /// Ends a write of the cell; the end is tracked as a write too.
    pub fn exit_write(&self, execution: &mut Execution) -> (r: Result<(), Failure>)
        requires
            old(execution).running(),
            is_cell(*old(execution), self.obj),
            cell_state(*old(execution), self.obj).is_writing,
            cell_state(*old(execution), self.obj).is_reading == 0,
        ensures
            final(execution).running(),
            final(execution).path == old(execution).path,
            final(execution).threads == old(execution).threads,
            ({
                let s = cell_state(*old(execution), self.obj);
                let ns = cell_state(*final(execution), self.obj);
                let c = active_causality(old(execution).threads);
                &&& final(execution).objects.entries@[self.obj.idx()] is Cell
                &&& objects_changed(*old(execution), *final(execution), self.obj, final(execution).objects.entries@[self.obj.idx()])
                &&& ns.is_reading == 0 && !ns.is_writing && ns.read_access == s.read_access
                &&& r is Ok <==> vv_le(s.write_access@, c) && vv_le(s.read_access@, c)
                &&& r is Err ==> r == Err::<(), Failure>(Failure::CausalityViolation)
                &&& r is Ok ==> ns.write_access@ == vv_join(s.write_access@, c)
            }),
    {
        let ghost old_e = *execution;
        let r = match &mut execution.objects.entries[self.obj.index] {
            Entry::Cell(state) => state.exit_write(&execution.threads),
            _ => Ok(()),
        };
        proof {
            lemma_entry_update(old_e, *execution, self.obj.idx());
            assert(execution.objects.entries@ =~= old_e.objects.entries@.update(self.obj.idx(), execution.objects.entries@[self.obj.idx()]));
        }
        r
    }
}

/// The active thread's clock as it is once it advances.
fn ticked_clock(threads: &ThreadSet) -> (r: VersionVec)
    requires
        threads.wf(),
        threads.active is Some,
        active_causality(*threads)[threads.active_index()] < usize::MAX,
    ensures
        r@ == tick_clock(*threads),
{
    proof {
        lemma_active_wf(*threads);
    }
    let a = threads.active.unwrap();
    let mut t = threads.threads[a].causality.clone();
    t.inc(threads.threads[a].id);
    t
}

} // verus!
