//! Leak tracking of allocations.
use vstd::prelude::*;

use crate::rt::execution::{lemma_entry_insert, lemma_entry_update, Execution};
use crate::rt::mutex::entry_changed;
use crate::rt::object::{leaked, Entry, Object};
use std::collections::HashMap;

verus! {

/// Whether a tracked allocation was released.
#[derive(Debug)]
pub struct State {
    pub is_dropped: bool,
}

impl State {
    /// `true` when the allocation was released; a live one at the end of an
    /// execution is a leak.
    pub fn check_for_leaks(&self) -> (r: bool)
        ensures
            r == self.is_dropped,
    {
        self.is_dropped
    }
}

/// A tracked allocation: a handle to its leak state in the execution.
#[derive(Debug, Clone, Copy, PartialEq, Eq, Structural)]
pub struct Allocation {
    pub obj: Object,
}

/// The object is an allocation of the execution.
pub open spec fn is_allocation(e: Execution, obj: Object) -> bool {
    &&& obj.execution_id == e.objects.execution_id
    &&& obj.index < e.objects.entries@.len()
    &&& e.objects.entries@[obj.index as int] is Alloc
}

impl Allocation {
    /// Tracks a new allocation; it leaks unless dropped before the end of
    /// the execution.
    pub fn new(execution: &mut Execution) -> (r: Allocation)
        requires
            old(execution).wf(),
        ensures
            final(execution).wf(),
            final(execution).same_config(old(execution)),
            final(execution).path == old(execution).path,
            final(execution).threads == old(execution).threads,
            final(execution).objects.causal_cells == old(execution).objects.causal_cells,
            final(execution).objects.execution_id == old(execution).objects.execution_id,
            final(execution).objects.entries@ == old(execution).objects.entries@.push(Entry::Alloc(State { is_dropped: false })),
            r.obj.index == old(execution).objects.entries@.len(),
            r.obj.execution_id == old(execution).id,
            is_allocation(*final(execution), r.obj),
    {
        let ghost old_e = *execution;
        let obj = execution.objects.insert(Entry::Alloc(State { is_dropped: false }));
        proof {
            lemma_entry_insert(old_e, *execution);
        }
        Allocation { obj }
    }

    /// The allocation is released.
    pub fn drop(self, execution: &mut Execution)
        requires
            old(execution).running(),
            is_allocation(*old(execution), self.obj),
        ensures
            final(execution).running(),
            final(execution).threads == old(execution).threads,
            entry_changed(*old(execution), *final(execution), self.obj, Entry::Alloc(State { is_dropped: true })),
    {
        let ghost old_e = *execution;
        match &mut execution.objects.entries[self.obj.index] {
            Entry::Alloc(state) => {
                state.is_dropped = true;
            },
            _ => {},
        }
        proof {
            lemma_entry_update(old_e, *execution, self.obj.index as int);
            assert(execution.objects.entries@ =~= old_e.objects.entries@.update(self.obj.index as int, Entry::Alloc(State { is_dropped: true })));
        }
    }
}

impl Allocation {
    /// Whether the allocation is an allocation object of `execution`.
    pub fn is_tracked_in(&self, execution: &Execution) -> (r: bool)
        ensures
            r == is_allocation(*execution, self.obj),
    {
        self.obj.execution_id == execution.objects.execution_id && self.obj.index < execution.objects.entries.len()
            && matches!(execution.objects.entries[self.obj.index], Entry::Alloc(_))
    }
}

/// Why a raw allocation could not be tracked or released.
#[derive(Debug, Clone, Copy, PartialEq, Eq, Structural)]
pub enum RawAllocError {
    /// The address is tracked already.
    AlreadyTracked,
    /// The address is not tracked in the execution.
    NotTracked,
}

/// The allocations of an execution made through the raw allocation
/// functions, by address.
#[derive(Debug)]
pub struct RawAllocations {
    map: HashMap<usize, Allocation>,
}

impl View for RawAllocations {
    type V = Map<usize, Allocation>;

    closed spec fn view(&self) -> Map<usize, Allocation> {
        self.map@
    }
}

impl RawAllocations {
    /// No raw allocation tracked.
    pub fn new() -> (r: RawAllocations)
        ensures
            r@ == Map::<usize, Allocation>::empty(),
    {
        RawAllocations { map: HashMap::new() }
    }

    /// Whether the allocation at `address` is tracked.
    pub fn contains(&self, address: usize) -> (r: bool)
        ensures
            r == self@.contains_key(address),
    {
        broadcast use vstd::std_specs::hash::group_hash_axioms;

        self.map.contains_key(&address)
    }

    /// Tracks the raw allocation at `address` with a new allocation object.
    /// An address tracked already is refused, and nothing changes.
    pub fn track(&mut self, execution: &mut Execution, address: usize) -> (r: Result<(), RawAllocError>)
        requires
            old(execution).wf(),
        ensures
            r is Err <==> old(self)@.contains_key(address),
            r is Err ==> r == Err::<(), RawAllocError>(RawAllocError::AlreadyTracked) && final(self)@ == old(self)@
                && *final(execution) == *old(execution),
            r is Ok ==> {
                let obj = Object { index: old(execution).objects.entries@.len() as usize, execution_id: old(execution).id };
                &&& final(self)@ == old(self)@.insert(address, Allocation { obj })
                &&& final(execution).wf()
                &&& final(execution).same_config(old(execution))
                &&& final(execution).path == old(execution).path
                &&& final(execution).threads == old(execution).threads
                &&& final(execution).objects.causal_cells == old(execution).objects.causal_cells
                &&& final(execution).objects.execution_id == old(execution).objects.execution_id
                &&& final(execution).objects.entries@ == old(execution).objects.entries@.push(
                    Entry::Alloc(State { is_dropped: false }),
                )
                &&& is_allocation(*final(execution), obj)
            },
    {
        broadcast use vstd::std_specs::hash::group_hash_axioms;

        if self.map.contains_key(&address) {
            return Err(RawAllocError::AlreadyTracked);
        }
        let allocation = Allocation::new(execution);
        self.map.insert(address, allocation);
        Ok(())
    }

    /// Releases the raw allocation at `address`. An address that is not
    /// tracked as an allocation of the execution is refused; it is no longer
    /// tracked either way.
    pub fn release(&mut self, execution: &mut Execution, address: usize) -> (r: Result<(), RawAllocError>)
        requires
            old(execution).running(),
        ensures
            final(self)@ == old(self)@.remove(address),
            r is Ok <==> old(self)@.contains_key(address) && is_allocation(*old(execution), old(self)@[address].obj),
            r is Err ==> r == Err::<(), RawAllocError>(RawAllocError::NotTracked) && *final(execution) == *old(execution),
            r is Ok ==> {
                &&& final(execution).running()
                &&& final(execution).threads == old(execution).threads
                &&& entry_changed(
                    *old(execution),
                    *final(execution),
                    old(self)@[address].obj,
                    Entry::Alloc(State { is_dropped: true }),
                )
            },
    {
        broadcast use vstd::std_specs::hash::group_hash_axioms;

        match self.map.remove(&address) {
            Some(allocation) => {
                if allocation.is_tracked_in(execution) {
                    allocation.drop(execution);
                    Ok(())
                } else {
                    Err(RawAllocError::NotTracked)
                }
            },
            None => Err(RawAllocError::NotTracked),
        }
    }
}

/// Leak detection: from the moment it is tracked (by `Allocation::new` or
/// `RawAllocations::track`) an allocation is a leak, so that the
/// execution's leak check fails, and once it is released it no longer is.
pub proof fn lemma_allocation_leaks_until_released(e0: Execution, e1: Execution, e2: Execution, e3: Execution, obj: Object)
    requires
        e1.objects.entries@ == e0.objects.entries@.push(Entry::Alloc(State { is_dropped: false })),
        obj.index == e0.objects.entries@.len(),
        obj.index < e2.objects.entries@.len(),
        entry_changed(e2, e3, obj, Entry::Alloc(State { is_dropped: true })),
    ensures
        leaked(e1.objects.entries@[obj.index as int]),
        !(forall|i: int| 0 <= i < e1.objects.entries@.len() ==> !leaked(#[trigger] e1.objects.entries@[i])),
        !leaked(e3.objects.entries@[obj.index as int]),
{
    assert(leaked(e1.objects.entries@[obj.index as int]));
}

} // verus!
