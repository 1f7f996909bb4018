//! Leak tracking of values: the memory allocation API.
use vstd::prelude::*;

use crate::rt::allocation::{is_allocation, Allocation, State};
use crate::rt::execution::Execution;
use crate::rt::mutex::entry_changed;
use crate::rt::object::{Entry, Object};

verus! {

/// Track allocations, detecting leaks: a value together with an allocation
/// object of the execution, which leaks unless the value is given back with
/// `into_inner` before the execution ends.
#[derive(Debug)]
pub struct Track<T> {
    value: T,
    obj: Allocation,
}

impl<T> Track<T> {
    /// The tracked value.
    pub closed spec fn value(&self) -> T {
        self.value
    }

    /// The allocation object standing for the value.
    pub closed spec fn obj(&self) -> Object {
        self.obj.obj
    }

    /// Track a value for leaks
    pub fn new(execution: &mut Execution, value: T) -> (r: Track<T>)
        requires
            old(execution).wf(),
        ensures
            final(execution).wf(),
            final(execution).same_config(old(execution)),
            final(execution).path == old(execution).path,
            final(execution).threads == old(execution).threads,
            final(execution).objects.causal_cells == old(execution).objects.causal_cells,
            final(execution).objects.execution_id == old(execution).objects.execution_id,
            final(execution).objects.entries@ == old(execution).objects.entries@.push(Entry::Alloc(State { is_dropped: false })),
            r.obj().index == old(execution).objects.entries@.len(),
            is_allocation(*final(execution), r.obj()),
            r.value() == value,
    {
        Track { value, obj: Allocation::new(execution) }
    }

    /// Get a reference to the value
    pub fn get_ref(&self) -> (r: &T)
        ensures
            *r == self.value(),
    {
        &self.value
    }

    /// Get a mutable reference to the value
    pub fn get_mut(&mut self) -> (r: &mut T)
        ensures
            *r == old(self).value(),
            final(self).value() == *final(r),
            final(self).obj() == old(self).obj(),
    {
        &mut self.value
    }

    /// Stop tracking the value for leaks: the allocation is released and
    /// the value handed back.
    pub fn into_inner(self, execution: &mut Execution) -> (r: T)
        requires
            old(execution).running(),
            is_allocation(*old(execution), self.obj()),
        ensures
            r == self.value(),
            final(execution).running(),
            final(execution).threads == old(execution).threads,
            entry_changed(*old(execution), *final(execution), self.obj(), Entry::Alloc(State { is_dropped: true })),
    {
        self.obj.drop(execution);
        self.value
    }
}

} // verus!
