//! Mock implementation of the free functions of `std::sync::atomic`.
use vstd::prelude::*;

use crate::rt::atomic::{active_clock, atomic_state, bump_ok, fence_acquired, is_atomic, ticked, Atomic};
use crate::rt::execution::Execution;
use crate::rt::thread::yielded;
use crate::rt::thread::active_causality;
use crate::rt::trace::Trace;
use crate::rt::vv::vv_le;
use crate::rt::Failure;
use std::sync::atomic::Ordering;

verus! {

/// Signals the processor that it is entering a busy-wait spin-loop: the
/// active thread yields, as `thread::yield_now` does. Returns whether to
/// switch threads.
pub fn spin_loop_hint(execution: &mut Execution, trace: &Trace) -> (r: Result<bool, Failure>)
    requires
        old(execution).running(),
        old(execution).threads.active_thread().yield_count < usize::MAX,
    ensures
        yielded(*old(execution), *final(execution), r),
{
    crate::rt::yield_now(execution, trace)
}

/// An atomic fence: the active thread acquires the causality released by
/// every store that it has seen. Only acquire fences are supported.
pub fn fence(execution: &mut Execution, order: Ordering)
    requires
        old(execution).running(),
        order == Ordering::Acquire,
        active_causality(old(execution).threads)[old(execution).threads.active_index()] < usize::MAX,
    ensures
        final(execution).running(),
        final(execution).path == old(execution).path,
        final(execution).objects == old(execution).objects,
        final(execution).same_config(old(execution)),
        ({
            let c1 = ticked(old(execution).threads);
            let c = active_causality(final(execution).threads);
            &&& active_clock(old(execution).threads, final(execution).threads, c, old(execution).threads.seq_cst_causality@)
            &&& vv_le(c1, c)
            &&& fence_acquired(old(execution).objects.entries@, c1, c)
        }),
{
    Atomic::fence(execution, order);
}

/// The ordering of the load of a failed compare-and-swap with `order`: it
/// keeps the acquiring part of `order`, and drops the releasing one.
pub open spec fn failure_ordering_spec(order: Ordering) -> Ordering {
    if order == Ordering::Relaxed || order == Ordering::Release {
        Ordering::Relaxed
    } else if order == Ordering::Acquire || order == Ordering::AcqRel {
        Ordering::Acquire
    } else {
        Ordering::SeqCst
    }
}

/// The ordering of the load of a failed compare-and-swap with `order`.
pub fn failure_ordering(order: Ordering) -> (r: Ordering)
    ensures
        r == failure_ordering_spec(order),
{
    match order {
        Ordering::Relaxed | Ordering::Release => Ordering::Relaxed,
        Ordering::Acquire | Ordering::AcqRel => Ordering::Acquire,
        _ => Ordering::SeqCst,
    }
}

/// A read-modify-write of `obj`, from `old` to `new`, read the newest
/// store, of value `prev`, and stored `next` after it.
pub open spec fn updated(old: Execution, new: Execution, obj: crate::rt::object::Object, prev: u64, next: u64) -> bool {
    let s = atomic_state(old, obj);
    let ns = atomic_state(new, obj);
    &&& prev == s.stores@[s.last_slot()].value
    &&& ns.cnt == s.cnt + 1
    &&& ns.stores@[s.next_slot()].value == next
}

/// A read-modify-write of `obj` from `old` to `new` read the newest store,
/// of value `prev`, and stored nothing.
pub open spec fn read_only(old: Execution, new: Execution, obj: crate::rt::object::Object, prev: u64) -> bool {
    let s = atomic_state(old, obj);
    prev == s.stores@[s.last_slot()].value && atomic_state(new, obj).cnt == s.cnt
}

/// When a read-modify-write of `obj` fails: exactly when the cell is mutably
/// borrowed, it races with an unsynchronized access, or its store counter is
/// exhausted; otherwise it succeeds.
pub open spec fn rmw_failure<T>(old: Execution, obj: crate::rt::object::Object, r: Result<T, Failure>) -> bool {
    let s = atomic_state(old, obj);
    let c1 = ticked(old.threads);
    &&& s.is_mutating ==> r == Err::<T, Failure>(Failure::AtomicMutating)
    &&& !s.is_mutating && !vv_le(s.unsync_mut_at@, c1) ==> r == Err::<T, Failure>(Failure::CausalityViolation)
    &&& !s.is_mutating && vv_le(s.unsync_mut_at@, c1) && vv_le(s.unsync_loaded_at@, c1) && bump_ok(s.cnt) ==> r is Ok
    &&& r == Err::<T, Failure>(Failure::StoreOverflow) ==> !bump_ok(s.cnt)
    &&& r == Err::<T, Failure>(Failure::CausalityViolation) ==> !s.is_mutating && (!vv_le(s.unsync_mut_at@, c1)
        || !vv_le(s.unsync_loaded_at@, c1))
    &&& r is Err ==> r == Err::<T, Failure>(Failure::AtomicMutating) || r == Err::<T, Failure>(
        Failure::CausalityViolation,
    ) || r == Err::<T, Failure>(Failure::StoreOverflow)
}

/// Stores `v`, returning the previous value. The caller branches on the cell
/// with an `Rmw` action first.
pub fn swap(cell: &Atomic, execution: &mut Execution, v: u64, order: Ordering) -> (r: Result<u64, Failure>)
    requires
        old(execution).running(),
        is_atomic(*old(execution), cell.obj),
        active_causality(old(execution).threads)[old(execution).threads.active_index()] < usize::MAX,
    ensures
        final(execution).running(),
        rmw_failure(*old(execution), cell.obj, r),
        r matches Ok(p) ==> updated(*old(execution), *final(execution), cell.obj, p, v),
{
    let f = |x: u64| -> (r: Result<u64, ()>)
        ensures
            r == Ok::<u64, ()>(v),
        { Ok(v) };
    match cell.rmw(execution, order, order, f) {
        Ok(Ok(p)) => Ok(p),
        Ok(Err(())) => Err(Failure::StoreOverflow),
        Err(e) => Err(e),
    }
}

/// Stores `new` if the current value is `current`. Returns the previous
/// value: `Ok` when it was `current` and `new` was stored, `Err` when it was
/// not and nothing was stored. The caller branches on the cell with an
/// `Rmw` action first.
pub fn compare_exchange(
    cell: &Atomic,
    execution: &mut Execution,
    current: u64,
    new: u64,
    success: Ordering,
    failure: Ordering,
) -> (r: Result<Result<u64, u64>, Failure>)
    requires
        old(execution).running(),
        is_atomic(*old(execution), cell.obj),
        active_causality(old(execution).threads)[old(execution).threads.active_index()] < usize::MAX,
    ensures
        final(execution).running(),
        rmw_failure(*old(execution), cell.obj, r),
        r matches Ok(Ok(p)) ==> p == current && updated(*old(execution), *final(execution), cell.obj, p, new),
        r matches Ok(Err(p)) ==> p != current && read_only(*old(execution), *final(execution), cell.obj, p),
{
    let f = |x: u64| -> (r: Result<u64, u64>)
        ensures
            x == current ==> r == Ok::<u64, u64>(new),
            x != current ==> r == Err::<u64, u64>(x),
        {
            if x == current {
                Ok(new)
            } else {
                Err(x)
            }
        };
    cell.rmw(execution, success, failure, f)
}

/// Stores `new` if the current value is `current`; returns the previous
/// value. A failed attempt loads with the acquiring part of `order`. The
/// caller branches on the cell with an `Rmw` action first.
pub fn compare_and_swap(cell: &Atomic, execution: &mut Execution, current: u64, new: u64, order: Ordering) -> (r: Result<
    u64,
    Failure,
>)
    requires
        old(execution).running(),
        is_atomic(*old(execution), cell.obj),
        active_causality(old(execution).threads)[old(execution).threads.active_index()] < usize::MAX,
    ensures
        final(execution).running(),
        rmw_failure(*old(execution), cell.obj, r),
        r matches Ok(p) ==> {
            ||| p == current && updated(*old(execution), *final(execution), cell.obj, p, new)
            ||| p != current && read_only(*old(execution), *final(execution), cell.obj, p)
        },
{
    match compare_exchange(cell, execution, current, new, order, failure_ordering(order)) {
        Ok(Ok(p)) => Ok(p),
        Ok(Err(p)) => Ok(p),
        Err(e) => Err(e),
    }
}

/// The operation of a `fetch_*` read-modify-write.
#[derive(Debug, Clone, Copy, PartialEq, Eq, Structural)]
pub enum Fetch {
    /// Wrapping addition.
    Add,
    /// Wrapping subtraction.
    Sub,
    /// Bitwise and.
    And,
    /// Bitwise or.
    Or,
    /// Bitwise exclusive or.
    Xor,
    /// Bitwise not-and.
    Nand,
}

/// The mask of the low `bits` bits of a value: an atomic integer of `bits`
/// bits keeps its value, and wraps its arithmetic, within them.
pub open spec fn width_mask(bits: u32) -> u64 {
    u64::MAX >> ((64 - bits) as u64)
}

/// The value a `fetch_*` operation on an atomic integer of `bits` bits
/// stores, from the previous value `x` and the operand `v`: the operation on
/// 64 bits, cut to the low `bits` bits.
pub open spec fn fetched(op: Fetch, x: u64, v: u64, bits: u32) -> u64 {
    let full = match op {
        Fetch::Add => vstd::wrapping::u64_specs::wrapping_add(x, v),
        Fetch::Sub => vstd::wrapping::u64_specs::wrapping_sub(x, v),
        Fetch::And => x & v,
        Fetch::Or => x | v,
        Fetch::Xor => x ^ v,
        Fetch::Nand => !(x & v),
    };
    full & width_mask(bits)
}

/// Computes the value a `fetch_*` operation on an atomic integer of `bits`
/// bits stores.
pub fn fetch_value(op: Fetch, x: u64, v: u64, bits: u32) -> (r: u64)
    requires
        1 <= bits <= 64,
    ensures
        r == fetched(op, x, v, bits),
{
    let full = match op {
        Fetch::Add => x.wrapping_add(v),
        Fetch::Sub => x.wrapping_sub(v),
        Fetch::And => x & v,
        Fetch::Or => x | v,
        Fetch::Xor => x ^ v,
        Fetch::Nand => !(x & v),
    };
    let shift: u32 = 64 - bits;
    full & (u64::MAX >> shift)
}

/// Combines the current value with `v` by `op`, as on an atomic integer of
/// `bits` bits, returning the previous value. The caller branches on the
/// cell with an `Rmw` action first.
pub fn fetch(cell: &Atomic, execution: &mut Execution, op: Fetch, v: u64, bits: u32, order: Ordering) -> (r: Result<
    u64,
    Failure,
>)
    requires
        old(execution).running(),
        is_atomic(*old(execution), cell.obj),
        active_causality(old(execution).threads)[old(execution).threads.active_index()] < usize::MAX,
        1 <= bits <= 64,
    ensures
        final(execution).running(),
        rmw_failure(*old(execution), cell.obj, r),
        r matches Ok(p) ==> updated(*old(execution), *final(execution), cell.obj, p, fetched(op, p, v, bits)),
{
    let f = |x: u64| -> (r: Result<u64, ()>)
        requires
            1 <= bits <= 64,
        ensures
            r == Ok::<u64, ()>(fetched(op, x, v, bits)),
        { Ok(fetch_value(op, x, v, bits)) };
    match cell.rmw(execution, order, order, f) {
        Ok(Ok(p)) => Ok(p),
        Ok(Err(())) => Err(Failure::StoreOverflow),
        Err(e) => Err(e),
    }
}

} // verus!
