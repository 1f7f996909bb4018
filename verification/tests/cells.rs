use loom::cell::{CausalCell, UnsafeCell};
use loom::rt::atomic::Atomic;
use loom::rt::cell::Cell;
use loom::rt::execution::Execution;
use loom::rt::trace::Trace;
use loom::rt::Failure;
use std::sync::atomic::Ordering;

fn switch_to(e: &mut Execution, i: usize) {
    let id = loom::rt::thread::Id::new(e.id, i);
    e.threads.set_active(Some(id));
}

#[test]
fn causal_cell_write_then_read() {
    let mut e = Execution::new(1, 100, None, 0);
    let mut c = CausalCell::new(&mut e, 1u32);
    assert!(c.can_write(&e));
    assert_eq!(c.with_mut(&mut e, |v| (*v + 1, *v)), 1);
    assert!(c.can_read(&e));
    assert_eq!(c.with(&mut e, |v| *v), 2);
    assert_eq!(c.with_unchecked(|v| *v), 2);
    assert_eq!(c.with_mut_unchecked(|v| (*v * 10, ())), ());
    assert_eq!(c.with(&mut e, |v| *v), 20);
}

#[test]
fn causal_cell_concurrent_writes_violate_causality() {
    let mut e = Execution::new(2, 100, None, 0);
    let mut c = CausalCell::new(&mut e, 0u8);
    e.new_thread().unwrap();
    assert_eq!(c.with_mut(&mut e, |_| (1, ())), ());
    switch_to(&mut e, 1);
    assert!(!c.can_write(&e));
    assert!(!c.can_read(&e));
    assert_eq!(c.with_unchecked(|v| *v), 1);
}

#[test]
fn causal_cell_concurrent_reads_are_fine() {
    let mut e = Execution::new(2, 100, None, 0);
    let c = CausalCell::new(&mut e, 7u8);
    e.new_thread().unwrap();
    assert_eq!(c.with(&mut e, |v| *v), 7);
    switch_to(&mut e, 1);
    assert!(c.can_read(&e));
    assert_eq!(c.with(&mut e, |v| *v), 7);
    c.check(&mut e);
    assert!(!c.can_write(&e));
}

#[test]
fn causal_cell_deferred_check() {
    let mut e = Execution::new(2, 100, None, 0);
    let mut c = CausalCell::new(&mut e, 0u8);
    e.new_thread().unwrap();
    assert_eq!(c.with_mut(&mut e, |_| (3, ())), ());
    switch_to(&mut e, 1);
    let (v, check) = c.with_deferred(&mut e, |v| *v);
    assert_eq!(v, 3);
    assert_eq!(check.check(&mut e), Err(Failure::CausalityViolation));
}

#[test]
fn unsafe_cell_write_then_read() {
    let mut e = Execution::new(1, 100, None, 0);
    let mut c = UnsafeCell::new(&mut e, 5i32);
    assert!(c.can_write(&e));
    assert_eq!(c.with_mut(&mut e, |v| (*v - 7, *v)), 5);
    assert!(c.can_read(&e));
    assert_eq!(c.with(&mut e, |v| *v), -2);
}

#[test]
fn unsafe_cell_written_by_another_thread_cannot_be_read() {
    let mut e = Execution::new(2, 100, None, 0);
    let mut c = UnsafeCell::new(&mut e, 1u8);
    e.new_thread().unwrap();
    assert_eq!(c.with_mut(&mut e, |v| (*v + 1, ())), ());
    switch_to(&mut e, 1);
    assert!(!c.can_read(&e));
    assert!(!c.can_write(&e));
}

#[test]
fn cell_entered_for_writing_is_busy() {
    let mut e = Execution::new(1, 100, None, 0);
    let c = Cell::new(&mut e);
    assert_eq!(c.enter_write(&mut e), Ok(()));
    assert_eq!(c.enter_read(&mut e), Err(Failure::CellBusy));
    assert_eq!(c.exit_write(&mut e), Ok(()));
    assert_eq!(c.enter_read(&mut e), Ok(()));
    assert_eq!(c.enter_write(&mut e), Err(Failure::CellBusy));
    assert_eq!(c.exit_read(&mut e), Ok(()));
    assert_eq!(c.enter_write(&mut e), Ok(()));
}

#[test]
fn atomic_mutably_borrowed_refuses_loads() {
    let mut e = Execution::new(1, 100, None, 0);
    let trace = Trace::opaque("load");
    let x = Atomic::new(&mut e, 4);
    assert_eq!(x.enter_mut(&mut e), Ok(4));
    assert_eq!(x.load(&mut e, Ordering::Acquire, &trace), Err(Failure::AtomicMutating));
    assert_eq!(x.exit_mut(&mut e, 6), Ok(()));
    assert_eq!(x.load(&mut e, Ordering::Acquire, &trace), Ok(6));
    assert_eq!(x.unsync_load(&mut e), Ok(6));
}

#[test]
fn atomic_store_counter_overflows() {
    let mut e = Execution::new(1, 100, None, 0);
    let x = Atomic::new(&mut e, 0);
    let mut result = Ok(());
    for i in 0..70000u64 {
        result = x.store(&mut e, i, Ordering::Relaxed);
        if result.is_err() {
            break;
        }
    }
    assert_eq!(result, Err(Failure::StoreOverflow));
}

#[test]
fn atomic_unsynchronized_load_races_with_store() {
    let mut e = Execution::new(2, 100, None, 0);
    let x = Atomic::new(&mut e, 0);
    e.new_thread().unwrap();
    x.store(&mut e, 1, Ordering::Relaxed).unwrap();
    switch_to(&mut e, 1);
    assert_eq!(x.unsync_load(&mut e), Err(Failure::CausalityViolation));
}
