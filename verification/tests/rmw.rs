use loom::rt::atomic::Atomic;
use loom::rt::execution::Execution;
use loom::rt::Failure;
use loom::sync::atomic::{compare_and_swap, compare_exchange, failure_ordering, fetch, fetch_value, swap, Fetch};
use std::sync::atomic::Ordering;

fn cell(v: u64) -> (Execution, Atomic) {
    let mut e = Execution::new(1, 100, None, 0);
    let x = Atomic::new(&mut e, v);
    (e, x)
}

#[test]
fn swap_returns_previous_value() {
    let (mut e, x) = cell(3);
    assert_eq!(swap(&x, &mut e, 8, Ordering::SeqCst), Ok(3));
    assert_eq!(swap(&x, &mut e, 1, Ordering::SeqCst), Ok(8));
    assert_eq!(x.unsync_load(&mut e), Ok(1));
}

#[test]
fn compare_exchange_succeeds_on_expected_value() {
    let (mut e, x) = cell(5);
    assert_eq!(compare_exchange(&x, &mut e, 5, 6, Ordering::AcqRel, Ordering::Acquire), Ok(Ok(5)));
    assert_eq!(x.unsync_load(&mut e), Ok(6));
}

#[test]
fn compare_exchange_fails_on_other_value() {
    let (mut e, x) = cell(5);
    assert_eq!(compare_exchange(&x, &mut e, 4, 6, Ordering::AcqRel, Ordering::Acquire), Ok(Err(5)));
    assert_eq!(x.unsync_load(&mut e), Ok(5));
}

#[test]
fn compare_and_swap_returns_previous_value() {
    let (mut e, x) = cell(0);
    assert_eq!(compare_and_swap(&x, &mut e, 0, 1, Ordering::SeqCst), Ok(0));
    assert_eq!(compare_and_swap(&x, &mut e, 0, 2, Ordering::SeqCst), Ok(1));
    assert_eq!(x.unsync_load(&mut e), Ok(1));
}

#[test]
fn failure_orderings() {
    assert_eq!(failure_ordering(Ordering::Relaxed), Ordering::Relaxed);
    assert_eq!(failure_ordering(Ordering::Release), Ordering::Relaxed);
    assert_eq!(failure_ordering(Ordering::Acquire), Ordering::Acquire);
    assert_eq!(failure_ordering(Ordering::AcqRel), Ordering::Acquire);
    assert_eq!(failure_ordering(Ordering::SeqCst), Ordering::SeqCst);
}

#[test]
fn fetch_values() {
    assert_eq!(fetch_value(Fetch::Add, u64::MAX, 2, 64), 1);
    assert_eq!(fetch_value(Fetch::Sub, 1, 2, 64), u64::MAX);
    assert_eq!(fetch_value(Fetch::And, 0b1100, 0b1010, 64), 0b1000);
    assert_eq!(fetch_value(Fetch::Or, 0b1100, 0b1010, 64), 0b1110);
    assert_eq!(fetch_value(Fetch::Xor, 0b1100, 0b1010, 64), 0b0110);
    assert_eq!(fetch_value(Fetch::Nand, 0b1100, 0b1010, 64), !0b1000u64);
}

#[test]
fn fetch_values_wrap_at_the_width() {
    assert_eq!(fetch_value(Fetch::Add, 255, 1, 8), 0);
    assert_eq!(fetch_value(Fetch::Add, 250, 10, 8), 4);
    assert_eq!(fetch_value(Fetch::Sub, 0, 1, 32), u32::MAX as u64);
    assert_eq!(fetch_value(Fetch::Sub, 0, 1, 16), 0xffff);
    assert_eq!(fetch_value(Fetch::Nand, 0b1100, 0b1010, 8), 0b1111_0111);
    assert_eq!(fetch_value(Fetch::Nand, 1, 1, 1), 0);
    assert_eq!(fetch_value(Fetch::Nand, 1, 0, 1), 1);
    assert_eq!(fetch_value(Fetch::Xor, 1, 1, 1), 0);
}

#[test]
fn fetch_add_returns_previous_value() {
    let (mut e, x) = cell(10);
    assert_eq!(fetch(&x, &mut e, Fetch::Add, 5, 64, Ordering::Relaxed), Ok(10));
    assert_eq!(fetch(&x, &mut e, Fetch::Sub, 20, 64, Ordering::Relaxed), Ok(15));
    assert_eq!(x.unsync_load(&mut e), Ok(15u64.wrapping_sub(20)));
}

#[test]
fn fetch_sub_on_a_narrow_cell_wraps_at_its_width() {
    let (mut e, x) = cell(3);
    assert_eq!(fetch(&x, &mut e, Fetch::Sub, 5, 8, Ordering::Relaxed), Ok(3));
    assert_eq!(x.unsync_load(&mut e), Ok(254));
}

#[test]
fn rmw_on_mutably_borrowed_cell_fails() {
    let (mut e, x) = cell(1);
    assert_eq!(x.enter_mut(&mut e), Ok(1));
    assert_eq!(swap(&x, &mut e, 2, Ordering::SeqCst), Err(Failure::AtomicMutating));
}
