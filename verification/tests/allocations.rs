use loom::rt::allocation::{RawAllocError, RawAllocations};
use loom::rt::execution::Execution;
use loom::rt::Failure;

#[test]
fn raw_allocation_leaks_until_released() {
    let mut e = Execution::new(1, 100, None, 0);
    let mut raw = RawAllocations::new();
    assert!(!raw.contains(0x1000));
    assert_eq!(raw.track(&mut e, 0x1000), Ok(()));
    assert!(raw.contains(0x1000));
    assert_eq!(e.objects.check_for_leaks(), Err(Failure::Leak));
    assert_eq!(raw.release(&mut e, 0x1000), Ok(()));
    assert!(!raw.contains(0x1000));
    assert_eq!(e.objects.check_for_leaks(), Ok(()));
}

#[test]
fn raw_allocation_tracked_twice_is_refused() {
    let mut e = Execution::new(1, 100, None, 0);
    let mut raw = RawAllocations::new();
    assert_eq!(raw.track(&mut e, 8), Ok(()));
    let objects = e.objects.entries.len();
    assert_eq!(raw.track(&mut e, 8), Err(RawAllocError::AlreadyTracked));
    assert_eq!(e.objects.entries.len(), objects);
    assert_eq!(raw.track(&mut e, 16), Ok(()));
    assert_eq!(e.objects.entries.len(), objects + 1);
}

#[test]
fn releasing_an_untracked_address_is_refused() {
    let mut e = Execution::new(1, 100, None, 0);
    let mut raw = RawAllocations::new();
    assert_eq!(raw.release(&mut e, 8), Err(RawAllocError::NotTracked));
    assert_eq!(raw.track(&mut e, 8), Ok(()));
    assert_eq!(raw.release(&mut e, 8), Ok(()));
    assert_eq!(raw.release(&mut e, 8), Err(RawAllocError::NotTracked));
}

#[test]
fn raw_allocation_of_another_execution_is_not_released() {
    let mut first = Execution::new(1, 100, None, 0);
    let mut raw = RawAllocations::new();
    assert_eq!(raw.track(&mut first, 8), Ok(()));
    let mut second = Execution::new(1, 100, None, 1);
    assert_eq!(raw.release(&mut second, 8), Err(RawAllocError::NotTracked));
    assert!(!raw.contains(8));
}
