use loom::rt::atomic::Atomic;
use loom::rt::execution::Execution;
use loom::rt::mutex::Mutex;
use loom::rt::trace::Trace;
use loom::sync::Condvar;
use loom::thread::{Builder, ScopeThreads, ThreadId};
use std::sync::atomic::Ordering;

#[test]
fn builder_configures_name_and_stack_size() {
    let b = Builder::new();
    assert!(b.name.is_none());
    assert!(b.stack_size.is_none());
    let b = b.name(String::from("worker")).stack_size(1 << 16);
    assert_eq!(b.name.as_deref(), Some("worker"));
    assert_eq!(b.stack_size, Some(1 << 16));
}

#[test]
fn thread_ids_compare_by_thread() {
    let e = Execution::new(1, 100, None, 7);
    let a = ThreadId::new(loom::rt::thread::Id::current(&e));
    let b = ThreadId::new(loom::rt::thread::Id::new(e.id, 0));
    assert_eq!(a, b);
    assert_ne!(a, ThreadId::new(loom::rt::thread::Id::new(e.id, 1)));
}

#[test]
fn spin_loop_yields() {
    let mut e = Execution::new(1, 100, None, 0);
    let trace = Trace::opaque("spin");
    assert_eq!(loom::hint::spin_loop(&mut e, &trace), Ok(false));
    assert_eq!(e.threads.get(0).yield_count, 1);
    assert_eq!(loom::sync::atomic::spin_loop_hint(&mut e, &trace), Ok(false));
    assert_eq!(e.threads.get(0).yield_count, 2);
}

#[test]
fn spin_loop_lets_another_thread_run() {
    let mut e = Execution::new(2, 100, None, 0);
    let trace = Trace::opaque("spin");
    e.new_thread().unwrap();
    assert_eq!(loom::hint::spin_loop(&mut e, &trace), Ok(true));
    assert_eq!(e.threads.active, Some(1));
}

#[test]
fn acquire_fence_after_relaxed_load() {
    let mut e = Execution::new(2, 100, None, 0);
    let trace = Trace::opaque("load");
    let x = Atomic::new(&mut e, 0);
    e.new_thread().unwrap();
    x.store(&mut e, 1, Ordering::Release).unwrap();
    let stored = e.threads.get(0).causality.clone();
    e.threads.set_active(Some(loom::rt::thread::Id::new(e.id, 1)));
    assert_eq!(x.load(&mut e, Ordering::Relaxed, &trace), Ok(1));
    assert!(!stored.le(&e.threads.get(1).causality));
    loom::sync::atomic::fence(&mut e, Ordering::Acquire);
    assert!(stored.le(&e.threads.get(1).causality));
}

#[test]
fn condvar_wait_then_notify() {
    let mut e = Execution::new(2, 100, None, 0);
    let m = Mutex::new(&mut e, false);
    let cv = Condvar::new(&mut e);
    e.new_thread().unwrap();
    // The main thread waits, holding the lock.
    assert!(m.post_acquire(&mut e));
    cv.wait(&mut e, &m);
    assert!(!m.is_locked(&e));
    e.threads.get_mut(0).set_blocked();
    // The other thread notifies it.
    e.threads.set_active(Some(loom::rt::thread::Id::new(e.id, 1)));
    cv.notify_one(&mut e);
    assert!(e.threads.get(0).is_runnable());
    // Nobody waits any more.
    e.threads.get_mut(0).set_blocked();
    cv.notify_all(&mut e);
    assert!(e.threads.get(0).is_blocked());
}

#[test]
fn park_then_unpark_by_another_thread() {
    let mut e = Execution::new(2, 100, None, 0);
    let trace = Trace::opaque("park");
    e.new_thread().unwrap();
    // The main thread parks: the other one runs.
    assert_eq!(loom::thread::park(&mut e, &trace), Ok(true));
    assert_eq!(e.threads.active, Some(1));
    assert!(e.threads.get(0).is_blocked());
    loom::rt::thread::Id::new(e.id, 0).unpark(&mut e);
    assert!(e.threads.get(0).is_runnable());
}

#[test]
fn scope_counts_its_running_threads() {
    let mut e = Execution::new(3, 100, None, 0);
    let mut scope = ScopeThreads::new();
    assert!(scope.is_finished());
    let n1 = loom::rt::notify::Notify::new(&mut e, true, false);
    let n2 = loom::rt::notify::Notify::new(&mut e, true, false);
    scope.add_running_thread(n1);
    scope.add_running_thread(n2);
    assert!(!scope.is_finished());
    assert_eq!(scope.notify_on_finished(), &vec![n1, n2]);
    assert!(!scope.remove_running_thread());
    assert!(scope.remove_running_thread());
    assert!(scope.is_finished());
    assert_eq!(scope.notify_on_finished().len(), 2);
}
