use loom::rt::arc::Arc;
use loom::rt::atomic::Atomic;
use loom::rt::execution::Execution;
use loom::rt::mpsc::Channel;
use loom::rt::mutex::Mutex;
use loom::rt::notify::Notify;
use loom::rt::rwlock::RwLock;
use loom::rt::trace::Trace;
use loom::rt::vv::VersionVec;
use std::sync::atomic::Ordering;

/// An execution with a second thread, the first one active.
fn two_threads() -> Execution {
    let mut e = Execution::new(2, 1000, None, 0);
    let t1 = e.new_thread().unwrap();
    assert_eq!(t1.id, 1);
    e
}

fn switch_to(e: &mut Execution, i: usize) {
    let id = loom::rt::thread::Id::new(e.id, i);
    e.threads.set_active(Some(id));
}

fn causality(e: &Execution, i: usize) -> VersionVec {
    e.threads.get(i).causality.clone()
}

#[test]
fn mutex_release_then_acquire() {
    let mut e = two_threads();
    let m = Mutex::new(&mut e, false);
    assert!(!m.is_locked(&e));
    assert!(m.post_acquire(&mut e));
    assert!(m.is_locked(&e));
    e.threads.active_causality_inc();
    e.threads.active_causality_inc();
    m.release_lock(&mut e);
    assert!(!m.is_locked(&e));
    let released = causality(&e, 0);
    switch_to(&mut e, 1);
    assert!(!released.le(&causality(&e, 1)));
    assert!(m.post_acquire(&mut e));
    assert!(released.le(&causality(&e, 1)));
}

#[test]
fn mutex_held_refuses_second_holder() {
    let mut e = two_threads();
    let m = Mutex::new(&mut e, false);
    assert!(m.post_acquire(&mut e));
    switch_to(&mut e, 1);
    let before = causality(&e, 1);
    assert!(!m.post_acquire(&mut e));
    assert!(m.is_locked(&e));
    assert_eq!(before.partial_cmp(&causality(&e, 1)), Some(std::cmp::Ordering::Equal));
}

#[test]
fn rwlock_release_then_acquire() {
    let mut e = two_threads();
    let l = RwLock::new(&mut e);
    assert!(l.post_acquire_write_lock(&mut e));
    assert!(l.is_write_locked(&e));
    e.threads.active_causality_inc();
    l.release_write_lock(&mut e);
    assert!(!l.is_write_locked(&e));
    let released = causality(&e, 0);
    switch_to(&mut e, 1);
    assert!(l.post_acquire_read_lock(&mut e));
    assert!(l.is_read_locked(&e));
    assert!(released.le(&causality(&e, 1)));
    // A writer cannot take a lock held by a reader.
    switch_to(&mut e, 0);
    assert!(!l.post_acquire_write_lock(&mut e));
    l.release_read_lock(&mut e);
    assert!(!l.is_read_locked(&e));
}

#[test]
fn rwlock_writer_excludes_readers() {
    let mut e = two_threads();
    let l = RwLock::new(&mut e);
    assert!(l.post_acquire_write_lock(&mut e));
    switch_to(&mut e, 1);
    assert!(!l.post_acquire_read_lock(&mut e));
    assert!(l.is_write_locked(&e));
    assert!(!l.is_read_locked(&e));
}

#[test]
fn rwlock_writer_excludes_writers() {
    let mut e = two_threads();
    let l = RwLock::new(&mut e);
    assert!(l.post_acquire_write_lock(&mut e));
    switch_to(&mut e, 1);
    let before = causality(&e, 1);
    assert!(!l.post_acquire_write_lock(&mut e));
    assert!(l.is_write_locked(&e));
    assert_eq!(before.partial_cmp(&causality(&e, 1)), Some(std::cmp::Ordering::Equal));
    switch_to(&mut e, 0);
    l.release_write_lock(&mut e);
    switch_to(&mut e, 1);
    assert!(l.post_acquire_write_lock(&mut e));
}

#[test]
fn rwlock_readers_share_the_lock() {
    let mut e = two_threads();
    let l = RwLock::new(&mut e);
    assert!(l.post_acquire_read_lock(&mut e));
    switch_to(&mut e, 1);
    assert!(l.post_acquire_read_lock(&mut e));
    assert!(l.is_read_locked(&e));
    assert!(!l.post_acquire_write_lock(&mut e));
}

#[test]
fn channel_send_then_recv() {
    let mut e = two_threads();
    let c = Channel::new(&mut e);
    assert!(c.is_empty(&e));
    e.threads.active_causality_inc();
    c.send(&mut e);
    assert_eq!(c.msg_count(&e), 1);
    let sent = causality(&e, 0);
    switch_to(&mut e, 1);
    assert!(c.recv(&mut e));
    assert_eq!(c.msg_count(&e), 0);
    assert!(sent.le(&causality(&e, 1)));
    // An empty channel gives nothing.
    assert!(!c.recv(&mut e));
}

#[test]
fn notify_then_wait() {
    let mut e = two_threads();
    let n = Notify::new(&mut e, false, false);
    e.threads.active_causality_inc();
    n.notify(&mut e);
    let notified = causality(&e, 0);
    switch_to(&mut e, 1);
    assert!(n.post_wait(&mut e));
    assert!(notified.le(&causality(&e, 1)));
    // The notification was consumed.
    assert!(!n.post_wait(&mut e));
}

#[test]
fn arc_last_drop_sees_every_drop() {
    let mut e = two_threads();
    let a = Arc::new(&mut e);
    a.ref_inc(&mut e);
    assert_eq!(a.ref_count(&e), 2);
    e.threads.active_causality_inc();
    assert!(!a.ref_dec(&mut e));
    let dropped = causality(&e, 0);
    switch_to(&mut e, 1);
    assert!(a.ref_dec(&mut e));
    assert_eq!(a.ref_count(&e), 0);
    assert!(dropped.le(&causality(&e, 1)));
}

#[test]
fn arc_inc_then_dec_restores_count() {
    let mut e = two_threads();
    let a = Arc::new(&mut e);
    assert_eq!(a.ref_count(&e), 1);
    a.ref_inc(&mut e);
    assert!(!a.ref_dec(&mut e));
    assert_eq!(a.ref_count(&e), 1);
    assert!(a.get_mut(&mut e));
}

#[test]
fn atomic_release_store_acquire_load() {
    let mut e = Execution::new(2, 1000, None, 0);
    let trace = Trace::opaque("load");
    let x = Atomic::new(&mut e, 0);
    e.new_thread().unwrap();
    x.store(&mut e, 42, Ordering::Release).unwrap();
    let stored = causality(&e, 0);
    switch_to(&mut e, 1);
    let v = x.load(&mut e, Ordering::Acquire, &trace).unwrap();
    assert_eq!(v, 42);
    assert!(stored.le(&causality(&e, 1)));
}

#[test]
fn atomic_relaxed_load_acquires_nothing() {
    let mut e = Execution::new(2, 1000, None, 0);
    let trace = Trace::opaque("load");
    let x = Atomic::new(&mut e, 0);
    e.new_thread().unwrap();
    x.store(&mut e, 7, Ordering::Release).unwrap();
    let stored = causality(&e, 0);
    switch_to(&mut e, 1);
    let v = x.load(&mut e, Ordering::Relaxed, &trace).unwrap();
    assert_eq!(v, 7);
    assert!(!stored.le(&causality(&e, 1)));
}
