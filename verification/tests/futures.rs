use loom::future::AtomicWaker;
use loom::futures::{AtomicTask, AtomicWaker as TaskWaker};
use loom::rt::execution::Execution;
use loom::rt::trace::Trace;

fn switch_to(e: &mut Execution, i: usize) {
    let id = loom::rt::thread::Id::new(e.id, i);
    e.threads.set_active(Some(id));
}

#[test]
fn waker_registered_then_woken() {
    let mut e = Execution::new(2, 100, None, 0);
    let mut w: AtomicWaker<&str> = AtomicWaker::new(&mut e);
    e.new_thread().unwrap();
    assert_eq!(w.register(&mut e, "task a"), None);
    switch_to(&mut e, 1);
    assert_eq!(w.wake(&mut e), Some("task a"));
    // Woken once only.
    assert_eq!(w.wake(&mut e), None);
}

#[test]
fn waker_register_replaces_previous() {
    let mut e = Execution::new(1, 100, None, 0);
    let mut w: AtomicWaker<u32> = AtomicWaker::new(&mut e);
    assert_eq!(w.register(&mut e, 1), None);
    assert_eq!(w.register_by_ref(&mut e, &2), None);
    assert_eq!(w.wake(&mut e), Some(2));
}

#[test]
fn waker_branch_points_schedule() {
    let mut e = Execution::new(1, 100, None, 0);
    let trace = Trace::opaque("waker");
    let mut w: AtomicWaker<u32> = AtomicWaker::new(&mut e);
    assert_eq!(w.register_branch(&mut e, &trace), Ok(false));
    assert_eq!(w.register(&mut e, 9), None);
    assert_eq!(w.wake_branch(&mut e, &trace), Ok(false));
    assert_eq!(w.wake(&mut e), Some(9));
}

#[test]
fn task_notification_hands_causality_to_next_registration() {
    let mut e = Execution::new(2, 100, None, 0);
    let mut t: AtomicTask<u8> = AtomicTask::new(&mut e);
    e.new_thread().unwrap();
    t.register_task(&mut e, 1);
    e.threads.active_causality_inc();
    assert_eq!(t.notify(&mut e), Some(1));
    let notifier = e.threads.get(0).causality.clone();
    switch_to(&mut e, 1);
    assert!(!notifier.le(&e.threads.get(1).causality));
    t.register(&mut e, 2);
    assert!(notifier.le(&e.threads.get(1).causality));
    assert_eq!(t.notify(&mut e), Some(2));
    assert_eq!(t.notify(&mut e), None);
}

#[test]
fn task_waker_wake_takes_waker() {
    let mut e = Execution::new(1, 100, None, 0);
    let trace = Trace::opaque("task");
    let mut w: TaskWaker<String> = TaskWaker::new(&mut e);
    assert_eq!(w.register_branch(&mut e, &trace), Ok(false));
    w.register_by_ref(&mut e, &String::from("w"));
    assert_eq!(w.wake_branch(&mut e, &trace), Ok(false));
    assert_eq!(w.wake(&mut e), Some(String::from("w")));
    assert_eq!(w.wake(&mut e), None);
}

#[test]
fn future_notify_marks_thread() {
    let mut e = Execution::new(2, 100, None, 0);
    let trace = Trace::opaque("notify");
    let t1 = e.new_thread().unwrap();
    e.threads.get_mut(1).set_blocked();
    e.threads.get_mut(1).pending = true;
    assert_eq!(t1.future_notify(&mut e, &trace), Ok(false));
    assert!(e.threads.get(1).notified);
    assert!(e.threads.get(1).is_runnable());
    // Notifying the active thread when no other thread can run does not yield.
    e.threads.get_mut(1).set_blocked();
    let me = loom::rt::thread::Id::current(&e);
    assert_eq!(me.id, 0);
    assert_eq!(me.future_notify(&mut e, &trace), Ok(false));
    assert!(e.threads.get(0).notified);
}
