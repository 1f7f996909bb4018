use loom::rt::execution::Execution;
use loom::sync::mpsc::Channel;

#[test]
fn messages_arrive_in_the_order_sent() {
    let mut e = Execution::new(1, 100, None, 0);
    let mut c: Channel<&str> = Channel::new(&mut e);
    assert!(c.is_empty());
    c.send(&mut e, "a");
    c.send(&mut e, "b");
    assert!(!c.is_empty());
    assert_eq!(c.recv(&mut e), Some("a"));
    c.send(&mut e, "c");
    assert_eq!(c.recv(&mut e), Some("b"));
    assert_eq!(c.recv(&mut e), Some("c"));
    assert_eq!(c.recv(&mut e), None);
    assert!(c.is_empty());
}

#[test]
fn receive_takes_the_senders_causality() {
    let mut e = Execution::new(2, 100, None, 0);
    let mut c: Channel<u32> = Channel::new(&mut e);
    e.new_thread().unwrap();
    e.threads.active_causality_inc();
    c.send(&mut e, 1);
    let sender = e.threads.get(0).causality.clone();
    e.threads.set_active(Some(loom::rt::thread::Id::new(e.id, 1)));
    assert_eq!(c.recv(&mut e), Some(1));
    assert!(sender.le(&e.threads.get(1).causality));
}
