use loom::rt::execution::Id as ExecutionId;
use loom::rt::thread::Id;
use loom::rt::vv::VersionVec;
use std::cmp::Ordering;

fn tid(i: usize) -> Id {
    Id::new(ExecutionId::new(0), i)
}

#[test]
fn new_clock_is_zero() {
    let v = VersionVec::new(3);
    assert_eq!(v.len(), 3);
    for i in 0..3 {
        assert_eq!(v.get(tid(i)), 0);
    }
}

#[test]
fn inc_advances_one_entry() {
    let mut v = VersionVec::new(3);
    v.inc(tid(1));
    v.inc(tid(1));
    assert_eq!(v.get(tid(0)), 0);
    assert_eq!(v.get(tid(1)), 2);
    assert_eq!(v.get(tid(2)), 0);
}

#[test]
fn join_is_pointwise_maximum() {
    let mut a = VersionVec::new(3);
    a.set_at(tid(0), 4);
    a.set_at(tid(2), 1);
    let mut b = VersionVec::new(3);
    b.set_at(tid(0), 2);
    b.set_at(tid(1), 5);
    a.join(&b);
    assert_eq!(a.get_index(0), 4);
    assert_eq!(a.get_index(1), 5);
    assert_eq!(a.get_index(2), 1);
}

#[test]
fn join_is_least_upper_bound() {
    let mut a = VersionVec::new(2);
    a.set_at(tid(0), 3);
    let mut b = VersionVec::new(2);
    b.set_at(tid(1), 7);
    let mut j = a.clone();
    j.join(&b);
    assert!(a.le(&j));
    assert!(b.le(&j));
    let mut c = VersionVec::new(2);
    c.set_at(tid(0), 3);
    c.set_at(tid(1), 7);
    assert!(j.le(&c));
    assert_eq!(j.partial_cmp(&c), Some(Ordering::Equal));
}

#[test]
fn join_commutes() {
    let mut a = VersionVec::new(2);
    a.set_at(tid(0), 3);
    let mut b = VersionVec::new(2);
    b.set_at(tid(1), 7);
    let mut ab = a.clone();
    ab.join(&b);
    let mut ba = b.clone();
    ba.join(&a);
    assert_eq!(ab.partial_cmp(&ba), Some(Ordering::Equal));
}

#[test]
fn compare_orders_clocks() {
    let a = VersionVec::new(2);
    let mut b = VersionVec::new(2);
    b.inc(tid(0));
    assert_eq!(a.partial_cmp(&b), Some(Ordering::Less));
    assert_eq!(b.partial_cmp(&a), Some(Ordering::Greater));
    let mut c = VersionVec::new(2);
    c.inc(tid(1));
    assert_eq!(b.partial_cmp(&c), None);
    assert_eq!(c.partial_cmp(&b), None);
    assert!(!b.le(&c));
}

#[test]
fn ahead_finds_an_entry_that_is_later() {
    let a = VersionVec::new(2);
    let mut b = VersionVec::new(2);
    b.inc(tid(1));
    assert_eq!(a.ahead(&b), Some(1));
    assert_eq!(b.ahead(&a), None);
}
