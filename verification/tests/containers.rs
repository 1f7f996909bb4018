use loom::rt::execution::Execution;
use loom::track::Track;
use loom::util::CachedVec;

#[test]
fn cached_vec_push_pop() {
    let mut v: CachedVec<u32> = CachedVec::new();
    assert_eq!(v.len(), 0);
    v.push(|x| *x = 1);
    v.push(|x| *x = 2);
    assert_eq!(v.as_slice(), &[1, 2]);
    v.pop();
    assert_eq!(v.as_slice(), &[1]);
    assert_eq!(v.len(), 1);
}

#[test]
fn cached_vec_reuses_popped_slot() {
    let mut v: CachedVec<Vec<u32>> = CachedVec::new();
    v.push(|slot| {
        assert!(slot.is_empty());
        slot.extend([7, 8]);
    });
    v.pop();
    assert_eq!(v.len(), 0);
    // The next push starts from the popped element.
    v.push(|slot| {
        assert_eq!(slot, &vec![7, 8]);
        slot.push(9);
    });
    assert_eq!(v.as_slice(), &[vec![7, 8, 9]]);
}

#[test]
fn cached_vec_pop_undoes_push() {
    let mut v: CachedVec<u8> = CachedVec::new();
    v.push(|x| *x = 3);
    let before: Vec<u8> = v.as_slice().to_vec();
    v.push(|x| *x = 4);
    v.pop();
    assert_eq!(v.as_slice(), before.as_slice());
}

#[test]
fn track_gives_back_its_value() {
    let mut e = Execution::new(1, 100, None, 0);
    let mut t = Track::new(&mut e, String::from("a"));
    assert_eq!(t.get_ref(), "a");
    t.get_mut().push('b');
    assert_eq!(t.get_ref(), "ab");
    assert!(e.objects.check_for_leaks().is_err());
    let v = t.into_inner(&mut e);
    assert_eq!(v, "ab");
    assert!(e.objects.check_for_leaks().is_ok());
}

#[test]
fn untracked_value_leaks() {
    let mut e = Execution::new(1, 100, None, 0);
    let _t = Track::new(&mut e, 5u8);
    assert_eq!(e.objects.check_for_leaks(), Err(loom::rt::Failure::Leak));
}

#[test]
fn cached_vec_refills_spare_slots_in_order() {
    let mut v: CachedVec<u32> = CachedVec::new();
    v.push(|x| *x = 1);
    v.push(|x| *x = 2);
    v.pop();
    v.pop();
    let mut seen = Vec::new();
    v.push(|x| {
        seen.push(*x);
        *x += 10;
    });
    v.push(|x| {
        seen.push(*x);
        *x += 10;
    });
    assert_eq!(seen, vec![1, 2]);
    assert_eq!(v.as_slice(), &[11, 12]);
}
