use loom::rt::execution::Execution;
use loom::rt::path::{Entry, Load, Path, Schedule, Thread};

fn schedule(threads: [Thread; 5], prev: Option<usize>, initial_active: Option<u8>) -> Entry {
    Entry::Schedule(Schedule { preemptions: 0, initial_active, threads: threads.to_vec(), prev })
}

#[test]
fn fresh_path_is_well_formed() {
    assert!(Path::new(10, None).is_wf());
}

#[test]
fn resume_follows_a_well_formed_path() {
    let mut p = Path::new(10, None);
    let t = [Thread::Active, Thread::Skip, Thread::Disabled, Thread::Disabled, Thread::Disabled];
    p.branches.push(schedule(t, None, Some(0)));
    p.schedule_trace.push(loom::rt::trace::Trace::opaque("op"));
    p.branches.push(schedule(t, Some(0), Some(0)));
    p.schedule_trace.push(loom::rt::trace::Trace::opaque("op"));
    assert!(p.is_wf());
    let e = Execution::resume(2, p, 3).expect("a well formed path");
    assert_eq!(e.path.branches.len(), 2);
    assert_eq!(e.threads.active, Some(0));
    assert_eq!(e.id.0, 3);
}

#[test]
fn resume_refuses_a_malformed_path() {
    let t = [Thread::Active, Thread::Skip, Thread::Disabled, Thread::Disabled, Thread::Disabled];
    // A branch point that refers to a later one.
    let mut p = Path::new(10, None);
    p.branches.push(schedule(t, Some(1), None));
    p.schedule_trace.push(loom::rt::trace::Trace::opaque("op"));
    assert!(!p.is_wf());
    assert!(Execution::resume(2, p, 1).is_none());
    // A trace missing for a branch point.
    let mut p = Path::new(10, None);
    p.branches.push(schedule(t, None, None));
    assert!(!p.is_wf());
    // Too few thread states.
    let mut p = Path::new(10, None);
    p.branches.push(Entry::Schedule(Schedule { preemptions: 0, initial_active: None, threads: vec![Thread::Active], prev: None }));
    p.schedule_trace.push(loom::rt::trace::Trace::opaque("op"));
    assert!(!p.is_wf());
    // An initial thread that is not the first active one.
    let mut p = Path::new(10, None);
    p.branches.push(schedule(t, None, Some(1)));
    p.schedule_trace.push(loom::rt::trace::Trace::opaque("op"));
    assert!(!p.is_wf());
    // A load branch point with too few values.
    let mut p = Path::new(10, None);
    p.branches.push(Entry::Load(Load { values: vec![0, 1], pos: 0, len: 2 }));
    p.schedule_trace.push(loom::rt::trace::Trace::opaque("load"));
    assert!(!p.is_wf());
    // More branch points than the path may hold.
    let mut p = Path::new(0, None);
    p.branches.push(schedule(t, None, None));
    p.schedule_trace.push(loom::rt::trace::Trace::opaque("op"));
    assert!(!p.is_wf());
}

#[test]
fn resume_refuses_a_path_at_the_branch_limit() {
    let p = Path::new(usize::MAX, None);
    assert!(p.is_wf());
    assert!(Execution::resume(1, p, 1).is_none());
}
