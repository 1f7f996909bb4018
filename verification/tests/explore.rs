use loom::rt::atomic::{Action, Atomic};
use loom::rt::execution::Execution;
use loom::rt::object::Entry;
use loom::rt::trace::Trace;
use loom::rt::{thread_done, Failure};
use std::collections::BTreeSet;
use std::sync::atomic::Ordering;

/// The value of the newest store of the cell.
fn newest(e: &Execution, x: &Atomic) -> u64 {
    match &e.objects.entries[x.obj.index] {
        Entry::Atomic(s) => s.stores[s.slot_of_newest(0)].value,
        _ => panic!("not an atomic cell"),
    }
}

#[derive(Clone, Copy)]
enum Op {
    Load,
    Store(u64),
}

/// Runs every execution of a model with two threads, each doing `ops[t]` on
/// one atomic cell, and reports the value the cell ends with and what each
/// load read, once per execution.
fn explore(ops: [&[Op]; 2]) -> Vec<(u64, Vec<u64>)> {
    let trace = Trace::opaque("op");
    let mut results = Vec::new();
    let mut e = Execution::new(2, 1000, None, 0);
    let mut next_id = 1;
    loop {
        let x = Atomic::new(&mut e, 0);
        e.new_thread().unwrap();
        let mut pc = [0usize; 2];
        let mut branched = [false; 2];
        let mut loads = Vec::new();
        while let Some(a) = e.threads.active {
            if pc[a] == ops[a].len() {
                thread_done(&mut e, &trace).unwrap();
                continue;
            }
            let op = ops[a][pc[a]];
            if !branched[a] {
                branched[a] = true;
                let action = match op {
                    Op::Load => Action::Load,
                    Op::Store(_) => Action::Store,
                };
                x.branch(&mut e, action, &trace).unwrap();
                continue;
            }
            match op {
                Op::Load => loads.push(x.load(&mut e, Ordering::SeqCst, &trace).unwrap()),
                Op::Store(v) => x.store(&mut e, v, Ordering::SeqCst).unwrap(),
            }
            branched[a] = false;
            pc[a] += 1;
        }
        results.push((newest(&e, &x), loads));
        assert!(!e.path.is_inconsistent());
        match e.step(next_id) {
            Some(n) => e = n,
            None => break,
        }
        next_id += 1;
        assert!(results.len() < 100, "exploration does not end");
    }
    results
}

#[test]
fn two_stores_are_explored_in_both_orders() {
    let results = explore([&[Op::Store(1)], &[Op::Store(2)]]);
    let finals: BTreeSet<u64> = results.iter().map(|r| r.0).collect();
    assert_eq!(finals, [1, 2].into_iter().collect());
}

#[test]
fn two_loads_need_one_execution() {
    let results = explore([&[Op::Load], &[Op::Load]]);
    assert_eq!(results.len(), 1);
    assert_eq!(results[0], (0, vec![0, 0]));
}

#[test]
fn a_load_sees_a_racing_store_or_not() {
    let results = explore([&[Op::Store(5)], &[Op::Load]]);
    let seen: BTreeSet<u64> = results.iter().map(|r| r.1[0]).collect();
    assert_eq!(seen, [0, 5].into_iter().collect());
    for r in &results {
        assert_eq!(r.0, 5);
    }
}

#[test]
fn thread_limit_is_enforced() {
    let mut e = Execution::new(1, 100, None, 0);
    assert_eq!(e.new_thread().err(), Some(Failure::ThreadLimit));
}

#[test]
fn parking_the_only_thread_deadlocks() {
    let mut e = Execution::new(1, 100, None, 0);
    let trace = Trace::opaque("park");
    assert_eq!(loom::rt::park(&mut e, &trace), Err(Failure::Deadlock));
}

#[test]
fn unpark_wakes_a_blocked_thread() {
    let mut e = Execution::new(2, 100, None, 0);
    e.new_thread().unwrap();
    e.threads.get_mut(1).set_blocked();
    e.threads.active_causality_inc();
    let waker = e.threads.get(0).causality.clone();
    loom::rt::thread::Id::new(e.id, 1).unpark(&mut e);
    assert!(e.threads.get(1).is_runnable());
    assert!(waker.le(&e.threads.get(1).causality));
}

#[test]
fn park_consumes_a_saved_unpark() {
    let mut e = Execution::new(1, 100, None, 0);
    let trace = Trace::opaque("park");
    e.threads.get_mut(0).state = loom::rt::thread::State::Runnable { unparked: true };
    assert_eq!(loom::rt::park(&mut e, &trace), Ok(false));
    assert_eq!(e.threads.get(0).state, loom::rt::thread::State::Runnable { unparked: false });
}

#[test]
fn branch_limit_is_enforced() {
    let mut e = Execution::new(1, 3, None, 0);
    let trace = Trace::opaque("yield");
    let mut failure = None;
    for _ in 0..10 {
        if let Err(f) = loom::rt::yield_now(&mut e, &trace) {
            failure = Some(f);
            break;
        }
    }
    assert_eq!(failure, Some(Failure::BranchLimit));
}

#[test]
fn replaying_another_model_is_nondeterministic() {
    let trace = Trace::opaque("op");
    let mut e = Execution::new(2, 100, None, 0);
    let x = Atomic::new(&mut e, 0);
    e.new_thread().unwrap();
    // Both threads store: the stores race, so a second execution follows.
    for t in 0..2 {
        assert_eq!(e.threads.active, Some(t));
        x.branch(&mut e, Action::Store, &trace).unwrap();
        assert_eq!(e.threads.active, Some(t));
        x.store(&mut e, t as u64, Ordering::SeqCst).unwrap();
        thread_done(&mut e, &trace).unwrap();
    }
    assert_eq!(e.threads.active, None);
    let mut e = e.step(1).expect("a second execution");
    // The model now does something else at the first branching point.
    let y = Atomic::new(&mut e, 0);
    e.new_thread().unwrap();
    let _ = y.branch(&mut e, Action::Load, &Trace::opaque("another operation"));
    assert!(e.path.is_inconsistent());
}

#[derive(Clone, Copy, PartialEq, Debug)]
enum Step {
    Load,
    Store(u64),
    Yield,
}

/// Runs every execution of a model with two threads, each doing `ops[t]` on
/// one atomic cell with ordering `ord`, and reports, per execution, the
/// loads and stores in the order they ran: the thread, the step, and the
/// value loaded or stored.
fn explore_steps(ops: [&[Step]; 2], ord: Ordering) -> Vec<Vec<(usize, Step, u64)>> {
    let trace = Trace::opaque("step");
    let mut results = Vec::new();
    let mut e = Execution::new(2, 1000, None, 0);
    let mut next_id = 1;
    loop {
        let x = Atomic::new(&mut e, 0);
        e.new_thread().unwrap();
        let mut pc = [0usize; 2];
        let mut branched = [false; 2];
        let mut events = Vec::new();
        while let Some(a) = e.threads.active {
            if pc[a] == ops[a].len() {
                thread_done(&mut e, &trace).unwrap();
                continue;
            }
            let step = ops[a][pc[a]];
            if step == Step::Yield {
                pc[a] += 1;
                loom::rt::yield_now(&mut e, &trace).unwrap();
                continue;
            }
            if !branched[a] {
                branched[a] = true;
                let action = if step == Step::Load { Action::Load } else { Action::Store };
                x.branch(&mut e, action, &trace).unwrap();
                continue;
            }
            match step {
                Step::Load => {
                    let v = x.load(&mut e, ord, &trace).unwrap();
                    events.push((a, step, v));
                }
                Step::Store(v) => {
                    x.store(&mut e, v, ord).unwrap();
                    events.push((a, step, v));
                }
                Step::Yield => {}
            }
            branched[a] = false;
            pc[a] += 1;
        }
        results.push(events);
        assert!(!e.path.is_inconsistent());
        match e.step(next_id) {
            Some(n) => e = n,
            None => break,
        }
        next_id += 1;
        assert!(results.len() < 200, "exploration does not end");
    }
    results
}

/// The values the loads of an execution read, in order.
fn loaded(events: &[(usize, Step, u64)]) -> Vec<u64> {
    events.iter().filter(|e| e.1 == Step::Load).map(|e| e.2).collect()
}

/// Whether the store ran before the second load.
fn stored_before_second_load(events: &[(usize, Step, u64)]) -> bool {
    let store = events.iter().position(|e| matches!(e.1, Step::Store(_))).unwrap();
    let second = events.iter().enumerate().filter(|e| e.1 .1 == Step::Load).nth(1).unwrap().0;
    store < second
}

#[test]
fn loads_never_go_back_to_an_older_store() {
    let results = explore_steps([&[Step::Store(1)], &[Step::Load, Step::Load]], Ordering::Relaxed);
    let seen: BTreeSet<Vec<u64>> = results.iter().map(|r| loaded(r)).collect();
    assert!(seen.contains(&vec![1, 1]));
    assert!(!seen.contains(&vec![1, 0]));
}

#[test]
fn a_relaxed_load_may_read_a_stale_value_after_the_store() {
    let results = explore_steps([&[Step::Store(1)], &[Step::Load, Step::Load]], Ordering::Relaxed);
    assert!(results.iter().any(|r| stored_before_second_load(r) && loaded(r) == vec![0, 0]));
}

#[test]
fn after_a_yield_a_spinning_load_sees_the_newer_store() {
    let results = explore_steps([&[Step::Store(1)], &[Step::Load, Step::Yield, Step::Load]], Ordering::Relaxed);
    assert!(results.iter().any(|r| stored_before_second_load(r)));
    for r in &results {
        if stored_before_second_load(r) {
            assert_eq!(loaded(r)[1], 1);
        }
    }
}

#[test]
fn a_terminated_thread_is_not_scheduled_again() {
    let trace = Trace::opaque("op");
    let mut e = Execution::new(2, 100, None, 0);
    e.new_thread().unwrap();
    assert_eq!(e.threads.active, Some(0));
    thread_done(&mut e, &trace).unwrap();
    assert_eq!(e.threads.active, Some(1));
    loom::rt::yield_now(&mut e, &trace).unwrap();
    assert_eq!(e.threads.active, Some(1));
    assert!(e.threads.get(0).is_terminated());
}

#[test]
fn stopped_exploration_runs_racing_stores_once() {
    let trace = Trace::opaque("op");
    let mut executions = 0;
    let mut e = Execution::new(2, 1000, None, 0);
    let mut next_id = 1;
    loop {
        executions += 1;
        loom::rt::stop_exploring(&mut e);
        let x = Atomic::new(&mut e, 0);
        e.new_thread().unwrap();
        let mut done = [false; 2];
        let mut branched = [false; 2];
        while let Some(a) = e.threads.active {
            if done[a] {
                thread_done(&mut e, &trace).unwrap();
                continue;
            }
            if !branched[a] {
                branched[a] = true;
                x.branch(&mut e, Action::Store, &trace).unwrap();
                continue;
            }
            x.store(&mut e, a as u64, Ordering::SeqCst).unwrap();
            done[a] = true;
        }
        match e.step(next_id) {
            Some(n) => e = n,
            None => break,
        }
        next_id += 1;
        assert!(executions < 10);
    }
    assert_eq!(executions, 1);
}

#[test]
fn skip_branch_outlasts_explore() {
    let mut e = Execution::new(1, 100, None, 0);
    loom::rt::skip_branch(&mut e);
    loom::rt::explore(&mut e);
    assert!(!e.path.exploring);
    let mut e = Execution::new(1, 100, None, 0);
    loom::rt::stop_exploring(&mut e);
    loom::rt::explore(&mut e);
    assert!(e.path.exploring);
}
