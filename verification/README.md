# loom

A tool for testing concurrent Rust code by permutation: a model is run once per
interleaving of its threads and per value its atomic loads may read, until
every distinct execution has been explored. Its core is written in
Verus and proved against its specifications.

## Layout

- `src/rt/` — the core.
  - `vv.rs`: vector clocks, the happens-before order.
  - `path.rs`: the depth-first exploration path and its branch points
    (scheduling, atomic loads, spurious wakeups); each step moves the path
    strictly down in the order of the alternatives left, so exploration ends.
  - `execution.rs`: one execution, and the DPOR scheduler that marks racing
    operations for later exploration.
  - `thread.rs`, `object.rs`, `synchronize.rs`: threads, the objects of an
    execution and their last dependent accesses, release/acquire points.
  - `atomic.rs`, `mutex.rs`, `rwlock.rs`, `condvar.rs`, `notify.rs`,
    `arc.rs`, `mpsc.rs`, `cell.rs`, `causal.rs`, `allocation.rs`: the memory
    model state of each kind of object, with proofs that each synchronizing
    object hands the causality of a release to the matching acquire.
- `src/cell.rs`, `src/sync/`, `src/thread.rs`, `src/hint.rs`,
  `src/future/`, `src/futures/`, `src/track.rs`, `src/util/`: the
  user-level operations over the core, each taking the current execution.
- `src/fuzz.rs`: configuration of an exploration run.
- `app/`: the runtime that runs a model's threads as generators, keeps the
  current execution in thread-local storage, offers the `std`-like types,
  and drives the exploration with its checkpoints.
- `tests/`: tests of the library on concrete executions.
