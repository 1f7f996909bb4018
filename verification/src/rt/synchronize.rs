//! A synchronization point between threads.
use vstd::prelude::*;

use crate::rt::thread::{acquired, acquired_seq_cst, active_causality, seq_cst_done, ThreadSet};
use crate::rt::vv::{vv_join, VersionVec};
use std::sync::atomic::Ordering;

verus! {

/// A synchronization point between two threads.
///
/// Threads synchronize with this point using any of the available orderings.
/// On loads, the thread's causality is updated using the synchronization
/// point's stored causality. On stores, the synchronization point's causality
/// is updated with the thread's.
#[derive(Debug)]
pub struct Synchronize {
    happens_before: VersionVec,
}

impl View for Synchronize {
    type V = Seq<usize>;

    closed spec fn view(&self) -> Seq<usize> {
        self.happens_before@
    }
}

/// The orderings that make a load acquire.
pub open spec fn acquires(order: Ordering) -> bool {
    order == Ordering::Acquire || order == Ordering::AcqRel || order == Ordering::SeqCst
}

/// The orderings that make a store release.
pub open spec fn releases(order: Ordering) -> bool {
    order == Ordering::Release || order == Ordering::AcqRel || order == Ordering::SeqCst
}

impl Synchronize {
    /// A synchronization point that carries no causality yet.
    pub fn new(max_threads: usize) -> (r: Synchronize)
        requires
            max_threads > 0,
        ensures
            r@ == Seq::new(max_threads as nat, |i: int| 0usize),
    {
        Synchronize { happens_before: VersionVec::new(max_threads) }
    }

    /// A synchronization point carrying the same causality.
    pub fn clone_bump(&self) -> (r: Synchronize)
        ensures
            r@ == self@,
    {
        Synchronize { happens_before: self.happens_before.clone() }
    }

    pub fn version_vec(&self) -> (r: &VersionVec)
        ensures
            r@ == self@,
    {
        &self.happens_before
    }

    /// A load with `order`: acquiring loads join the stored causality into
    /// the active thread; sequentially consistent ones also synchronize with
    /// the sequential-consistency clock.
    pub fn sync_load(&mut self, threads: &mut ThreadSet, order: Ordering)
        requires
            old(threads).wf(),
            old(threads).active is Some,
            old(self)@.len() == old(threads).max,
        ensures
            final(threads).wf(),
            *final(self) == *old(self),
            order == Ordering::SeqCst ==> acquired_seq_cst(*old(threads), *final(threads), old(self)@),
            (order == Ordering::Acquire || order == Ordering::AcqRel) ==> acquired(*old(threads), *final(threads), old(self)@),
            !acquires(order) ==> *final(threads) == *old(threads),
    {
        match order {
            Ordering::Relaxed | Ordering::Release => {
                // Nothing happens!
            },
            Ordering::Acquire | Ordering::AcqRel => {
                self.sync_acq(threads);
            },
            Ordering::SeqCst => {
                self.sync_acq(threads);
                threads.seq_cst();
            },
            _ => {},
        }
    }

    /// A store with `order`: releasing stores join the active thread's
    /// causality into this point; sequentially consistent ones also
    /// synchronize with the sequential-consistency clock.
    pub fn sync_store(&mut self, threads: &mut ThreadSet, order: Ordering)
        requires
            old(threads).wf(),
            old(threads).active is Some,
            old(self)@.len() == old(threads).max,
        ensures
            final(threads).wf(),
            releases(order) ==> final(self)@ == vv_join(old(self)@, active_causality(*old(threads))),
            !releases(order) ==> final(self)@ == old(self)@,
            order == Ordering::SeqCst ==> seq_cst_done(*old(threads), *final(threads)),
            order != Ordering::SeqCst ==> *final(threads) == *old(threads),
    {
        match order {
            Ordering::Relaxed | Ordering::Acquire => {
                // Nothing happens!
            },
            Ordering::Release | Ordering::AcqRel => {
                self.sync_rel(threads);
            },
            Ordering::SeqCst => {
                self.sync_rel(threads);
                threads.seq_cst();
            },
            _ => {},
        }
    }

    /// An acquire: the active thread joins this point's causality.
    pub fn acquire(&mut self, threads: &mut ThreadSet)
        requires
            old(threads).wf(),
            old(threads).active is Some,
            old(self)@.len() == old(threads).max,
        ensures
            final(threads).wf(),
            *final(self) == *old(self),
            acquired(*old(threads), *final(threads), old(self)@),
    {
        self.sync_acq(threads);
    }

    fn sync_acq(&mut self, threads: &mut ThreadSet)
        requires
            old(threads).wf(),
            old(threads).active is Some,
            old(self)@.len() == old(threads).max,
        ensures
            final(threads).wf(),
            *final(self) == *old(self),
            acquired(*old(threads), *final(threads), old(self)@),
    {
        let a = threads.active.unwrap();
        proof {
            assert(threads.threads@[a as int].wf(threads.max as nat));
        }
        let th = threads.get_mut(a);
        th.causality.join(&self.happens_before);
    }

    fn sync_rel(&mut self, threads: &ThreadSet)
        requires
            threads.wf(),
            threads.active is Some,
            old(self)@.len() == threads.max,
        ensures
            final(self)@ == vv_join(old(self)@, active_causality(*threads)),
    {
        let a = threads.active.unwrap();
        proof {
            assert(threads.threads@[a as int].wf(threads.max as nat));
        }
        self.happens_before.join(&threads.get(a).causality);
    }
}

} // verus!
