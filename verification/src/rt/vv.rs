use vstd::prelude::*;

use crate::rt::thread;
use core::cmp::Ordering;

verus! {

/// A vector clock: one logical time per thread of the model.
#[derive(Debug)]
pub struct VersionVec {
    versions: Vec<usize>,
}

/// The time of thread `i` in `s`; a thread past the end of `s` is at time 0.
pub open spec fn vv_get(s: Seq<usize>, i: int) -> int {
    if 0 <= i < s.len() {
        s[i] as int
    } else {
        0
    }
}

/// `a` happens-before-or-equals `b`: every entry of `a` is at most that of `b`.
pub open spec fn vv_le(a: Seq<usize>, b: Seq<usize>) -> bool {
    forall|i: int| #[trigger] vv_get(a, i) <= vv_get(b, i)
}

/// `vv_le` restricted to the first `n` threads.
pub open spec fn vv_le_upto(a: Seq<usize>, b: Seq<usize>, n: int) -> bool {
    forall|i: int| 0 <= i < n ==> #[trigger] vv_get(a, i) <= vv_get(b, i)
}

/// The partial order of vector clocks, as a comparison result.
pub open spec fn vv_compare(a: Seq<usize>, b: Seq<usize>) -> Option<Ordering> {
    if vv_le(a, b) && vv_le(b, a) {
        Some(Ordering::Equal)
    } else if vv_le(a, b) {
        Some(Ordering::Less)
    } else if vv_le(b, a) {
        Some(Ordering::Greater)
    } else {
        None
    }
}

/// Pointwise maximum of two clocks of the same length.
pub open spec fn vv_join(a: Seq<usize>, b: Seq<usize>) -> Seq<usize>
    recommends
        a.len() == b.len(),
{
    Seq::new(a.len(), |i: int| if a[i] >= b[i] { a[i] } else { b[i] })
}

/// Joining two clocks yields their least upper bound: both inputs happen
/// before the join, and the join happens before every common upper bound.
pub proof fn lemma_join_least_upper_bound(a: Seq<usize>, b: Seq<usize>, c: Seq<usize>)
    requires
        a.len() == b.len(),
    ensures
        vv_le(a, vv_join(a, b)),
        vv_le(b, vv_join(a, b)),
        vv_le(a, c) && vv_le(b, c) ==> vv_le(vv_join(a, b), c),
{
    let j = vv_join(a, b);
    assert forall|i: int| #[trigger] vv_get(a, i) <= vv_get(j, i) by {}
    assert forall|i: int| #[trigger] vv_get(b, i) <= vv_get(j, i) by {}
    if vv_le(a, c) && vv_le(b, c) {
        assert forall|i: int| #[trigger] vv_get(j, i) <= vv_get(c, i) by {
            assert(vv_get(a, i) <= vv_get(c, i));
            assert(vv_get(b, i) <= vv_get(c, i));
        }
    }
}

/// Joining is commutative and idempotent.
pub proof fn lemma_join_commutative_idempotent(a: Seq<usize>, b: Seq<usize>)
    requires
        a.len() == b.len(),
    ensures
        vv_join(a, b) == vv_join(b, a),
        vv_join(a, a) == a,
{
    assert(vv_join(a, b) =~= vv_join(b, a));
    assert(vv_join(a, a) =~= a);
}

/// Happens-before-or-equal is a partial order: reflexive, transitive, and
/// antisymmetric on clocks of one length.
pub proof fn lemma_le_partial_order(a: Seq<usize>, b: Seq<usize>, c: Seq<usize>)
    ensures
        vv_le(a, a),
        vv_le(a, b) && vv_le(b, c) ==> vv_le(a, c),
        vv_le(a, b) && vv_le(b, a) && a.len() == b.len() ==> a == b,
{
    if vv_le(a, b) && vv_le(b, c) {
        assert forall|i: int| #[trigger] vv_get(a, i) <= vv_get(c, i) by {
            assert(vv_get(a, i) <= vv_get(b, i));
            assert(vv_get(b, i) <= vv_get(c, i));
        }
    }
    if vv_le(a, b) && vv_le(b, a) && a.len() == b.len() {
        assert forall|i: int| 0 <= i < a.len() implies a[i] == b[i] by {
            assert(vv_get(a, i) <= vv_get(b, i));
            assert(vv_get(b, i) <= vv_get(a, i));
        }
        assert(a =~= b);
    }
}

/// Comparing in the other direction mirrors the result.
pub proof fn lemma_compare_mirror(a: Seq<usize>, b: Seq<usize>)
    ensures
        vv_compare(a, b) == Some(Ordering::Less) <==> vv_compare(b, a) == Some(Ordering::Greater),
        vv_compare(a, b) == Some(Ordering::Equal) <==> vv_compare(b, a) == Some(Ordering::Equal),
        vv_compare(a, b) is None <==> vv_compare(b, a) is None,
{
}

/// Advancing one entry makes the clock strictly later than before.
pub proof fn lemma_inc_strictly_later(a: Seq<usize>, b: Seq<usize>, i: int)
    requires
        0 <= i < a.len(),
        b.len() == a.len(),
        b[i] == a[i] + 1,
        forall|k: int| 0 <= k < a.len() && k != i ==> b[k] == a[k],
    ensures
        vv_compare(a, b) == Some(Ordering::Less),
{
    assert forall|k: int| #[trigger] vv_get(a, k) <= vv_get(b, k) by {}
    assert(vv_get(b, i) > vv_get(a, i));
}

impl View for VersionVec {
    type V = Seq<usize>;

    closed spec fn view(&self) -> Seq<usize> {
        self.versions@
    }
}

impl VersionVec {
    /// A clock of `max_threads` entries, all zero.
    pub fn new(max_threads: usize) -> (r: VersionVec)
        requires
            max_threads > 0,
        ensures
            r@ == Seq::new(max_threads as nat, |i: int| 0usize),
    {
        let mut versions: Vec<usize> = Vec::new();
        let mut i: usize = 0;
        while i < max_threads
            invariant
                i <= max_threads,
                versions@ == Seq::new(i as nat, |k: int| 0usize),
            decreases max_threads - i,
        {
            versions.push(0);
            i = i + 1;
        }
        VersionVec { versions }
    }

    /// Copies `other` into `self`.
    pub fn set(&mut self, other: &VersionVec)
        requires
            old(self)@.len() == other@.len(),
        ensures
            final(self)@ == other@,
    {
        let n = self.versions.len();
        let mut i: usize = 0;
        while i < n
            invariant
                n == self.versions@.len(),
                n == other@.len(),
                i <= n,
                forall|k: int| 0 <= k < i ==> self.versions@[k] == other@[k],
            decreases n - i,
        {
            let v = other.versions[i];
            self.versions.set(i, v);
            i = i + 1;
        }
        assert(self.versions@ =~= other@);
    }

    /// A copy of this clock.
    pub fn clone(&self) -> (r: VersionVec)
        ensures
            r@ == self@,
    {
        VersionVec { versions: self.versions.clone() }
    }

    /// Number of threads the clock tracks.
    pub fn len(&self) -> (r: usize)
        ensures
            r == self@.len(),
    {
        self.versions.len()
    }

    /// The time of thread `id`.
    pub fn get(&self, id: thread::Id) -> (r: usize)
        requires
            id.id < self@.len(),
        ensures
            r == self@[id.id as int],
    {
        self.versions[id.id]
    }

    /// The time of thread index `i`.
    pub fn get_index(&self, i: usize) -> (r: usize)
        requires
            i < self@.len(),
        ensures
            r == self@[i as int],
    {
        self.versions[i]
    }

    /// Overwrites the time of thread `id`.
    pub fn set_at(&mut self, id: thread::Id, v: usize)
        requires
            id.id < old(self)@.len(),
        ensures
            final(self)@ == old(self)@.update(id.id as int, v),
    {
        self.versions.set(id.id, v);
    }

    /// Advances the time of thread `id` by one.
    pub fn inc(&mut self, id: thread::Id)
        requires
            id.id < old(self)@.len(),
            old(self)@[id.id as int] < usize::MAX,
        ensures
            final(self)@ == old(self)@.update(id.id as int, (old(self)@[id.id as int] + 1) as usize),
    {
        let v = self.versions[id.id];
        self.versions.set(id.id, v + 1);
    }

    /// Raises every entry to the maximum of itself and the entry of `other`.
    pub fn join(&mut self, other: &VersionVec)
        requires
            old(self)@.len() == other@.len(),
        ensures
            final(self)@ == vv_join(old(self)@, other@),
    {
        let n = self.versions.len();
        let mut i: usize = 0;
        while i < n
            invariant
                n == self.versions@.len(),
                n == other@.len(),
                n == old(self)@.len(),
                i <= n,
                forall|k: int|
                    0 <= k < i ==> self.versions@[k] == (if old(self)@[k] >= other@[k] {
                        old(self)@[k]
                    } else {
                        other@[k]
                    }),
                forall|k: int| i <= k < n ==> self.versions@[k] == old(self)@[k],
            decreases n - i,
        {
            let a = self.versions[i];
            let b = other.versions[i];
            if b > a {
                self.versions.set(i, b);
            }
            i = i + 1;
        }
        assert(self.versions@ =~= vv_join(old(self)@, other@));
    }

    /// The first thread whose time in `other` is later than in `self`, if
    /// any: a witness that `other` does not happen before `self`.
    pub fn ahead(&self, other: &VersionVec) -> (r: Option<usize>)
        requires
            self@.len() == other@.len(),
        ensures
            r is None <==> vv_le(other@, self@),
            r matches Some(i) ==> i < self@.len() && other@[i as int] > self@[i as int] && vv_le_upto(
                other@,
                self@,
                i as int,
            ),
    {
        let n = self.versions.len();
        let mut i: usize = 0;
        while i < n
            invariant
                n == self@.len(),
                n == other@.len(),
                i <= n,
                vv_le_upto(other@, self@, i as int),
            decreases n - i,
        {
            if other.versions[i] > self.versions[i] {
                assert(vv_get(other@, i as int) > vv_get(self@, i as int));
                return Some(i);
            }
            i = i + 1;
        }
        assert forall|k: int| #[trigger] vv_get(other@, k) <= vv_get(self@, k) by {
            if 0 <= k < n {
                assert(vv_get(other@, k) <= vv_get(self@, k));
            }
        }
        None
    }

    /// `true` when `self` happens-before-or-equals `other`.
    pub fn le(&self, other: &VersionVec) -> (r: bool)
        ensures
            r == vv_le(self@, other@),
    {
        let n = if self.versions.len() >= other.versions.len() {
            self.versions.len()
        } else {
            other.versions.len()
        };
        let mut i: usize = 0;
        while i < n
            invariant
                n >= self@.len(),
                n >= other@.len(),
                i <= n,
                vv_le_upto(self@, other@, i as int),
            decreases n - i,
        {
            let a: usize = if i < self.versions.len() { self.versions[i] } else { 0 };
            let b: usize = if i < other.versions.len() { other.versions[i] } else { 0 };
            if a > b {
                assert(vv_get(self@, i as int) > vv_get(other@, i as int));
                return false;
            }
            i = i + 1;
        }
        assert forall|k: int| #[trigger] vv_get(self@, k) <= vv_get(other@, k) by {
            if 0 <= k < n {
            }
        }
        true
    }

    /// Scans both clocks: the first flag says some entry of `self` is below
    /// that of `other`, the second that some entry is above.
    fn directions(&self, other: &VersionVec) -> (r: (bool, bool))
        ensures
            r.0 == !vv_le(other@, self@),
            r.1 == !vv_le(self@, other@),
    {
        let n = if self.versions.len() >= other.versions.len() {
            self.versions.len()
        } else {
            other.versions.len()
        };
        let mut less = false;
        let mut greater = false;
        let mut i: usize = 0;
        while i < n
            invariant
                n >= self@.len(),
                n >= other@.len(),
                i <= n,
                !greater <==> vv_le_upto(self@, other@, i as int),
                !less <==> vv_le_upto(other@, self@, i as int),
            decreases n - i,
        {
            let a: usize = if i < self.versions.len() { self.versions[i] } else { 0 };
            let b: usize = if i < other.versions.len() { other.versions[i] } else { 0 };
            if a < b {
                less = true;
                assert(!vv_le_upto(other@, self@, (i + 1) as int)) by {
                    assert(vv_get(other@, i as int) > vv_get(self@, i as int));
                }
            } else if a > b {
                greater = true;
                assert(!vv_le_upto(self@, other@, (i + 1) as int)) by {
                    assert(vv_get(self@, i as int) > vv_get(other@, i as int));
                }
            }
            if less && greater {
                proof {
                    let k = choose|k: int| 0 <= k < i + 1 && !(vv_get(self@, k) <= vv_get(other@, k));
                    assert(vv_get(self@, k) > vv_get(other@, k));
                    let j = choose|j: int| 0 <= j < i + 1 && !(vv_get(other@, j) <= vv_get(self@, j));
                    assert(vv_get(other@, j) > vv_get(self@, j));
                }
                return (true, true);
            }
            i = i + 1;
        }
        proof {
            if !greater {
                assert forall|k: int| #[trigger] vv_get(self@, k) <= vv_get(other@, k) by {
                    if 0 <= k < n {
                    }
                }
            } else {
                let k = choose|k: int| 0 <= k < n && !(vv_get(self@, k) <= vv_get(other@, k));
                assert(vv_get(self@, k) > vv_get(other@, k));
            }
            if !less {
                assert forall|k: int| #[trigger] vv_get(other@, k) <= vv_get(self@, k) by {
                    if 0 <= k < n {
                    }
                }
            } else {
                let k = choose|k: int| 0 <= k < n && !(vv_get(other@, k) <= vv_get(self@, k));
                assert(vv_get(other@, k) > vv_get(self@, k));
            }
        }
        (less, greater)
    }

    /// Compares two clocks in the happens-before partial order; `None` when
    /// they are concurrent.
    pub fn partial_cmp(&self, other: &VersionVec) -> (r: Option<Ordering>)
        ensures
            r == vv_compare(self@, other@),
    {
        let (less, greater) = self.directions(other);
        if less && greater {
            None
        } else if less {
            Some(Ordering::Less)
        } else if greater {
            Some(Ordering::Greater)
        } else {
            Some(Ordering::Equal)
        }
    }
}

} // verus!
