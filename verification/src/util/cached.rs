//! A vector that keeps popped slots for reuse.
use vstd::prelude::*;

verus! {

/// A vector whose popped elements stay allocated: the next `push` fills the
/// first spare slot in place instead of building a new element.
#[derive(Debug)]
pub struct CachedVec<T> {
    inner: Vec<T>,
    len: usize,
}

impl<T> View for CachedVec<T> {
    type V = Seq<T>;

    /// The elements in use.
    closed spec fn view(&self) -> Seq<T> {
        self.inner@.take(self.len as int)
    }
}

impl<T> CachedVec<T> {
    /// The vector's invariant: the length in use fits the allocated slots.
    pub closed spec fn wf(&self) -> bool {
        self.len <= self.inner@.len()
    }

    /// Every allocated slot, the ones in use first; the slots after them
    /// are spare, and each `push` fills the first spare one.
    pub closed spec fn slots(&self) -> Seq<T> {
        self.inner@
    }

    /// The slot the next `push` fills, if one is allocated.
    pub closed spec fn spare(&self) -> Option<T> {
        if self.len < self.inner@.len() {
            Some(self.inner@[self.len as int])
        } else {
            None
        }
    }

    /// An empty vector with no slots.
    pub fn new() -> (r: CachedVec<T>)
        ensures
            r.wf(),
            r@ == Seq::<T>::empty(),
            r.spare() is None,
            r.slots() == Seq::<T>::empty(),
    {
        CachedVec { inner: Vec::new(), len: 0 }
    }

    /// The number of elements in use.
    pub fn len(&self) -> (r: usize)
        requires
            self.wf(),
        ensures
            r == self@.len(),
    {
        self.len
    }

    /// Removes the last element; its slot is kept for reuse.
    pub fn pop(&mut self)
        requires
            old(self).wf(),
            old(self)@.len() > 0,
        ensures
            final(self).wf(),
            final(self)@ == old(self)@.drop_last(),
            final(self).spare() == Some(old(self)@.last()),
            final(self).slots() == old(self).slots(),
    {
        self.len = self.len - 1;
        proof {
            assert(self.inner@.take(self.len as int) =~= old(self)@.drop_last());
        }
    }

    /// The elements in use.
    pub fn as_slice(&self) -> (r: &[T])
        requires
            self.wf(),
        ensures
            r@ == self@,
    {
        vstd::slice::slice_subrange(self.inner.as_slice(), 0, self.len)
    }
}

impl<T: Default> CachedVec<T> {
    /// Appends an element: `f` updates, in place, the first spare slot, or
    /// a default value when no slot is spare.
    pub fn push<F: FnOnce(&mut T)>(&mut self, f: F)
        requires
            old(self).wf(),
            forall|slot: &mut T| #[trigger] f.requires((slot,)),
        ensures
            final(self).wf(),
            final(self)@.drop_last() == old(self)@,
            final(self)@.len() == old(self)@.len() + 1,
            old(self).spare() matches Some(s) ==> exists|x: &mut T|
                *x == s && #[trigger] f.ensures((x,), ()) && *final(x) == final(self)@.last(),
            old(self).spare() is Some ==> final(self).slots() == old(self).slots().update(
                old(self)@.len() as int,
                final(self)@.last(),
            ),
            old(self).spare() is None ==> final(self).slots() == old(self).slots().push(final(self)@.last()),
            old(self).spare() is None ==> exists|x: &mut T|
                call_ensures(T::default, (), *x) && #[trigger] f.ensures((x,), ()) && *final(x)
                    == final(self)@.last(),
    {
        let ghost mut made: Option<T> = None;
        if self.len == self.inner.len() {
            let make = T::default;
            let d = make();
            proof {
                made = Some(d);
            }
            self.inner.push(d);
        }
        assert(self.len < self.inner.len());
        let len = self.len;
        let slot = &mut self.inner[len];
        f(slot);
        self.len = len + 1;
        proof {
            assert(self@.drop_last() =~= old(self)@);
        }
    }
}

/// Popping undoes a push: the elements in use are those before the push,
/// and the pushed element is kept as the spare slot.
pub proof fn lemma_pop_undoes_push<T>(before: CachedVec<T>, pushed: CachedVec<T>, popped: CachedVec<T>)
    requires
        pushed@.drop_last() == before@,
        pushed@.len() == before@.len() + 1,
        popped@ == pushed@.drop_last(),
        popped.spare() == Some(pushed@.last()),
    ensures
        popped@ == before@,
        popped.spare() == Some(pushed@[before@.len() as int]),
{
}

} // verus!
