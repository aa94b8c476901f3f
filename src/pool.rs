//! A bounded stack of reusable buffers of one fixed length.
use crate::column::filled;
use vstd::prelude::*;

verus! {

/// Holds at most `capacity` buffers, each of length `size`. Buffers are moved in
/// and out, so a buffer handed out is owned by its taker alone.
pub struct VecPool<T> {
    buffers: Vec<Vec<T>>,
    capacity: usize,
    size: usize,
    fill: T,
}

impl<T: Copy> VecPool<T> {
    /// The buffers held, in the order they were returned.
    pub closed spec fn held(&self) -> Seq<Seq<T>> {
        Seq::new(self.buffers@.len(), |i: int| self.buffers@[i]@)
    }

    pub closed spec fn capacity(&self) -> nat {
        self.capacity as nat
    }

    /// The length of every buffer the pool hands out or keeps.
    pub closed spec fn size(&self) -> nat {
        self.size as nat
    }

    /// The value a freshly made buffer is filled with.
    pub closed spec fn fill(&self) -> T {
        self.fill
    }

    pub open spec fn wf(&self) -> bool {
        &&& self.held().len() <= self.capacity()
        &&& forall|i: int| 0 <= i < self.held().len() ==> #[trigger] self.held()[i].len() == self.size()
    }

    /// An empty pool for up to `capacity` buffers of `size` copies of `fill`.
    pub fn new(capacity: usize, size: usize, fill: T) -> (r: VecPool<T>)
        ensures
            r.wf(),
            r.held().len() == 0,
            r.capacity() == capacity,
            r.size() == size,
            r.fill() == fill,
    {
        VecPool { buffers: Vec::new(), capacity, size, fill }
    }

    /// A buffer of length `size`: the one returned last, or a new one filled with
    /// `fill` when none is held.
    pub fn acquire(&mut self) -> (r: Vec<T>)
        requires
            old(self).wf(),
        ensures
            final(self).wf(),
            r@.len() == old(self).size(),
            final(self).size() == old(self).size(),
            final(self).capacity() == old(self).capacity(),
            final(self).fill() == old(self).fill(),
            old(self).held().len() > 0 ==> r@ == old(self).held().last() && final(self).held()
                == old(self).held().drop_last(),
            old(self).held().len() == 0 ==> r@ == Seq::new(old(self).size(), |i: int| old(self).fill())
                && final(self).held() == old(self).held(),
    {
        match self.buffers.pop() {
            Some(buf) => {
                proof {
                    let last = old(self).held().len() - 1;
                    assert(old(self).held()[last].len() == old(self).size());
                    assert(final(self).held() =~= old(self).held().drop_last());
                }
                buf
            },
            None => filled(self.fill, self.size),
        }
    }

    /// Keeps `buf` for reuse while there is room; drops it otherwise.
    pub fn return_to_pool(&mut self, buf: Vec<T>)
        requires
            old(self).wf(),
            buf@.len() == old(self).size(),
        ensures
            final(self).wf(),
            final(self).size() == old(self).size(),
            final(self).capacity() == old(self).capacity(),
            final(self).fill() == old(self).fill(),
            old(self).held().len() < old(self).capacity() ==> final(self).held() == old(
                self,
            ).held().push(buf@),
            old(self).held().len() >= old(self).capacity() ==> final(self).held() == old(
                self,
            ).held(),
    {
        if self.buffers.len() < self.capacity {
            self.buffers.push(buf);
            proof {
                assert(final(self).held() =~= old(self).held().push(buf@));
            }
        }
    }
}

} // verus!
