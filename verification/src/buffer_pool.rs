use vstd::prelude::*;

verus! {

/// Byte buffers kept for reuse, so that decoding a frame allocates nothing
/// while the pool has a buffer to give.
#[derive(Debug)]
pub struct BufferPool {
    free: Vec<Vec<u8>>,
    max_pooled: usize,
}

impl BufferPool {
    /// The number of buffers that wait for reuse.
    pub closed spec fn available(&self) -> nat {
        self.free@.len()
    }

    /// Most buffers that the pool keeps.
    pub closed spec fn limit(&self) -> nat {
        self.max_pooled as nat
    }

    /// The pool's invariant: it keeps no more buffers than its limit, and
    /// every buffer it keeps is empty.
    pub closed spec fn wf(&self) -> bool {
        &&& self.free@.len() <= self.max_pooled
        &&& forall|i: int| 0 <= i < self.free@.len() ==> (#[trigger] self.free@[i])@.len() == 0
    }

    /// An empty pool that keeps at most `max_pooled` buffers.
    pub fn new(max_pooled: usize) -> (r: BufferPool)
        ensures
            r.wf(),
            r.available() == 0,
            r.limit() == max_pooled,
    {
        BufferPool { free: Vec::new(), max_pooled }
    }

    /// Hands out an empty buffer: one of the pool's while it has any, a new
    /// one otherwise.
    pub fn acquire(&mut self) -> (r: Vec<u8>)
        requires
            old(self).wf(),
        ensures
            final(self).wf(),
            final(self).limit() == old(self).limit(),
            r@.len() == 0,
            final(self).available() == (if old(self).available() > 0 {
                old(self).available() - 1
            } else {
                0
            }),
    {
        match self.free.pop() {
            Some(buffer) => buffer,
            None => Vec::new(),
        }
    }

    /// Takes a buffer back. It is emptied and kept unless the pool is full;
    /// says whether it was kept.
    pub fn release(&mut self, buffer: Vec<u8>) -> (r: bool)
        requires
            old(self).wf(),
        ensures
            final(self).wf(),
            final(self).limit() == old(self).limit(),
            r == (old(self).available() < old(self).limit()),
            final(self).available() == (if r {
                old(self).available() + 1
            } else {
                old(self).available()
            }),
    {
        if self.free.len() < self.max_pooled {
            let mut buffer = buffer;
            buffer.clear();
            self.free.push(buffer);
            true
        } else {
            false
        }
    }

    /// The number of buffers that wait for reuse.
    pub fn len(&self) -> (r: usize)
        ensures
            r == self.available(),
    {
        self.free.len()
    }
}

} // verus!
