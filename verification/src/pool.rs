//! A bounded pool of reusable buffers: the system's sole backpressure
//! mechanism.
//!
//! A buffer is owned by exactly one stage at a time; here ownership is a
//! move in and out of the pool, and the pool's capacity bounds how many
//! buffers can be outside it at once.

use vstd::prelude::*;

use crate::block::Block;

verus! {

/// A reusable pair of a compressed-frame scratch buffer and a decoded
/// block.
pub struct Buffer {
    /// Scratch space for one compressed frame.
    pub frame: Vec<u8>,
    /// The decoded block the frame inflates into.
    pub block: Block,
}

impl Buffer {
    /// An empty buffer.
    pub fn new() -> (r: Buffer)
        ensures
            r.frame@.len() == 0,
            r.block.wf(),
    {
        Buffer { frame: Vec::new(), block: Block::new() }
    }
}

/// A fixed-capacity pool of buffers.
pub struct BufferPool {
    free: Vec<Buffer>,
    capacity: usize,
}

impl BufferPool {
    /// The pool's fixed capacity.
    pub closed spec fn spec_capacity(self) -> int {
        self.capacity as int
    }

    /// How many buffers sit in the pool.
    pub closed spec fn spec_free(self) -> int {
        self.free@.len() as int
    }

    /// How many buffers are outside the pool.
    pub open spec fn outstanding(self) -> int {
        self.spec_capacity() - self.spec_free()
    }

    /// The pool's invariant: it never holds more buffers than its
    /// capacity.
    pub open spec fn inv(self) -> bool {
        self.spec_free() <= self.spec_capacity()
    }

    /// A pool holding `capacity` fresh buffers.
    pub fn with_capacity(capacity: usize) -> (r: BufferPool)
        ensures
            r.inv(),
            r.spec_capacity() == capacity,
            r.spec_free() == capacity,
            r.outstanding() == 0,
    {
        let mut free: Vec<Buffer> = Vec::new();
        let mut i: usize = 0;
        while i < capacity
            invariant
                0 <= i <= capacity,
                free@.len() == i,
            decreases capacity - i,
        {
            free.push(Buffer::new());
            i += 1;
        }
        BufferPool { free, capacity }
    }

    /// Takes a buffer out of the pool, if one is free.
    pub fn try_acquire(&mut self) -> (r: Option<Buffer>)
        requires
            old(self).inv(),
        ensures
            final(self).inv(),
            final(self).spec_capacity() == old(self).spec_capacity(),
            old(self).spec_free() > 0 ==> r is Some && final(self).spec_free() == old(
                self,
            ).spec_free() - 1,
            old(self).spec_free() == 0 ==> r is None && final(self).spec_free() == 0,
            final(self).outstanding() <= final(self).spec_capacity(),
    {
        self.free.pop()
    }

    /// Returns a buffer to the pool.
    ///
    /// Only buffers that came out of the pool go back in, so the pool
    /// never grows past its capacity.
    pub fn release(&mut self, buffer: Buffer)
        requires
            old(self).inv(),
            old(self).outstanding() > 0,
        ensures
            final(self).inv(),
            final(self).spec_capacity() == old(self).spec_capacity(),
            final(self).spec_free() == old(self).spec_free() + 1,
            final(self).outstanding() == old(self).outstanding() - 1,
    {
        self.free.push(buffer);
    }
}

/// Backpressure bound: in every reachable pool state, the number of
/// buffers outside the pool is between zero and the pool's capacity.
pub proof fn lemma_backpressure(pool: BufferPool)
    requires
        pool.inv(),
        pool.spec_free() >= 0,
    ensures
        0 <= pool.outstanding() <= pool.spec_capacity(),
{
}

} // verus!
