//! A pool of reusable byte buffers.
//!
//! Handlers lease a buffer of the pool's fixed size for one read or
//! write and give it back afterwards, so hot paths reuse allocations. A
//! lease taken from an empty pool is freshly allocated.
use vstd::prelude::*;

verus! {

/// A pool of equally sized byte buffers.
pub struct BufferPool {
    pub buffer_size: usize,
    pub free_buffers: Vec<Vec<u8>>,
}

/// One buffer leased out of a pool.
pub struct BufferLease {
    pub buffer: Vec<u8>,
}

impl BufferPool {
    /// Every free buffer held by the pool has the pool's size.
    pub open spec fn wf(&self) -> bool {
        forall|i: int|
            0 <= i < self.free_buffers@.len() ==> (#[trigger] self.free_buffers@[i])@.len()
                == self.buffer_size
    }

    /// A pool of `initial_capacity` zeroed buffers of `buffer_size`
    /// bytes each.
    pub fn new(buffer_size: usize, initial_capacity: usize) -> (r: BufferPool)
        ensures
            r.wf(),
            r.buffer_size == buffer_size,
            r.free_buffers@.len() == initial_capacity,
            forall|i: int, j: int|
                0 <= i < initial_capacity && 0 <= j < buffer_size ==> #[trigger] r.free_buffers@[i]@[j]
                    == 0,
    {
        let mut free_buffers: Vec<Vec<u8>> = Vec::new();
        let mut i: usize = 0;
        while i < initial_capacity
            invariant
                i <= initial_capacity,
                free_buffers@.len() == i,
                forall|k: int|
                    0 <= k < i ==> (#[trigger] free_buffers@[k])@.len() == buffer_size,
                forall|k: int, j: int|
                    0 <= k < i && 0 <= j < buffer_size ==> #[trigger] free_buffers@[k]@[j] == 0,
            decreases initial_capacity - i,
        {
            free_buffers.push(vec![0u8; buffer_size]);
            i = i + 1;
        }
        BufferPool { buffer_size, free_buffers }
    }

    /// Takes one buffer of the pool's size: a pooled one when the pool
    /// holds any, a fresh zeroed one otherwise.
    pub fn lease(&mut self) -> (r: BufferLease)
        requires
            old(self).wf(),
        ensures
            final(self).wf(),
            final(self).buffer_size == old(self).buffer_size,
            r.buffer@.len() == old(self).buffer_size,
            final(self).free_buffers@.len() == if old(self).free_buffers@.len() > 0 {
                old(self).free_buffers@.len() - 1
            } else {
                0
            },
            old(self).free_buffers@.len() == 0 ==> forall|j: int|
                0 <= j < old(self).buffer_size ==> r.buffer@[j] == 0,
            old(self).free_buffers@.len() > 0 ==> r.buffer == old(self).free_buffers@.last(),
    {
        match self.free_buffers.pop() {
            Some(buffer) => BufferLease { buffer },
            None => BufferLease { buffer: vec![0u8; self.buffer_size] },
        }
    }

    /// The size every leased buffer has.
    pub fn get_size(&self) -> (r: usize)
        ensures
            r == self.buffer_size,
    {
        self.buffer_size
    }

    /// Returns a lease to the pool for reuse.
    pub fn give_back(&mut self, lease: BufferLease)
        requires
            old(self).wf(),
            lease.buffer@.len() == old(self).buffer_size,
        ensures
            final(self).wf(),
            final(self).buffer_size == old(self).buffer_size,
            final(self).free_buffers@.len() == old(self).free_buffers@.len() + 1,
    {
        self.free_buffers.push(lease.buffer);
    }
}

impl BufferLease {
    /// How many bytes the leased buffer holds.
    pub fn len(&self) -> (r: usize)
        ensures
            r == self.buffer@.len(),
    {
        self.buffer.len()
    }

    /// The byte at position `i`.
    pub fn get(&self, i: usize) -> (r: u8)
        requires
            i < self.buffer@.len(),
        ensures
            r == self.buffer@[i as int],
    {
        self.buffer[i]
    }

    /// Overwrites the byte at position `i`.
    pub fn set(&mut self, i: usize, value: u8)
        requires
            i < old(self).buffer@.len(),
        ensures
            final(self).buffer@ == old(self).buffer@.update(i as int, value),
    {
        self.buffer[i] = value;
    }
}

} // verus!
