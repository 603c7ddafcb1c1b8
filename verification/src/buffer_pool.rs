//! Fixed-budget reusable buffers for transport data planes.
//!
//! A [`PooledBuffer`] owns one allocation while it is checked out. The pool never allocates a
//! fallback buffer when exhausted, so queue depth and memory use are bounded by the same fixed
//! number of buffers.

use vstd::prelude::*;

verus! {

#[derive(Debug, Clone, Copy, PartialEq, Eq, Structural)]
pub enum PoolError {
    NoBuffers,
    NoCapacity,
    OutOfMemory,
}

/// One reusable allocation checked out from a [`BufferPool`].
#[derive(Debug)]
pub struct PooledBuffer {
    buffer: Vec<u8>,
}

impl View for PooledBuffer {
    type V = Seq<u8>;

    closed spec fn view(&self) -> Seq<u8> {
        self.buffer@
    }
}

impl PooledBuffer {
    pub fn as_vec_mut(&mut self) -> (buffer: &mut Vec<u8>)
        ensures
            buffer@ == old(self)@,
            final(buffer)@ == final(self)@,
    {
        &mut self.buffer
    }

    pub fn as_slice(&self) -> (bytes: &[u8])
        ensures
            bytes@ == self@,
    {
        self.buffer.as_slice()
    }

    pub fn len(&self) -> (len: usize)
        ensures
            len == self@.len(),
    {
        self.buffer.len()
    }
}

/// A pool as its users see it: how many buffers it was made with, how many of them are at hand,
/// and the size that each was reserved for.
pub struct PoolView {
    pub count: nat,
    pub available: nat,
    pub capacity: nat,
}

pub struct BufferPool {
    available: Vec<PooledBuffer>,
    buffer_count: usize,
    buffer_capacity: usize,
}

impl View for BufferPool {
    type V = PoolView;

    closed spec fn view(&self) -> PoolView {
        PoolView {
            count: self.buffer_count as nat,
            available: self.available@.len(),
            capacity: self.buffer_capacity as nat,
        }
    }
}

impl BufferPool {
    /// Never more buffers at hand than the pool was made with.
    pub open spec fn valid(&self) -> bool {
        self@.available <= self@.count && self@.count > 0 && self@.capacity > 0
    }

    /// A pool of `buffer_count` buffers. Reserving them fails where the allocator says so, which
    /// depends on the machine.
    pub fn new(buffer_count: usize, buffer_capacity: usize) -> (result: Result<
        BufferPool,
        PoolError,
    >)
        ensures
            match result {
                Ok(pool) => pool.valid() && pool@ == (PoolView {
                    count: buffer_count as nat,
                    available: buffer_count as nat,
                    capacity: buffer_capacity as nat,
                }),
                Err(PoolError::NoBuffers) => buffer_count == 0,
                Err(PoolError::NoCapacity) => buffer_count > 0 && buffer_capacity == 0,
                Err(PoolError::OutOfMemory) => buffer_count > 0 && buffer_capacity > 0,
            },
    {
        if buffer_count == 0 {
            return Err(PoolError::NoBuffers);
        }
        if buffer_capacity == 0 {
            return Err(PoolError::NoCapacity);
        }
        let mut available: Vec<PooledBuffer> = Vec::new();
        let mut i: usize = 0;
        while i < buffer_count
            invariant
                i <= buffer_count,
                buffer_count > 0,
                buffer_capacity > 0,
                available@.len() == i,
            decreases buffer_count - i,
        {
            let mut buffer: Vec<u8> = Vec::new();
            if buffer.try_reserve(buffer_capacity).is_err() {
                return Err(PoolError::OutOfMemory);
            }
            available.push(PooledBuffer { buffer });
            i += 1;
        }
        Ok(BufferPool { available, buffer_count, buffer_capacity })
    }

    pub fn buffer_count(&self) -> (count: usize)
        ensures
            count == self@.count,
    {
        self.buffer_count
    }

    pub fn buffer_capacity(&self) -> (capacity: usize)
        ensures
            capacity == self@.capacity,
    {
        self.buffer_capacity
    }

    /// Buffers at hand.
    pub fn available(&self) -> (available: usize)
        ensures
            available == self@.available,
    {
        self.available.len()
    }

    /// Takes an empty buffer without waiting; `None` when all are checked out.
    pub fn try_acquire(&mut self) -> (buffer: Option<PooledBuffer>)
        ensures
            match buffer {
                Some(buffer) => old(self)@.available > 0 && buffer@ == Seq::<u8>::empty()
                    && final(self)@ == (PoolView {
                    available: (old(self)@.available - 1) as nat,
                    ..old(self)@
                }),
                None => old(self)@.available == 0 && final(self)@ == old(self)@,
            },
    {
        match self.available.pop() {
            Some(mut taken) => {
                taken.buffer.clear();
                Some(taken)
            },
            None => None,
        }
    }

    /// Takes back a buffer that was checked out.
    pub fn give_back(&mut self, buffer: PooledBuffer)
        requires
            old(self)@.available < old(self)@.count,
        ensures
            final(self)@ == (PoolView { available: old(self)@.available + 1, ..old(self)@ }),
    {
        self.available.push(buffer);
    }
}

/// A buffer can be taken while one is at hand, and comes empty; one that is given back is at hand
/// again. The pool never changes its size.
pub proof fn law_buffers_come_and_go(buffer: Option<PooledBuffer>, back: PooledBuffer)
    ensures
        forall|pool: &mut BufferPool| #[trigger]
            call_ensures(BufferPool::try_acquire, (pool,), buffer) ==> {
                &&& buffer is Some <==> pool@.available > 0
                &&& buffer is Some ==> buffer->Some_0@.len() == 0 && final(pool)@.available + 1
                    == pool@.available
                &&& buffer is None ==> final(pool)@.available == 0
                &&& final(pool)@.count == pool@.count && final(pool)@.capacity == pool@.capacity
            },
        forall|pool: &mut BufferPool| #[trigger]
            call_ensures(BufferPool::give_back, (pool, back), ()) && pool@.available < pool@.count
                ==> final(pool)@.available == pool@.available + 1 && final(pool)@.count
                == pool@.count && final(pool)@.capacity == pool@.capacity,
{
}

/// A pool has as many buffers at hand as it was made with; without a buffer or without a size
/// there is none.
pub proof fn law_pools_start_full(
    count: usize,
    capacity: usize,
    result: Result<BufferPool, PoolError>,
)
    requires
        call_ensures(BufferPool::new, (count, capacity), result),
    ensures
        count == 0 ==> result is Err && result->Err_0 is NoBuffers,
        count > 0 && capacity == 0 ==> result is Err && result->Err_0 is NoCapacity,
        count > 0 && capacity > 0 && result is Err ==> result->Err_0 is OutOfMemory,
        result matches Ok(pool) ==> pool@.count == count && pool@.available == count
            && pool@.capacity == capacity,
{
}

} // verus!
