//! A byte ring buffer of the `ringbuf` crate, split into its producer and
//! consumer halves and held as one value, so that what one half pushes is
//! what the other half pops.
use ringbuf::{Consumer, Producer, RingBuffer};
use vstd::prelude::*;

verus! {

/// The two halves of one `ringbuf::RingBuffer<u8>`.
#[verifier::external_body]
pub struct RingQueue {
    prod: Producer<u8>,
    cons: Consumer<u8>,
}

/// The bytes queued in the ring, oldest first.
pub uninterp spec fn ring_contents(q: RingQueue) -> Seq<u8>;

/// The capacity the ring was made with.
pub uninterp spec fn ring_capacity(q: RingQueue) -> nat;

impl RingQueue {
    /// Calls `RingBuffer::new(capacity)` and `split`: an empty ring of
    /// `capacity` bytes (the crate allocates one slot more).
    #[verifier::external_body]
    pub fn new(capacity: usize) -> (r: RingQueue)
        requires
            capacity < usize::MAX,
        ensures
            ring_contents(r) == Seq::<u8>::empty(),
            ring_capacity(r) == capacity,
    {
        let (prod, cons) = RingBuffer::<u8>::new(capacity).split();
        RingQueue { prod, cons }
    }

    /// Calls `Consumer::len`: the number of queued bytes, never above the
    /// capacity.
    #[verifier::external_body]
    pub fn len(&self) -> (r: usize)
        ensures
            r == ring_contents(*self).len(),
            r <= ring_capacity(*self),
    {
        self.cons.len()
    }

    /// Calls `Producer::remaining`: the free space, capacity minus length.
    #[verifier::external_body]
    pub fn remaining(&self) -> (r: usize)
        ensures
            r == ring_capacity(*self) - ring_contents(*self).len(),
    {
        self.prod.remaining()
    }

    /// Calls `Producer::push_slice`: appends as many leading bytes of
    /// `data` as fit and returns how many that was.
    #[verifier::external_body]
    pub fn push_slice(&mut self, data: &[u8]) -> (r: usize)
        ensures
            r == (if data@.len() <= ring_capacity(*old(self)) - ring_contents(*old(self)).len() {
                data@.len() as int
            } else {
                ring_capacity(*old(self)) - ring_contents(*old(self)).len()
            }),
            ring_contents(*final(self)) == ring_contents(*old(self)) + data@.take(r as int),
            ring_capacity(*final(self)) == ring_capacity(*old(self)),
    {
        self.prod.push_slice(data)
    }

    /// Calls `Consumer::pop_slice` on a buffer of `n` bytes: removes and
    /// returns the `n` oldest bytes.
    #[verifier::external_body]
    pub fn pop_bytes(&mut self, n: usize) -> (r: Vec<u8>)
        requires
            n <= ring_contents(*old(self)).len(),
        ensures
            r@ == ring_contents(*old(self)).take(n as int),
            ring_contents(*final(self)) == ring_contents(*old(self)).skip(n as int),
            ring_capacity(*final(self)) == ring_capacity(*old(self)),
    {
        let mut buf = vec![0u8; n];
        self.cons.pop_slice(&mut buf);
        buf
    }
}

} // verus!
