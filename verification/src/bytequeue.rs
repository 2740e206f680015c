//! The byte queue behind in-memory pipes and sockets: a bounded ring with
//! reader and writer counts and an end-of-file mark.
//!
//! Reads and writes are written as steps: a step either completes or says
//! that the caller must wait (yield) and try again.
use crate::consts::{EAGAIN, EPIPE, POLLERR, POLLIN, POLLOUT};
use crate::ring::{ring_capacity, ring_contents, RingQueue};
use vstd::prelude::*;

verus! {

/// Pipe capacity in bytes.
pub const PIPE_CAPACITY: usize = 65_536;
/// Socket receive capacity in bytes.
pub const UDSOCK_CAPACITY: usize = 212_992;
/// Page size used by the blocking-write heuristic.
pub const PAGE_SIZE: usize = 4096;

/// The abstract state of a byte queue.
pub struct QueueView {
    pub contents: Seq<u8>,
    pub readers: u32,
    pub writers: u32,
    pub eof: bool,
    pub capacity: nat,
}

/// A bounded byte queue.
pub struct ByteQueue {
    ring: RingQueue,
    refcount_write: u32,
    refcount_read: u32,
    eof: bool,
    capacity: usize,
}

/// The outcome of one read step.
pub enum ReadStep {
    /// The read completes with this return value (0 or a negated errno).
    Done(i32),
    /// The read completes with these bytes.
    Data(Vec<u8>),
    /// Nothing to read yet: yield and try again.
    Wait,
}

/// The outcome of one write step.
pub enum WriteStep {
    /// The write completes with this return value (bytes or negated errno).
    Done(i32),
    /// No room now: yield, then continue with this many bytes written.
    Wait(usize),
}

/// The limit a write uses: `limit` clamped to `1..=capacity`.
pub open spec fn clamp_limit(limit: int, capacity: int) -> int {
    if limit < 1 {
        1
    } else if limit > capacity {
        capacity
    } else {
        limit
    }
}

/// Bytes a write may add now: free space, but no more than fills the
/// queue up to the limit.
pub open spec fn write_room(len: int, capacity: int, lim: int) -> int {
    let by_limit = if lim > len {
        lim - len
    } else {
        0
    };
    if capacity - len < by_limit {
        capacity - len
    } else {
        by_limit
    }
}

/// What one read step of up to `count` bytes does to a queue `q` (now `q2`)
/// and returns: queued bytes are taken at once; an empty queue gives 0 at
/// end of file or without writers, `-EAGAIN` when non-blocking, and
/// otherwise asks to wait.
pub open spec fn read_outcome(q: QueueView, q2: QueueView, count: int, nonblocking: bool, r: ReadStep) -> bool {
    if count == 0 {
        r == ReadStep::Done(0) && q2 == q
    } else if q.contents.len() > 0 {
        let n = if count < q.contents.len() {
            count
        } else {
            q.contents.len() as int
        };
        &&& r matches ReadStep::Data(v) && v@ == q.contents.take(n)
        &&& q2 == (QueueView { contents: q.contents.skip(n), ..q })
    } else {
        q2 == q && (if nonblocking {
            if q.eof {
                r == ReadStep::Done(0)
            } else {
                r == ReadStep::Done((-EAGAIN) as i32)
            }
        } else if q.eof || q.writers == 0 {
            r == ReadStep::Done(0)
        } else {
            r == ReadStep::Wait
        })
    }
}

/// What one step of writing `data`, with `written` bytes already done and
/// the fill capped at `limit`, does to a queue `q` (now `q2`) and returns.
///
/// Empty data gives 0. Non-blocking, a queue already filled to the limit
/// gives `-EAGAIN`. Without readers the write fails with `-EPIPE`. With no
/// room, a non-blocking write returns what it wrote (or `-EAGAIN` if
/// nothing) and a blocking one waits; a blocking write with more than a
/// page left also waits while less than a page (and not the whole queue)
/// is free. Otherwise as much as fits is appended: the write completes when
/// everything is written or when it is non-blocking, and waits for room
/// otherwise.
pub open spec fn write_outcome(
    q: QueueView,
    q2: QueueView,
    data: Seq<u8>,
    written: int,
    nonblocking: bool,
    limit: int,
    r: WriteStep,
) -> bool {
    let len = q.contents.len() as int;
    let cap = q.capacity as int;
    let lim = clamp_limit(limit, cap);
    let room = write_room(len, cap, lim);
    let left = data.len() - written;
    let k = if left < room {
        left
    } else {
        room
    };
    if data.len() == 0 {
        r == WriteStep::Done(0) && q2 == q
    } else if nonblocking && len >= lim {
        r == WriteStep::Done((-EAGAIN) as i32) && q2 == q
    } else if q.readers == 0 {
        r == WriteStep::Done((-EPIPE) as i32) && q2 == q
    } else if room == 0 {
        q2 == q && (if nonblocking {
            if written > 0 {
                r == WriteStep::Done(written as i32)
            } else {
                r == WriteStep::Done((-EAGAIN) as i32)
            }
        } else {
            r == WriteStep::Wait(written as usize)
        })
    } else if !nonblocking && room != cap && left > PAGE_SIZE && room < PAGE_SIZE {
        r == WriteStep::Wait(written as usize) && q2 == q
    } else {
        &&& q2 == (QueueView { contents: q.contents + data.subrange(written, written + k), ..q })
        &&& (if written + k == data.len() || nonblocking {
            r == WriteStep::Done((written + k) as i32)
        } else {
            r == WriteStep::Wait((written + k) as usize)
        })
    }
}

/// Poll bits for reading a queue: readable when data is queued, at end of
/// file, or without writers.
pub open spec fn poll_read_bits(q: QueueView) -> i16 {
    if q.contents.len() > 0 || q.eof || q.writers == 0 {
        POLLIN
    } else {
        0
    }
}

/// Poll bits for writing a queue: an error without readers, writable when
/// there is free space.
pub open spec fn poll_write_bits(q: QueueView) -> i16 {
    if q.readers == 0 {
        POLLERR
    } else if q.contents.len() < q.capacity {
        POLLOUT
    } else {
        0
    }
}

impl ByteQueue {
    /// The abstract state.
    pub closed spec fn view(&self) -> QueueView {
        QueueView {
            contents: ring_contents(self.ring),
            readers: self.refcount_read,
            writers: self.refcount_write,
            eof: self.eof,
            capacity: self.capacity as nat,
        }
    }

    /// The ring matches the recorded capacity, which is usable.
    pub closed spec fn wf(&self) -> bool {
        &&& ring_capacity(self.ring) == self.capacity
        &&& 1 <= self.capacity < usize::MAX
        &&& ring_contents(self.ring).len() <= self.capacity
    }

    /// What well-formedness gives callers: a usable capacity that the
    /// contents never exceed.
    pub proof fn lemma_wf(&self)
        requires
            self.wf(),
        ensures
            1 <= self@.capacity < usize::MAX,
            self@.contents.len() <= self@.capacity,
    {
    }

    /// An empty queue of `capacity` bytes with one reader and one writer.
    pub fn new(capacity: usize) -> (r: ByteQueue)
        requires
            1 <= capacity < usize::MAX,
        ensures
            r.wf(),
            r@ == (QueueView {
                contents: Seq::empty(),
                readers: 1,
                writers: 1,
                eof: false,
                capacity: capacity as nat,
            }),
    {
        ByteQueue {
            ring: RingQueue::new(capacity),
            refcount_write: 1,
            refcount_read: 1,
            eof: false,
            capacity,
        }
    }

    /// The capacity in bytes.
    pub fn capacity(&self) -> (r: usize)
        ensures
            r == self@.capacity,
    {
        self.capacity
    }

    /// The reader count.
    pub fn get_read_ref(&self) -> (r: u32)
        ensures
            r == self@.readers,
    {
        self.refcount_read
    }

    /// The writer count.
    pub fn get_write_ref(&self) -> (r: u32)
        ensures
            r == self@.writers,
    {
        self.refcount_write
    }

    /// Drops all readers.
    pub fn close_readers(&mut self)
        requires
            old(self).wf(),
        ensures
            final(self).wf(),
            final(self)@ == (QueueView { readers: 0, ..old(self)@ }),
    {
        self.refcount_read = 0;
    }

    /// Drops all writers and marks end of file.
    pub fn close_writers(&mut self)
        requires
            old(self).wf(),
        ensures
            final(self).wf(),
            final(self)@ == (QueueView { writers: 0, eof: true, ..old(self)@ }),
    {
        self.refcount_write = 0;
        self.eof = true;
    }

    /// One step of a read of up to `count` bytes: queued bytes are taken
    /// at once; an empty queue gives 0 at end of file or without writers,
    /// `-EAGAIN` when non-blocking, and otherwise asks to wait.
    pub fn read_step(&mut self, count: usize, nonblocking: bool) -> (r: ReadStep)
        requires
            old(self).wf(),
        ensures
            final(self).wf(),
            read_outcome(old(self)@, final(self)@, count as int, nonblocking, r),
    {
        if count == 0 {
            return ReadStep::Done(0);
        }
        let len = self.ring.len();
        if len == 0 {
            if nonblocking {
                if self.eof {
                    return ReadStep::Done(0);
                }
                return ReadStep::Done((-EAGAIN) as i32);
            }
            if self.eof || self.refcount_write == 0 {
                return ReadStep::Done(0);
            }
            return ReadStep::Wait;
        }
        let n = if count < len {
            count
        } else {
            len
        };
        let v = self.ring.pop_bytes(n);
        ReadStep::Data(v)
    }

    /// One step of writing `data` with `written` bytes already done, with
    /// the queue's fill capped at `limit` (clamped to `1..=capacity`).
    ///
    /// Empty data gives 0. Non-blocking, a queue already filled to the
    /// limit gives `-EAGAIN`. Without readers the write fails with
    /// `-EPIPE`. With no room, a non-blocking write returns what it wrote
    /// (or `-EAGAIN` if nothing) and a blocking one waits; a blocking write
    /// with more than a page left also waits while less than a page (and
    /// not the whole queue) is free. Otherwise as much as fits is appended:
    /// the write completes when everything is written or when it is
    /// non-blocking, and waits for room otherwise.
    pub fn write_with_limit(&mut self, data: &[u8], written: usize, nonblocking: bool, limit: usize) -> (r:
        WriteStep)
        requires
            old(self).wf(),
            written <= data@.len(),
        ensures
            final(self).wf(),
            write_outcome(old(self)@, final(self)@, data@, written as int, nonblocking, limit as int, r),
    {
        if data.len() == 0 {
            return WriteStep::Done(0);
        }
        let cap = self.capacity;
        let lim = if limit < 1 {
            1
        } else if limit > cap {
            cap
        } else {
            limit
        };
        let len = self.ring.len();
        if nonblocking && len >= lim {
            return WriteStep::Done((-EAGAIN) as i32);
        }
        if self.refcount_read == 0 {
            return WriteStep::Done((-EPIPE) as i32);
        }
        let remaining = self.ring.remaining();
        let by_limit = if lim > len {
            lim - len
        } else {
            0
        };
        let room = if remaining < by_limit {
            remaining
        } else {
            by_limit
        };
        if room == 0 {
            if nonblocking {
                if written > 0 {
                    return WriteStep::Done(written as i32);
                }
                return WriteStep::Done((-EAGAIN) as i32);
            }
            return WriteStep::Wait(written);
        }
        let left = data.len() - written;
        if !nonblocking && room != cap && left > PAGE_SIZE && room < PAGE_SIZE {
            return WriteStep::Wait(written);
        }
        let k = if left < room {
            left
        } else {
            room
        };
        let pushed = self.ring.push_slice(&data[written..written + k]);
        proof {
            assert(data@.subrange(written as int, written + k).take(pushed as int) =~= data@.subrange(
                written as int,
                written + k,
            ));
        }
        let w = written + k;
        if w == data.len() || nonblocking {
            WriteStep::Done(w as i32)
        } else {
            WriteStep::Wait(w)
        }
    }

    /// Poll bits for reading: readable when data is queued, at end of
    /// file, or without writers.
    pub fn poll_read(&self) -> (r: i16)
        requires
            self.wf(),
        ensures
            r == poll_read_bits(self@),
    {
        let has_data = self.ring.len() > 0;
        if has_data || self.eof || self.refcount_write == 0 {
            POLLIN
        } else {
            0
        }
    }

    /// Poll bits for writing: an error without readers, writable when
    /// there is free space.
    pub fn poll_write(&self) -> (r: i16)
        requires
            self.wf(),
        ensures
            r == poll_write_bits(self@),
    {
        if self.refcount_read == 0 {
            return POLLERR;
        }
        if self.ring.remaining() != 0 {
            POLLOUT
        } else {
            0
        }
    }
}

} // verus!
