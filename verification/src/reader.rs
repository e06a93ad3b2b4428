//! Draining the framed-audio ring.
//!
//! The receiver writes framed audio records into a ring of equal buffers. The
//! reader polls the write address, copies the buffers that have fully landed
//! and watches for an overflow or a stall of the DMA.

use crate::airband::FRAME_BYTES;
use crate::reader_laws::law_poll_catches_up;
use bytes::Bytes;
use vstd::arithmetic::div_mod::{
    lemma_add_mod_noop_right, lemma_fundamental_div_mod_converse, lemma_mod_bound,
    lemma_mod_self_0, lemma_small_mod,
};
use vstd::prelude::*;

verus! {

/// A write pointer that does not advance for this long (ns) means that the DMA
/// has stalled.
pub const DMA_STALL_TIMEOUT_NS: u64 = 5_000_000_000;

/// An overflow that lasts this long (ns) is a failure.
pub const OVERFLOW_ESCALATE_NS: u64 = 15_000_000_000;

/// An immutable run of bytes that is cheap to share: `bytes::Bytes`.
#[verifier::external_type_specification]
#[verifier::external_body]
pub struct ExBytes(bytes::Bytes);

/// The bytes that a `bytes::Bytes` holds.
pub uninterp spec fn bytes_contents(b: Bytes) -> Seq<u8>;

/// `bytes::Bytes::copy_from_slice`: the result holds a copy of the slice.
pub assume_specification[ Bytes::copy_from_slice ](data: &[u8]) -> (b: Bytes)
    ensures
        bytes_contents(b) == data@,
;

/// Why the reader gives up.
#[derive(Clone, Copy, Debug, PartialEq, Eq, Structural)]
pub enum ReaderError {
    /// The receiver overflowed for too long: the ring is not being drained.
    Overflow,
    /// The write pointer is stuck at this buffer.
    DmaStall { write_buf: usize },
}

/// What one poll of the ring calls for.
#[derive(Debug)]
pub struct Poll {
    /// An overflow has begun and is to be warned about.
    pub warn: bool,
    /// The buffers to copy, in this order, or why to give up.
    pub outcome: Result<Vec<usize>, ReaderError>,
}

/// Reader of the framed-audio ring.
#[derive(Debug)]
pub struct Reader {
    buf_size: usize,
    num_buffers: usize,
    read_buf: usize,
    last_overflow: bool,
    overflow_since: Option<u64>,
    prev_write_buf: usize,
    last_write_change: u64,
}

/// The state of a [`Reader`]. Times are in nanoseconds on one clock.
pub struct ReaderView {
    /// Size of a buffer in bytes.
    pub buf_size: int,
    /// Number of buffers in the ring.
    pub num_buffers: int,
    /// The next buffer to copy.
    pub read_buf: int,
    /// Whether the receiver overflowed at the last poll.
    pub last_overflow: bool,
    /// When the current overflow was first seen.
    pub overflow_since: Option<u64>,
    /// The buffer that was being written at the last poll.
    pub prev_write_buf: int,
    /// When the write pointer was last seen to advance.
    pub last_write_change: u64,
}

impl ReaderView {
    /// Whether the state is one that a reader can be in.
    pub open spec fn wf(self) -> bool {
        &&& self.buf_size > 0
        &&& self.buf_size % FRAME_BYTES as int == 0
        &&& 0 <= self.read_buf < self.num_buffers
        &&& 0 <= self.prev_write_buf < self.num_buffers
    }

    /// The buffer that is being written when the next write goes to `address`.
    pub open spec fn write_buf(self, address: int) -> int {
        (address / self.buf_size) % self.num_buffers
    }

    /// Whether a poll warns of an overflow.
    pub open spec fn warns(self, overflow: bool) -> bool {
        overflow && !self.last_overflow
    }

    /// When the overflow seen by a poll at `now` began.
    pub open spec fn overflow_start(self, now: u64) -> u64 {
        match self.overflow_since {
            Some(since) => since,
            None => now,
        }
    }

    /// Whether a poll finds an overflow that has lasted too long.
    pub open spec fn escalates(self, overflow: bool, now: u64) -> bool {
        overflow && elapsed(self.overflow_start(now), now) >= OVERFLOW_ESCALATE_NS
    }

    /// Whether a poll finds the write pointer stuck for too long.
    pub open spec fn stalls(self, address: int, now: u64) -> bool {
        self.write_buf(address) == self.prev_write_buf && elapsed(self.last_write_change, now)
            >= DMA_STALL_TIMEOUT_NS
    }

    /// How many buffers lie from the next one to copy up to the one that is
    /// being written.
    pub open spec fn behind(self, address: int) -> int {
        (self.write_buf(address) - self.read_buf) % self.num_buffers
    }

    /// How many buffers a poll copies: all that are at least two behind the one
    /// that is being written.
    pub open spec fn ready(self, address: int) -> nat {
        if self.behind(address) >= 2 {
            (self.behind(address) - 1) as nat
        } else {
            0
        }
    }

    /// The next `n` buffers of the ring.
    pub open spec fn next_buffers(self, n: nat) -> Seq<int> {
        Seq::new(n, |i: int| (self.read_buf + i) % self.num_buffers)
    }

    /// The state after a poll has noted the overflow flag.
    pub open spec fn noted(self, overflow: bool, now: u64) -> ReaderView {
        ReaderView {
            last_overflow: overflow,
            overflow_since: if overflow {
                Some(self.overflow_start(now))
            } else {
                None
            },
            ..self
        }
    }

    /// The state after a poll.
    pub open spec fn polled(self, address: int, overflow: bool, now: u64) -> ReaderView {
        if self.escalates(overflow, now) || self.stalls(address, now) {
            self.noted(overflow, now)
        } else {
            ReaderView {
                read_buf: (self.read_buf + self.ready(address)) % self.num_buffers,
                prev_write_buf: self.write_buf(address),
                last_write_change: if self.write_buf(address) != self.prev_write_buf {
                    now
                } else {
                    self.last_write_change
                },
                ..self.noted(overflow, now)
            }
        }
    }

    /// The outcome of a poll: the buffers to copy, or why to give up.
    pub open spec fn outcome(self, address: int, overflow: bool, now: u64) -> Result<
        Seq<int>,
        ReaderError,
    > {
        if self.escalates(overflow, now) {
            Err(ReaderError::Overflow)
        } else if self.stalls(address, now) {
            Err(ReaderError::DmaStall { write_buf: self.write_buf(address) as usize })
        } else {
            Ok(self.next_buffers(self.ready(address)))
        }
    }
}

/// The time from `since` to `now`; none if the clock reads earlier.
pub open spec fn elapsed(since: u64, now: u64) -> int {
    if now >= since {
        now - since
    } else {
        0
    }
}

/// The numbers of a list of buffers.
pub open spec fn numbers(v: Seq<usize>) -> Seq<int> {
    Seq::new(v.len(), |i: int| v[i] as int)
}

/// The time from `since` to `now`; none if the clock reads earlier.
fn elapsed_ns(since: u64, now: u64) -> (ns: u64)
    ensures
        ns == elapsed(since, now),
{
    if now >= since {
        now - since
    } else {
        0
    }
}

impl View for Reader {
    type V = ReaderView;

    closed spec fn view(&self) -> ReaderView {
        ReaderView {
            buf_size: self.buf_size as int,
            num_buffers: self.num_buffers as int,
            read_buf: self.read_buf as int,
            last_overflow: self.last_overflow,
            overflow_since: self.overflow_since,
            prev_write_buf: self.prev_write_buf as int,
            last_write_change: self.last_write_change,
        }
    }
}

impl Reader {
    /// The ring is not empty, its buffers hold whole records, and the reader's
    /// positions lie in it.
    #[verifier::type_invariant]
    pub closed spec fn inv(self) -> bool {
        self@.wf()
    }

    /// A reader that starts at the buffer that is being written.
    pub fn new(buf_size: usize, num_buffers: usize, next_address: usize, now: u64) -> (r: Reader)
        requires
            buf_size > 0,
            buf_size % FRAME_BYTES == 0,
            num_buffers > 0,
        ensures
            r@.wf(),
            r@.buf_size == buf_size,
            r@.num_buffers == num_buffers,
            r@.read_buf == r@.write_buf(next_address as int),
            r@.read_buf == (next_address as int / buf_size as int) % num_buffers as int,
            r@.last_overflow == false,
            r@.overflow_since is None,
            r@.prev_write_buf == r@.read_buf,
            r@.last_write_change == now,
    {
        let read_buf: usize = (next_address / buf_size) % num_buffers;
        Reader {
            buf_size,
            num_buffers,
            read_buf,
            last_overflow: false,
            overflow_since: None,
            prev_write_buf: read_buf,
            last_write_change: now,
        }
    }

    /// Polls the ring: takes the address of the next write, the overflow flag
    /// and the time, and says what to copy.
    pub fn poll(&mut self, next_address: usize, overflow: bool, now: u64) -> (p: Poll)
        ensures
            old(self)@.wf(),
            final(self)@ == old(self)@.polled(next_address as int, overflow, now),
            final(self)@.wf(),
            p.warn == old(self)@.warns(overflow),
            match p.outcome {
                Ok(buffers) => old(self)@.outcome(next_address as int, overflow, now) == Ok::<
                    Seq<int>,
                    ReaderError,
                >(numbers(buffers@)),
                Err(e) => old(self)@.outcome(next_address as int, overflow, now) == Err::<
                    Seq<int>,
                    ReaderError,
                >(e),
            },
            p.outcome is Ok ==> ((next_address as int / old(self)@.buf_size)
                % old(self)@.num_buffers - final(self)@.read_buf) % old(self)@.num_buffers < 2,
            p.outcome matches Ok(buffers) ==> forall|i: int|
                0 <= i < buffers@.len() ==> #[trigger] buffers@[i] == (old(self)@.read_buf + i)
                    % old(self)@.num_buffers,
    {
        let ghost s = self@;
        proof {
            use_type_invariant(&*self);
        }
        let write_buf: usize = (next_address / self.buf_size) % self.num_buffers;
        let warn = overflow && !self.last_overflow;
        self.last_overflow = overflow;
        if overflow {
            let since: u64 = match self.overflow_since {
                Some(since) => since,
                None => now,
            };
            self.overflow_since = Some(since);
            if elapsed_ns(since, now) >= OVERFLOW_ESCALATE_NS {
                return Poll { warn, outcome: Err(ReaderError::Overflow) };
            }
        } else {
            self.overflow_since = None;
        }
        if write_buf != self.prev_write_buf {
            self.prev_write_buf = write_buf;
            self.last_write_change = now;
        } else if elapsed_ns(self.last_write_change, now) >= DMA_STALL_TIMEOUT_NS {
            return Poll { warn, outcome: Err(ReaderError::DmaStall { write_buf }) };
        }
        let buffers = self.drain(write_buf);
        proof {
            law_poll_catches_up(s, next_address as int, overflow, now);
            let taken = s.next_buffers(s.ready(next_address as int));
            assert(numbers(buffers@) =~= taken);
            assert forall|i: int| 0 <= i < buffers@.len() implies #[trigger] buffers@[i] == (
            s.read_buf + i) % s.num_buffers by {
                assert(numbers(buffers@)[i] == taken[i]);
            }
        }
        Poll { warn, outcome: Ok(buffers) }
    }

    /// Takes the buffers that are at least two behind the one that is being
    /// written. The DMA issues bursts up to two ahead of the data that has
    /// landed, so these hold no byte that is still in flight.
    fn drain(&mut self, write_buf: usize) -> (buffers: Vec<usize>)
        requires
            write_buf < old(self)@.num_buffers,
        ensures
            final(self)@.wf(),
            ({
                let s = old(self)@;
                let gap = (write_buf - s.read_buf) % s.num_buffers;
                let n: nat = if gap >= 2 {
                    (gap - 1) as nat
                } else {
                    0
                };
                &&& numbers(buffers@) == s.next_buffers(n)
                &&& final(self)@ == (ReaderView {
                    read_buf: (s.read_buf + n) % s.num_buffers,
                    ..s
                })
            }),
    {
        proof {
            use_type_invariant(&*self);
        }
        let ghost s = self@;
        let gap: usize = if write_buf >= self.read_buf {
            write_buf - self.read_buf
        } else {
            self.num_buffers - (self.read_buf - write_buf)
        };
        proof {
            let d = write_buf - s.read_buf;
            if d < 0 {
                lemma_fundamental_div_mod_converse(
                    d,
                    s.num_buffers,
                    -1,
                    gap as int,
                );
            } else {
                lemma_fundamental_div_mod_converse(
                    d,
                    s.num_buffers,
                    0,
                    gap as int,
                );
            }
        }
        let mut buffers: Vec<usize> = Vec::new();
        let mut left: usize = gap;
        assert(numbers(buffers@) =~= s.next_buffers(0));
        proof {
            lemma_small_mod(s.read_buf as nat, s.num_buffers as nat);
        }
        let ghost mut n: nat = 0;
        while left >= 2
            invariant
                s.wf(),
                left + n == gap,
                self@ == (ReaderView { read_buf: (s.read_buf + n) % s.num_buffers, ..s }),
                numbers(buffers@) == s.next_buffers(n),
                left >= 1 || n == 0,
            decreases left,
        {
            proof {
                let x = (s.read_buf + n) % s.num_buffers;
                lemma_mod_bound(s.read_buf + n, s.num_buffers);
                lemma_add_mod_noop_right(1, s.read_buf + n, s.num_buffers);
                if x + 1 == s.num_buffers {
                    lemma_mod_self_0(s.num_buffers);
                } else {
                    lemma_small_mod((x + 1) as nat, s.num_buffers as nat);
                }
            }
            let ghost before = buffers@;
            buffers.push(self.read_buf);
            self.read_buf = if self.read_buf + 1 == self.num_buffers {
                0
            } else {
                self.read_buf + 1
            };
            left = left - 1;
            proof {
                assert(numbers(buffers@) =~= numbers(before).push((s.read_buf + n) % s.num_buffers));
                assert(s.next_buffers(n + 1) =~= s.next_buffers(n).push(
                    (s.read_buf + n) % s.num_buffers,
                ));
                n = n + 1;
            }
        }
        buffers
    }

    /// The chunk that is sent to the clients for one buffer of the ring.
    pub fn chunk(&self, data: &[u8]) -> (chunk: Bytes)
        ensures
            bytes_contents(chunk) == data@,
            data@.len() == self@.buf_size ==> bytes_contents(chunk).len() % FRAME_BYTES as nat == 0,
            data@.len() == self@.buf_size ==> bytes_contents(chunk).len() % 8 == 0,
    {
        proof {
            use_type_invariant(self);
        }
        Bytes::copy_from_slice(data)
    }
}

} // verus!
