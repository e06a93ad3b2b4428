//! Laws of the ring reader.

use crate::reader::{
    elapsed, numbers, ReaderError, ReaderView, DMA_STALL_TIMEOUT_NS, OVERFLOW_ESCALATE_NS,
};
use vstd::arithmetic::div_mod::{
    lemma_add_mod_noop_right, lemma_fundamental_div_mod, lemma_mod_bound,
    lemma_mod_multiples_vanish, lemma_small_mod, lemma_sub_mod_noop_right,
};
use vstd::prelude::*;

verus! {

/// The distance to the write pointer from `i` buffers past the next one.
proof fn lemma_distance(s: ReaderView, address: int, i: int)
    requires
        s.wf(),
        0 <= i <= s.behind(address),
    ensures
        0 <= s.behind(address) < s.num_buffers,
        (s.write_buf(address) - (s.read_buf + i) % s.num_buffers) % s.num_buffers == s.behind(
            address,
        ) - i,
{
    let n = s.num_buffers;
    let d = s.write_buf(address) - s.read_buf;
    lemma_mod_bound(d, n);
    lemma_sub_mod_noop_right(s.write_buf(address), s.read_buf + i, n);
    lemma_fundamental_div_mod(d, n);
    let q = d / n;
    let g = s.behind(address) - i;
    assert(d - i == n * q + g);
    lemma_mod_multiples_vanish(q, g, n);
    lemma_small_mod(g as nat, n as nat);
}

/// Every buffer that a poll copies is at least two behind the one that is
/// being written: no byte in flight is read.
pub proof fn law_nothing_in_flight(s: ReaderView, address: int, i: int)
    requires
        s.wf(),
        0 <= i < s.ready(address),
    ensures
        0 <= s.next_buffers(s.ready(address))[i] < s.num_buffers,
        (s.write_buf(address) - s.next_buffers(s.ready(address))[i]) % s.num_buffers >= 2,
{
    lemma_distance(s, address, i);
    lemma_mod_bound(s.read_buf + i, s.num_buffers);
}

/// A poll leaves nothing behind that could be copied.
pub proof fn law_caught_up(s: ReaderView, address: int, overflow: bool, now: u64)
    requires
        s.wf(),
        s.outcome(address, overflow, now) is Ok,
    ensures
        s.polled(address, overflow, now).ready(address) == 0,
{
    lemma_mod_bound(s.write_buf(address) - s.read_buf, s.num_buffers);
    lemma_distance(s, address, s.ready(address) as int);
}

/// After a poll that does not fail, the next buffer to copy is the one that is
/// being written or the one before it: the distance from it to the write
/// pointer, round the ring, is less than two.
pub proof fn law_poll_catches_up(s: ReaderView, address: int, overflow: bool, now: u64)
    requires
        s.wf(),
        s.outcome(address, overflow, now) is Ok,
    ensures
        0 <= ((address / s.buf_size) % s.num_buffers - s.polled(address, overflow, now).read_buf)
            % s.num_buffers < 2,
{
    let t = s.polled(address, overflow, now);
    lemma_mod_bound(s.write_buf(address) - s.read_buf, s.num_buffers);
    lemma_distance(s, address, s.ready(address) as int);
    lemma_mod_bound((address / s.buf_size) % s.num_buffers - t.read_buf, s.num_buffers);
}

/// A poll that does not fail copies the buffers of the ring in turn, from the
/// next one on, less than once round, and then stands behind the last of them.
/// Each is at least two behind the one that is being written.
pub proof fn law_poll_copies_in_turn(s: ReaderView, address: int, overflow: bool, now: u64)
    requires
        s.wf(),
        s.outcome(address, overflow, now) is Ok,
    ensures
        ({
            let buffers = s.outcome(address, overflow, now)->Ok_0;
            let n = s.num_buffers;
            &&& buffers.len() < n
            &&& s.polled(address, overflow, now).read_buf == (s.read_buf + buffers.len()) % n
            &&& forall|i: int|
                0 <= i < buffers.len() ==> #[trigger] buffers[i] == (s.read_buf + i) % n && 0
                    <= buffers[i] < n && ((address / s.buf_size) % n - buffers[i]) % n >= 2
        }),
{
    let buffers = s.outcome(address, overflow, now)->Ok_0;
    let n = s.num_buffers;
    lemma_mod_bound(s.write_buf(address) - s.read_buf, n);
    assert forall|i: int| 0 <= i < buffers.len() implies #[trigger] buffers[i] == (s.read_buf + i)
        % n && 0 <= buffers[i] < n && ((address / s.buf_size) % n - buffers[i]) % n >= 2 by {
        law_nothing_in_flight(s, address, i);
    }
}

/// When a poll fails. It reports an overflow exactly when the receiver
/// overflows and this was first seen 15 s ago or more. Otherwise it reports a
/// stall exactly when the write pointer is where it was at the last poll, and
/// has been there for 5 s or more.
pub proof fn law_poll_fails(s: ReaderView, address: int, overflow: bool, now: u64)
    requires
        s.wf(),
    ensures
        ({
            let overflowed = overflow && (s.overflow_since matches Some(since) && now - since
                >= 15_000_000_000);
            let stuck = (address / s.buf_size) % s.num_buffers == s.prev_write_buf && now
                - s.last_write_change >= 5_000_000_000;
            &&& s.outcome(address, overflow, now) == Err::<Seq<int>, ReaderError>(
                ReaderError::Overflow,
            ) <==> overflowed
            &&& s.outcome(address, overflow, now) == Err::<Seq<int>, ReaderError>(
                ReaderError::DmaStall { write_buf: s.prev_write_buf as usize },
            ) <==> stuck && !overflowed
            &&& s.outcome(address, overflow, now) is Ok <==> !stuck && !overflowed
        }),
{
}

/// What a poll keeps in mind: the ring stays, the overflow flag is noted, the
/// time of an overflow's first sighting stays until a poll sees none, and the
/// time of the write pointer's last move is the time of the poll if it has
/// moved. A poll that fails does not move the reader.
pub proof fn law_poll_remembers(s: ReaderView, address: int, overflow: bool, now: u64)
    requires
        s.wf(),
    ensures
        ({
            let t = s.polled(address, overflow, now);
            let write_buf = (address / s.buf_size) % s.num_buffers;
            &&& t.wf()
            &&& t.buf_size == s.buf_size
            &&& t.num_buffers == s.num_buffers
            &&& t.last_overflow == overflow
            &&& !overflow ==> t.overflow_since is None
            &&& overflow && s.overflow_since is Some ==> t.overflow_since == s.overflow_since
            &&& overflow && s.overflow_since is None ==> t.overflow_since == Some(now)
            &&& s.outcome(address, overflow, now) is Ok ==> t.prev_write_buf == write_buf
            &&& s.outcome(address, overflow, now) is Err ==> t.prev_write_buf
                == s.prev_write_buf && t.read_buf == s.read_buf
            &&& t.prev_write_buf != s.prev_write_buf ==> t.last_write_change == now
            &&& t.prev_write_buf == s.prev_write_buf ==> t.last_write_change
                == s.last_write_change
        }),
{
    lemma_mod_bound(address / s.buf_size, s.num_buffers);
    lemma_mod_bound(s.read_buf + s.ready(address), s.num_buffers);
}

/// A reader's ring has a buffer at least, and its buffers hold whole records of
/// 8 bytes.
pub proof fn law_ring_holds_whole_records(s: ReaderView)
    requires
        s.wf(),
    ensures
        s.num_buffers >= 1,
        s.buf_size >= 8,
        s.buf_size % 8 == 0,
        0 <= s.read_buf < s.num_buffers,
{
}

/// The numbers of a list of buffers are its entries, one by one.
pub proof fn law_numbers_are_the_entries(v: Seq<usize>)
    ensures
        numbers(v).len() == v.len(),
        forall|i: int| 0 <= i < v.len() ==> #[trigger] numbers(v)[i] == v[i],
{
}

/// No buffer is copied twice by one poll.
pub proof fn law_no_buffer_twice(s: ReaderView, address: int, i: int, j: int)
    requires
        s.wf(),
        0 <= i < j < s.ready(address),
    ensures
        s.next_buffers(s.ready(address))[i] != s.next_buffers(s.ready(address))[j],
{
    lemma_distance(s, address, i);
    lemma_distance(s, address, j);
}

/// One poll: the address of the next write, the overflow flag and the time.
pub struct Observation {
    pub address: int,
    pub overflow: bool,
    pub now: u64,
}

/// The state after a run of polls.
pub open spec fn state_after(s: ReaderView, polls: Seq<Observation>) -> ReaderView
    decreases polls.len(),
{
    if polls.len() == 0 {
        s
    } else {
        let p = polls.last();
        state_after(s, polls.drop_last()).polled(p.address, p.overflow, p.now)
    }
}

/// Whether none of a run of polls fails.
pub open spec fn all_succeed(s: ReaderView, polls: Seq<Observation>) -> bool
    decreases polls.len(),
{
    polls.len() == 0 || {
        let p = polls.last();
        &&& all_succeed(s, polls.drop_last())
        &&& state_after(s, polls.drop_last()).outcome(p.address, p.overflow, p.now) is Ok
    }
}

/// The buffers that a run of polls copies, in order.
pub open spec fn copied(s: ReaderView, polls: Seq<Observation>) -> Seq<int>
    decreases polls.len(),
{
    if polls.len() == 0 {
        Seq::empty()
    } else {
        let p = polls.last();
        copied(s, polls.drop_last()) + state_after(s, polls.drop_last()).outcome(
            p.address,
            p.overflow,
            p.now,
        )->Ok_0
    }
}

/// Whatever a run of polls sees, what it copies is one unbroken run of the
/// ring from where the reader stood: no buffer is skipped and none is taken
/// out of turn. The reader then stands behind the last buffer copied.
pub proof fn law_run_is_contiguous(s: ReaderView, polls: Seq<Observation>)
    requires
        s.wf(),
        all_succeed(s, polls),
    ensures
        state_after(s, polls).wf(),
        state_after(s, polls).num_buffers == s.num_buffers,
        state_after(s, polls).read_buf == (s.read_buf + copied(s, polls).len()) % s.num_buffers,
        copied(s, polls) == s.next_buffers(copied(s, polls).len()),
    decreases polls.len(),
{
    let n = s.num_buffers;
    if polls.len() == 0 {
        lemma_small_mod(s.read_buf as nat, n as nat);
        assert(copied(s, polls) =~= s.next_buffers(0));
    } else {
        let p = polls.last();
        let front = polls.drop_last();
        law_run_is_contiguous(s, front);
        let t = state_after(s, front);
        let done = copied(s, front);
        let a = done.len();
        let b = t.ready(p.address);
        lemma_mod_bound(p.address / t.buf_size, n);
        lemma_mod_bound(t.read_buf + b, n);
        lemma_add_mod_noop_right(b as int, s.read_buf + a, n);
        assert(b + (s.read_buf + a) == s.read_buf + (a + b));
        let lhs = copied(s, polls);
        let rhs = s.next_buffers(a + b);
        assert forall|k: int| 0 <= k < a + b implies lhs[k] == rhs[k] by {
            if k >= a {
                let i = k - a;
                lemma_add_mod_noop_right(i, s.read_buf + a, n);
                assert(i + (s.read_buf + a) == s.read_buf + k);
            } else {
                assert(lhs[k] == done[k]);
            }
        }
        assert(lhs =~= rhs);
    }
}

/// While every poll finds the write pointer where it was, the time at which it
/// last advanced stays, and a stall is reported exactly once the timeout has
/// passed since then.
pub proof fn law_stall_is_reported(s: ReaderView, polls: Seq<Observation>, p: Observation)
    requires
        s.wf(),
        all_succeed(s, polls),
        forall|i: int|
            0 <= i < polls.len() ==> s.write_buf(#[trigger] polls[i].address) == s.prev_write_buf,
        s.write_buf(p.address) == s.prev_write_buf,
        !state_after(s, polls).escalates(p.overflow, p.now),
    ensures
        state_after(s, polls).outcome(p.address, p.overflow, p.now) == Err::<Seq<int>, ReaderError>(
            ReaderError::DmaStall { write_buf: s.prev_write_buf as usize },
        ) <==> elapsed(s.last_write_change, p.now) >= DMA_STALL_TIMEOUT_NS,
{
    lemma_stuck(s, polls);
}

/// Polls that find the write pointer where it was do not move its clock.
proof fn lemma_stuck(s: ReaderView, polls: Seq<Observation>)
    requires
        all_succeed(s, polls),
        forall|i: int|
            0 <= i < polls.len() ==> s.write_buf(#[trigger] polls[i].address) == s.prev_write_buf,
    ensures
        state_after(s, polls).buf_size == s.buf_size,
        state_after(s, polls).num_buffers == s.num_buffers,
        state_after(s, polls).prev_write_buf == s.prev_write_buf,
        state_after(s, polls).last_write_change == s.last_write_change,
    decreases polls.len(),
{
    if polls.len() > 0 {
        let front = polls.drop_last();
        assert forall|i: int| 0 <= i < front.len() implies s.write_buf(
            #[trigger] front[i].address,
        ) == s.prev_write_buf by {
            assert(front[i] == polls[i]);
        }
        lemma_stuck(s, front);
        assert(s.write_buf(polls[polls.len() - 1].address) == s.prev_write_buf);
    }
}

/// A write pointer that has advanced since the last poll is never a stall.
pub proof fn law_advancing_never_stalls(s: ReaderView, address: int, overflow: bool, now: u64)
    requires
        s.wf(),
        s.write_buf(address) != s.prev_write_buf,
        !s.escalates(overflow, now),
    ensures
        s.outcome(address, overflow, now) is Ok,
{
}

/// While every poll sees an overflow, the time at which it was first seen
/// stays, and it is a failure exactly once it has lasted too long.
pub proof fn law_overflow_escalates(s: ReaderView, polls: Seq<Observation>, p: Observation)
    requires
        all_succeed(s, polls),
        polls.len() > 0,
        forall|i: int| 0 <= i < polls.len() ==> (#[trigger] polls[i]).overflow,
        p.overflow,
    ensures
        state_after(s, polls).overflow_since == Some(s.overflow_start(polls[0].now)),
        state_after(s, polls).outcome(p.address, p.overflow, p.now) == Err::<Seq<int>, ReaderError>(
            ReaderError::Overflow,
        ) <==> elapsed(s.overflow_start(polls[0].now), p.now) >= OVERFLOW_ESCALATE_NS,
    decreases polls.len(),
{
    let front = polls.drop_last();
    assert(polls[polls.len() - 1].overflow);
    if front.len() > 0 {
        assert forall|i: int| 0 <= i < front.len() implies (#[trigger] front[i]).overflow by {
            assert(front[i] == polls[i]);
        }
        law_overflow_escalates(s, front, p);
    }
}

/// A poll that sees no overflow never fails for one, and starts the clock
/// afresh: an overflow that is first seen at the next poll does not fail then.
pub proof fn law_overflow_recovers(
    s: ReaderView,
    address1: int,
    now1: u64,
    address2: int,
    now2: u64,
)
    requires
        s.wf(),
    ensures
        s.outcome(address1, false, now1) != Err::<Seq<int>, ReaderError>(ReaderError::Overflow),
        s.polled(address1, false, now1).outcome(address2, true, now2) != Err::<
            Seq<int>,
            ReaderError,
        >(ReaderError::Overflow),
{
}

/// An overflow is warned about once: by the first poll that sees it, and not
/// again while it lasts.
pub proof fn law_warned_once(s: ReaderView, address: int, overflow: bool, now: u64)
    ensures
        s.warns(true) <==> !s.last_overflow,
        !s.warns(false),
        s.polled(address, true, now).warns(overflow) == false,
        s.polled(address, false, now).warns(overflow) == overflow,
{
}

} // verus!
