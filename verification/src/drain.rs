//! Copying the buffers that a poll of the ring has found ready.
//!
//! The processor may hold stale cache lines of a buffer that the DMA has
//! written. A buffer is copied and sent only once its cache lines have been
//! invalidated.

use crate::reader::numbers;
use vstd::prelude::*;

verus! {

/// The cache lines of a buffer could not be invalidated.
#[derive(Debug)]
pub struct CacheError {
    /// The buffer.
    pub buffer: usize,
    /// The system's message.
    pub message: String,
}

/// The buffers that are left to invalidate and send, in order.
#[derive(Debug)]
pub struct Drain {
    buffers: Vec<usize>,
    sent: usize,
}

/// The buffers that are sent once the next invalidation has succeeded or
/// failed: the next one if it succeeded, else none.
pub open spec fn sent_now(left: Seq<int>, ok: bool) -> Seq<int> {
    if ok && left.len() > 0 {
        seq![left[0]]
    } else {
        Seq::empty()
    }
}

/// The buffers that are left after that.
pub open spec fn left_after(left: Seq<int>, ok: bool) -> Seq<int> {
    if ok && left.len() > 0 {
        left.drop_first()
    } else {
        left
    }
}

/// The buffers that [`Drain::invalidated`] hands out to be sent.
pub open spec fn handed_out(r: Result<Option<usize>, CacheError>) -> Seq<int> {
    match r {
        Ok(Some(buffer)) => seq![buffer as int],
        _ => Seq::empty(),
    }
}

impl View for Drain {
    type V = Seq<int>;

    closed spec fn view(&self) -> Seq<int> {
        numbers(self.buffers@).skip(self.sent as int)
    }
}

impl Drain {
    /// No more buffers have been sent than there were.
    #[verifier::type_invariant]
    pub closed spec fn inv(self) -> bool {
        self.sent <= self.buffers@.len()
    }

    /// The buffers that a poll calls for.
    pub fn new(buffers: Vec<usize>) -> (d: Drain)
        ensures
            d@ == numbers(buffers@),
    {
        let d = Drain { buffers, sent: 0 };
        assert(d@ =~= numbers(buffers@));
        d
    }

    /// The buffer whose cache lines to invalidate next, or `None` when all
    /// buffers have been sent.
    pub fn next(&self) -> (buffer: Option<usize>)
        ensures
            match buffer {
                Some(b) => self@.len() > 0 && b == self@[0],
                None => self@.len() == 0,
            },
    {
        proof {
            use_type_invariant(self);
        }
        if self.sent < self.buffers.len() {
            Some(self.buffers[self.sent])
        } else {
            None
        }
    }

    /// Takes the outcome of invalidating the next buffer, and gives the buffer
    /// to send: that buffer. Where the cache lines could not be invalidated,
    /// the buffer is not sent, and the error names it.
    pub fn invalidated(&mut self, outcome: Result<(), String>) -> (r: Result<
        Option<usize>,
        CacheError,
    >)
        ensures
            handed_out(r) == sent_now(old(self)@, outcome is Ok),
            final(self)@ == left_after(old(self)@, outcome is Ok),
            match r {
                Ok(Some(buffer)) => {
                    &&& outcome is Ok
                    &&& old(self)@.len() > 0
                    &&& buffer == old(self)@[0]
                    &&& final(self)@ == old(self)@.drop_first()
                },
                Ok(None) => old(self)@.len() == 0,
                Err(e) => {
                    &&& final(self)@ == old(self)@
                    &&& outcome == Err::<(), String>(e.message)
                    &&& old(self)@.len() > 0
                    &&& e.buffer == old(self)@[0]
                },
            },
    {
        proof {
            use_type_invariant(&*self);
        }
        let ghost before = self@;
        if self.sent == self.buffers.len() {
            return Ok(None);
        }
        let buffer: usize = self.buffers[self.sent];
        match outcome {
            Ok(()) => {
                self.sent = self.sent + 1;
                assert(self@ =~= before.drop_first());
                Ok(Some(buffer))
            },
            Err(message) => Err(CacheError { buffer, message }),
        }
    }
}

/// The buffers that a run of [`Drain::invalidated`] hands out when the
/// invalidations in turn succeed or fail as given. The first failure ends the
/// run.
pub open spec fn sent_by(buffers: Seq<int>, outcomes: Seq<bool>) -> Seq<int>
    decreases buffers.len(),
{
    if buffers.len() == 0 || outcomes.len() == 0 || !outcomes[0] {
        Seq::empty()
    } else {
        sent_now(buffers, outcomes[0]) + sent_by(
            left_after(buffers, outcomes[0]),
            outcomes.drop_first(),
        )
    }
}

/// The buffers are sent in order and without a gap, each after its own
/// invalidation has succeeded; the one whose invalidation fails is not sent,
/// and none is after it.
pub proof fn law_sent_only_after_invalidation(buffers: Seq<int>, outcomes: Seq<bool>)
    ensures
        ({
            let k = sent_by(buffers, outcomes).len() as int;
            &&& k <= buffers.len()
            &&& k <= outcomes.len()
            &&& sent_by(buffers, outcomes) == buffers.take(k)
            &&& forall|i: int| 0 <= i < k ==> outcomes[i]
            &&& k < buffers.len() && k < outcomes.len() ==> !outcomes[k]
        }),
    decreases buffers.len(),
{
    let sent = sent_by(buffers, outcomes);
    let k = sent.len() as int;
    if buffers.len() == 0 || outcomes.len() == 0 || !outcomes[0] {
        assert(sent =~= buffers.take(k));
    } else {
        let rest = buffers.drop_first();
        let later = outcomes.drop_first();
        law_sent_only_after_invalidation(rest, later);
        assert(sent =~= buffers.take(k)) by {
            assert forall|i: int| 0 <= i < k implies sent[i] == buffers[i] by {
                if i > 0 {
                    assert(sent[i] == sent_by(rest, later)[i - 1]);
                    assert(rest.take(k - 1)[i - 1] == rest[i - 1]);
                }
            }
        }
        assert forall|i: int| 0 <= i < k implies outcomes[i] by {
            if i > 0 {
                assert(later[i - 1]);
            }
        }
        if k < buffers.len() && k < outcomes.len() {
            assert(!later[k - 1]);
        }
    }
}

/// What is handed out and what is left are together what there was, in order.
/// One buffer is handed out for a success while there is one, none for a
/// failure.
pub proof fn law_one_buffer_for_a_success(left: Seq<int>, ok: bool, buffer: usize)
    ensures
        sent_now(left, ok) + left_after(left, ok) == left,
        sent_now(left, ok).len() == if ok && left.len() > 0 {
            1nat
        } else {
            0
        },
        handed_out(Ok(Some(buffer))) == seq![buffer as int],
        handed_out(Ok(None)).len() == 0,
{
    assert(sent_now(left, ok) + left_after(left, ok) =~= left);
}

} // verus!
