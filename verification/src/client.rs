//! Forwarding chunks to a connected client.

use crate::reader::bytes_contents;
use bytes::Bytes;
use vstd::prelude::*;

verus! {

/// What has happened to a client.
#[derive(Debug)]
pub enum ClientEvent {
    /// This chunk has arrived for it.
    Chunk(Bytes),
    /// The chunk has been written to it.
    Written,
    /// It has fallen behind and lost this many chunks.
    Lagged(u64),
    /// No more chunks will arrive.
    Closed,
    /// The chunk could not be written to it.
    WriteFailed,
}

/// What to do for a client next.
#[derive(Debug)]
pub enum ClientStep {
    /// Write this chunk.
    Write(Bytes),
    /// Wait for the next chunk.
    Receive,
    /// Let the client go.
    Stop,
}

/// What follows an event. A chunk that arrives is written as it is. A client
/// that lags only loses chunks; it is let go when it cannot be written to or
/// when the stream ends.
pub open spec fn step_after(event: ClientEvent) -> ClientStep {
    match event {
        ClientEvent::Chunk(chunk) => ClientStep::Write(chunk),
        ClientEvent::Written => ClientStep::Receive,
        ClientEvent::Lagged(_) => ClientStep::Receive,
        ClientEvent::Closed => ClientStep::Stop,
        ClientEvent::WriteFailed => ClientStep::Stop,
    }
}

/// Decides what to do for a client.
pub fn client_step(event: ClientEvent) -> (step: ClientStep)
    ensures
        step == step_after(event),
{
    match event {
        ClientEvent::Chunk(chunk) => ClientStep::Write(chunk),
        ClientEvent::Written => ClientStep::Receive,
        ClientEvent::Lagged(_) => ClientStep::Receive,
        ClientEvent::Closed => ClientStep::Stop,
        ClientEvent::WriteFailed => ClientStep::Stop,
    }
}

/// Whether an event can come of a step: a wait gives a chunk, a lag or the end
/// of the stream, a write succeeds or fails, and nothing comes after a stop.
pub open spec fn answers(step: ClientStep, event: ClientEvent) -> bool {
    match step {
        ClientStep::Receive => event is Chunk || event is Lagged || event is Closed,
        ClientStep::Write(_) => event is Written || event is WriteFailed,
        ClientStep::Stop => false,
    }
}

/// The step that a run of events leads to. A client starts by waiting.
pub open spec fn step_after_run(events: Seq<ClientEvent>) -> ClientStep {
    if events.len() == 0 {
        ClientStep::Receive
    } else {
        step_after(events.last())
    }
}

/// Whether a run of events can happen to a client.
pub open spec fn is_run(events: Seq<ClientEvent>) -> bool
    decreases events.len(),
{
    events.len() == 0 || (is_run(events.drop_last()) && answers(
        step_after_run(events.drop_last()),
        events.last(),
    ))
}

/// The bytes that arrive for a client in a run of events.
pub open spec fn received(events: Seq<ClientEvent>) -> Seq<u8>
    decreases events.len(),
{
    if events.len() == 0 {
        Seq::empty()
    } else {
        match events.last() {
            ClientEvent::Chunk(chunk) => received(events.drop_last()) + bytes_contents(chunk),
            _ => received(events.drop_last()),
        }
    }
}

/// The bytes of the chunk that a step writes.
pub open spec fn step_bytes(step: ClientStep) -> Seq<u8> {
    match step {
        ClientStep::Write(chunk) => bytes_contents(chunk),
        _ => Seq::empty(),
    }
}

/// The bytes that are written to a client in a run of events: those of each
/// step whose write succeeds.
pub open spec fn forwarded(events: Seq<ClientEvent>) -> Seq<u8>
    decreases events.len(),
{
    if events.len() == 0 {
        Seq::empty()
    } else if events.last() is Written {
        forwarded(events.drop_last()) + step_bytes(step_after_run(events.drop_last()))
    } else {
        forwarded(events.drop_last())
    }
}

/// The bytes that are being written, or whose write has failed, at the end of
/// a run of events.
pub open spec fn outstanding(events: Seq<ClientEvent>) -> Seq<u8> {
    if events.len() > 0 && events.last() is WriteFailed {
        step_bytes(step_after_run(events.drop_last()))
    } else {
        step_bytes(step_after_run(events))
    }
}

/// What is written to a client is what arrives for it, unaltered and in order.
/// All of it is, but for the one chunk that is being written or could not be.
pub proof fn law_forwarded_is_received(events: Seq<ClientEvent>)
    requires
        is_run(events),
    ensures
        received(events) == forwarded(events) + outstanding(events),
        !(events.len() > 0 && (events.last() is Chunk || events.last() is WriteFailed))
            ==> received(events) == forwarded(events),
    decreases events.len(),
{
    if events.len() == 0 {
        assert(received(events) =~= forwarded(events) + outstanding(events));
    } else {
        let front = events.drop_last();
        law_forwarded_is_received(front);
        assert(outstanding(events) == Seq::<u8>::empty() || events.last() is Chunk
            || events.last() is WriteFailed);
        if let ClientStep::Write(_) = step_after_run(front) {
            assert(front.last() is Chunk);
        }
        assert(received(events) =~= forwarded(events) + outstanding(events));
        if !(events.last() is Chunk || events.last() is WriteFailed) {
            assert(received(events) =~= forwarded(events));
        }
    }
}

/// A lag writes nothing and does not let the client go: the chunk that comes
/// next is written.
pub proof fn law_lag_goes_on(events: Seq<ClientEvent>, lost: u64, chunk: Bytes)
    requires
        is_run(events),
        step_after_run(events) is Receive,
    ensures
        ({
            let lagged = events.push(ClientEvent::Lagged(lost));
            &&& is_run(lagged)
            &&& forwarded(lagged) == forwarded(events)
            &&& step_after_run(lagged) is Receive
            &&& is_run(lagged.push(ClientEvent::Chunk(chunk)))
            &&& step_after_run(lagged.push(ClientEvent::Chunk(chunk))) == ClientStep::Write(chunk)
        }),
{
    let lagged = events.push(ClientEvent::Lagged(lost));
    assert(lagged.drop_last() =~= events);
    assert(is_run(lagged));
    let next = lagged.push(ClientEvent::Chunk(chunk));
    assert(next.drop_last() =~= lagged);
    assert(is_run(next));
}

/// A client is let go exactly when the stream ends or a write to it fails; a
/// chunk that arrives is written to it; on any other event it waits.
pub proof fn law_let_go_exactly_when(event: ClientEvent)
    ensures
        step_after(event) is Stop <==> event is Closed || event is WriteFailed,
        step_after(event) is Receive <==> event is Written || event is Lagged,
        event matches ClientEvent::Chunk(chunk) ==> step_after(event) == ClientStep::Write(chunk),
{
}

} // verus!
