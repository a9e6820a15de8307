//! The supervisor of the fetch: which step follows which outcome. The
//! caller performs the step and reports what came of it.

use vstd::prelude::*;

verus! {

/// The delay before a new fetch attempt, in milliseconds. It never grows.
pub const RETRY_DELAY_MS: u64 = 5000;

/// Where the fetch stands.
#[derive(Debug, Clone, Copy, PartialEq, Eq, Structural)]
pub enum Phase {
    /// An attempt to connect is under way.
    Connecting,
    /// Connected; chunks are being read.
    Streaming,
    /// The last attempt ended; the delay is running.
    Failed,
}

/// What the caller reports.
#[derive(Debug, Clone, Copy, PartialEq, Eq, Structural)]
pub enum Event {
    /// The connection stands.
    Connected,
    /// A chunk was read and handled.
    ChunkHandled,
    /// The stream ended.
    StreamEnded,
    /// Connecting or reading failed.
    TransportFailed,
    /// The delay is over.
    DelayElapsed,
}

/// What the caller is to do next.
#[derive(Debug, Clone, Copy, PartialEq, Eq, Structural)]
pub enum Action {
    /// Open a new connection.
    Connect,
    /// Read the next chunk.
    ReadChunk,
    /// Wait this many milliseconds.
    Wait(u64),
}

/// The step that a phase is waiting on.
pub open spec fn pending(phase: Phase) -> Action {
    match phase {
        Phase::Connecting => Action::Connect,
        Phase::Streaming => Action::ReadChunk,
        Phase::Failed => Action::Wait(RETRY_DELAY_MS),
    }
}

/// The phase that follows an event. The end of the stream and a failure
/// both end the attempt; an event that does not belong to the phase leaves
/// it as it is.
pub open spec fn next_phase(phase: Phase, event: Event) -> Phase {
    match (phase, event) {
        (Phase::Connecting, Event::Connected) => Phase::Streaming,
        (Phase::Connecting, Event::TransportFailed) => Phase::Failed,
        (Phase::Connecting, Event::StreamEnded) => Phase::Failed,
        (Phase::Streaming, Event::ChunkHandled) => Phase::Streaming,
        (Phase::Streaming, Event::TransportFailed) => Phase::Failed,
        (Phase::Streaming, Event::StreamEnded) => Phase::Failed,
        (Phase::Failed, Event::DelayElapsed) => Phase::Connecting,
        _ => phase,
    }
}

/// The step that a phase is waiting on.
pub fn action_of(phase: Phase) -> (action: Action)
    ensures
        action == pending(phase),
{
    match phase {
        Phase::Connecting => Action::Connect,
        Phase::Streaming => Action::ReadChunk,
        Phase::Failed => Action::Wait(RETRY_DELAY_MS),
    }
}

/// Takes an event in a phase and gives the next phase and the step to
/// perform in it.
pub fn step(phase: Phase, event: Event) -> (next: (Phase, Action))
    ensures
        next.0 == next_phase(phase, event),
        next.1 == pending(next_phase(phase, event)),
{
    let next = match phase {
        Phase::Connecting => match event {
            Event::Connected => Phase::Streaming,
            Event::TransportFailed => Phase::Failed,
            Event::StreamEnded => Phase::Failed,
            _ => Phase::Connecting,
        },
        Phase::Streaming => match event {
            Event::TransportFailed => Phase::Failed,
            Event::StreamEnded => Phase::Failed,
            _ => Phase::Streaming,
        },
        Phase::Failed => match event {
            Event::DelayElapsed => Phase::Connecting,
            _ => Phase::Failed,
        },
    };
    (next, action_of(next))
}

/// However an attempt ends, the same fixed delay follows and then a new
/// attempt: the supervisor never stops and never waits longer.
pub proof fn law_retry_forever(phase: Phase, ending: Event)
    requires
        phase != Phase::Failed,
        ending == Event::TransportFailed || ending == Event::StreamEnded,
    ensures
        next_phase(phase, ending) == Phase::Failed,
        pending(next_phase(phase, ending)) == Action::Wait(RETRY_DELAY_MS),
        next_phase(next_phase(phase, ending), Event::DelayElapsed) == Phase::Connecting,
        pending(Phase::Connecting) == Action::Connect,
{
}

} // verus!
