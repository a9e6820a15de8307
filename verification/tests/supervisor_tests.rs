use iceprxy::supervisor::{action_of, step, Action, Event, Phase, RETRY_DELAY_MS};

#[test]
fn supervisor_starts_by_connecting() {
    assert_eq!(action_of(Phase::Connecting), Action::Connect);
}

#[test]
fn supervisor_reads_while_streaming() {
    assert_eq!(step(Phase::Connecting, Event::Connected), (Phase::Streaming, Action::ReadChunk));
    assert_eq!(step(Phase::Streaming, Event::ChunkHandled), (Phase::Streaming, Action::ReadChunk));
}

#[test]
fn supervisor_waits_five_seconds_after_any_end() {
    assert_eq!(RETRY_DELAY_MS, 5000);
    assert_eq!(step(Phase::Streaming, Event::StreamEnded), (Phase::Failed, Action::Wait(5000)));
    assert_eq!(step(Phase::Streaming, Event::TransportFailed), (Phase::Failed, Action::Wait(5000)));
    assert_eq!(step(Phase::Connecting, Event::TransportFailed), (Phase::Failed, Action::Wait(5000)));
}

#[test]
fn supervisor_reconnects_after_delay() {
    assert_eq!(step(Phase::Failed, Event::DelayElapsed), (Phase::Connecting, Action::Connect));
}

#[test]
fn supervisor_ignores_events_of_other_phases() {
    assert_eq!(step(Phase::Failed, Event::ChunkHandled), (Phase::Failed, Action::Wait(5000)));
    assert_eq!(step(Phase::Connecting, Event::DelayElapsed), (Phase::Connecting, Action::Connect));
    assert_eq!(step(Phase::Streaming, Event::Connected), (Phase::Streaming, Action::ReadChunk));
}
