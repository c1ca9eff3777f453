//! The per-peer I/O state machine: every row of the transition table.

use syfala::machine::{transition, Effect, IOEvent, ServerIOState};
use syfala::message::{Error, IOState};

fn start_result(r: Result<(), Error>) -> IOEvent {
    IOEvent::Control(IOState::Start(r))
}

fn stop_result(r: Result<(), Error>) -> IOEvent {
    IOEvent::Control(IOState::Stop(r))
}

#[test]
fn poll_start_moves_inactive_to_pending() {
    let (next, eff) = transition(ServerIOState::Inactive, IOEvent::PollStart(true));
    assert_eq!(next, ServerIOState::PendingStart);
    assert_eq!(eff, Effect::SendStartRequest);
    let (next, eff) = transition(ServerIOState::Inactive, IOEvent::PollStart(false));
    assert_eq!(next, ServerIOState::Inactive);
    assert_eq!(eff, Effect::Quiet);
}

#[test]
fn start_ok_reaches_active() {
    let (next, eff) = transition(ServerIOState::PendingStart, start_result(Ok(())));
    assert_eq!(next, ServerIOState::Active);
    assert_eq!(eff, Effect::NotifyStarted);
}

#[test]
fn start_failure_retries_once_per_occurrence() {
    // A failure leaves the stage pending and asks for exactly one
    // retransmission of the start request.
    let (next, eff) = transition(
        ServerIOState::PendingStart,
        start_result(Err(Error::Failure)),
    );
    assert_eq!(next, ServerIOState::PendingStart);
    assert_eq!(eff, Effect::SendStartRequest);
    // The follow-up success then reaches Active.
    let (next, eff) = transition(next, start_result(Ok(())));
    assert_eq!(next, ServerIOState::Active);
    assert_eq!(eff, Effect::NotifyStarted);
}

#[test]
fn start_refusal_reverts_to_inactive() {
    let (next, eff) = transition(
        ServerIOState::PendingStart,
        start_result(Err(Error::Refusal)),
    );
    assert_eq!(next, ServerIOState::Inactive);
    assert_eq!(eff, Effect::NotifyStartRefused);
}

#[test]
fn stop_transitions() {
    let (next, eff) = transition(ServerIOState::Active, IOEvent::PollStop(true));
    assert_eq!(next, ServerIOState::PendingStop);
    assert_eq!(eff, Effect::SendStopRequest);
    let (next, eff) = transition(next, stop_result(Err(Error::Failure)));
    assert_eq!(next, ServerIOState::PendingStop);
    assert_eq!(eff, Effect::SendStopRequest);
    let (next, eff) = transition(next, stop_result(Err(Error::Refusal)));
    assert_eq!(next, ServerIOState::Active);
    assert_eq!(eff, Effect::NotifyStopRefused);
    let (next, _) = transition(next, IOEvent::PollStop(true));
    let (next, eff) = transition(next, stop_result(Ok(())));
    assert_eq!(next, ServerIOState::Inactive);
    assert_eq!(eff, Effect::NotifyStopped);
}

#[test]
fn unexpected_control_is_ignored() {
    // A control reply the stage is not waiting for changes nothing.
    for s in [
        ServerIOState::Inactive,
        ServerIOState::Active,
        ServerIOState::PendingStop,
    ] {
        let (next, eff) = transition(s, start_result(Ok(())));
        assert_eq!(next, s);
        assert_eq!(eff, Effect::Quiet);
    }
}

#[test]
fn heartbeat_never_changes_stage() {
    for s in [
        ServerIOState::Inactive,
        ServerIOState::PendingStart,
        ServerIOState::Active,
        ServerIOState::PendingStop,
    ] {
        let (next, eff) = transition(s, IOEvent::Heartbeat);
        assert_eq!(next, s);
        assert_eq!(eff, Effect::Quiet);
    }
}

#[test]
fn audio_forwarded_only_when_active() {
    let (next, eff) = transition(ServerIOState::Active, IOEvent::Audio);
    assert_eq!(next, ServerIOState::Active);
    assert_eq!(eff, Effect::ForwardAudio);
    let (next, eff) = transition(ServerIOState::Inactive, IOEvent::Audio);
    assert_eq!(next, ServerIOState::Inactive);
    assert_eq!(eff, Effect::DropAudio);
}
