//! Per-peer I/O state machine, on the client side.
//!
//! Each connected server moves through four stages: `Inactive`,
//! `PendingStart`, `Active`, and `PendingStop`. Transitions are driven by
//! the server's control replies and by the application's start and stop
//! polls; this function is the only authority over a peer's stage.

use vstd::prelude::*;
use super::message::{server, Error, IOState};

verus! {

/// The I/O stage of one connected server.
#[derive(Clone, Copy, Debug, PartialEq, Eq, Structural)]
pub enum ServerIOState {
    /// Connected, audio I/O not running.
    Inactive,
    /// A start request was sent; awaiting the server's reply.
    PendingStart,
    /// Audio I/O is running.
    Active,
    /// A stop request was sent; awaiting the server's reply.
    PendingStop,
}

/// An event a peer's state machine reacts to.
#[derive(Clone, Copy, Debug)]
pub enum IOEvent {
    /// The server answered a start or stop request.
    Control(IOState<Result<(), Error>, Result<(), Error>>),
    /// The server sent a heartbeat.
    Heartbeat,
    /// An audio message arrived from the server.
    Audio,
    /// The application was polled for a start request; the payload says
    /// whether it wants I/O started.
    PollStart(bool),
    /// The application was polled for a stop request; the payload says
    /// whether it wants I/O stopped.
    PollStop(bool),
}

/// What the caller must do after a transition.
#[derive(Clone, Copy, Debug, PartialEq, Eq, Structural)]
pub enum Effect {
    /// Nothing to do.
    Quiet,
    /// Send `RequestIOStateChange(Start)` to the server.
    SendStartRequest,
    /// Send `RequestIOStateChange(Stop)` to the server.
    SendStopRequest,
    /// Tell the application that I/O started.
    NotifyStarted,
    /// Tell the application that its start request was refused.
    NotifyStartRefused,
    /// Tell the application that I/O stopped.
    NotifyStopped,
    /// Tell the application that its stop request was refused.
    NotifyStopRefused,
    /// Hand the accompanying audio data to the application.
    ForwardAudio,
    /// Drop the accompanying audio data: I/O is not active.
    DropAudio,
}

/// The transition table: next stage and required effect for every stage
/// and event. A control reply that the stage is not waiting for is
/// ignored; a heartbeat never changes the stage.
pub open spec fn spec_transition(s: ServerIOState, e: IOEvent) -> (ServerIOState, Effect) {
    match e {
        IOEvent::Control(IOState::Start(r)) => match s {
            ServerIOState::PendingStart => match r {
                Ok(()) => (ServerIOState::Active, Effect::NotifyStarted),
                Err(Error::Failure) => (ServerIOState::PendingStart, Effect::SendStartRequest),
                Err(Error::Refusal) => (ServerIOState::Inactive, Effect::NotifyStartRefused),
            },
            _ => (s, Effect::Quiet),
        },
        IOEvent::Control(IOState::Stop(r)) => match s {
            ServerIOState::PendingStop => match r {
                Ok(()) => (ServerIOState::Inactive, Effect::NotifyStopped),
                Err(Error::Failure) => (ServerIOState::PendingStop, Effect::SendStopRequest),
                Err(Error::Refusal) => (ServerIOState::Active, Effect::NotifyStopRefused),
            },
            _ => (s, Effect::Quiet),
        },
        IOEvent::Heartbeat => (s, Effect::Quiet),
        IOEvent::Audio => match s {
            ServerIOState::Active => (s, Effect::ForwardAudio),
            _ => (s, Effect::DropAudio),
        },
        IOEvent::PollStart(want) => match s {
            ServerIOState::Inactive => if want {
                (ServerIOState::PendingStart, Effect::SendStartRequest)
            } else {
                (s, Effect::Quiet)
            },
            _ => (s, Effect::Quiet),
        },
        IOEvent::PollStop(want) => match s {
            ServerIOState::Active => if want {
                (ServerIOState::PendingStop, Effect::SendStopRequest)
            } else {
                (s, Effect::Quiet)
            },
            _ => (s, Effect::Quiet),
        },
    }
}

/// Applies one event to a peer's stage, returning the next stage and the
/// effect the caller must carry out, exactly as the transition table says.
pub fn transition(s: ServerIOState, e: IOEvent) -> (r: (ServerIOState, Effect))
    ensures
        r == spec_transition(s, e),
{
    match e {
        IOEvent::Control(IOState::Start(res)) => match s {
            ServerIOState::PendingStart => match res {
                Ok(()) => (ServerIOState::Active, Effect::NotifyStarted),
                Err(Error::Failure) => (ServerIOState::PendingStart, Effect::SendStartRequest),
                Err(Error::Refusal) => (ServerIOState::Inactive, Effect::NotifyStartRefused),
            },
            _ => (s, Effect::Quiet),
        },
        IOEvent::Control(IOState::Stop(res)) => match s {
            ServerIOState::PendingStop => match res {
                Ok(()) => (ServerIOState::Inactive, Effect::NotifyStopped),
                Err(Error::Failure) => (ServerIOState::PendingStop, Effect::SendStopRequest),
                Err(Error::Refusal) => (ServerIOState::Active, Effect::NotifyStopRefused),
            },
            _ => (s, Effect::Quiet),
        },
        IOEvent::Heartbeat => (s, Effect::Quiet),
        IOEvent::Audio => match s {
            ServerIOState::Active => (s, Effect::ForwardAudio),
            _ => (s, Effect::DropAudio),
        },
        IOEvent::PollStart(want) => match s {
            ServerIOState::Inactive => if want {
                (ServerIOState::PendingStart, Effect::SendStartRequest)
            } else {
                (s, Effect::Quiet)
            },
            _ => (s, Effect::Quiet),
        },
        IOEvent::PollStop(want) => match s {
            ServerIOState::Active => if want {
                (ServerIOState::PendingStop, Effect::SendStopRequest)
            } else {
                (s, Effect::Quiet)
            },
            _ => (s, Effect::Quiet),
        },
    }
}

/// The event that a server control reply raises.
pub fn control_event(c: server::Control) -> (r: IOEvent)
    ensures
        r == (match c {
            server::Control::IOStateChangeResult(s) => IOEvent::Control(s),
            server::Control::Heartbeat => IOEvent::Heartbeat,
        }),
{
    match c {
        server::Control::IOStateChangeResult(s) => IOEvent::Control(s),
        server::Control::Heartbeat => IOEvent::Heartbeat,
    }
}

/// Law: from `PendingStart`, every event leads to exactly one of three
/// outcomes. `Active` is reached through `Start(Ok)` and nothing else;
/// `Inactive` is reached through `Start(Err(Refusal))` and nothing else;
/// `Start(Err(Failure))` keeps the stage at `PendingStart` and triggers
/// exactly one outbound start request; every other event leaves the stage
/// unchanged with no request.
pub proof fn lemma_pending_start_outcomes(e: IOEvent)
    ensures
        spec_transition(ServerIOState::PendingStart, e).0 == ServerIOState::Active <==> e
            == IOEvent::Control(IOState::<Result<(), Error>, Result<(), Error>>::Start(Ok(()))),
        spec_transition(ServerIOState::PendingStart, e).0 == ServerIOState::Inactive <==> e
            == IOEvent::Control(
            IOState::<Result<(), Error>, Result<(), Error>>::Start(Err(Error::Refusal)),
        ),
        e == IOEvent::Control(
            IOState::<Result<(), Error>, Result<(), Error>>::Start(Err(Error::Failure)),
        ) ==> spec_transition(ServerIOState::PendingStart, e) == (
        ServerIOState::PendingStart,
        Effect::SendStartRequest,
        ),
        spec_transition(ServerIOState::PendingStart, e).1 == Effect::SendStartRequest <==> e
            == IOEvent::Control(
            IOState::<Result<(), Error>, Result<(), Error>>::Start(Err(Error::Failure)),
        ),
{
    match e {
        IOEvent::Control(IOState::Start(r)) => match r {
            Ok(u) => {
                assert(u == ());
                assert(e =~~= IOEvent::Control(
                    IOState::<Result<(), Error>, Result<(), Error>>::Start(Ok(())),
                ));
            },
            Err(Error::Failure) => {},
            Err(Error::Refusal) => {},
        },
        _ => {},
    }
}

/// Law: the only stage from which `PendingStart` is entered is `Inactive`,
/// and only through a positive start poll, which sends exactly one start
/// request.
pub proof fn lemma_start_path_from_inactive(s: ServerIOState, e: IOEvent)
    ensures
        spec_transition(s, e).0 == ServerIOState::PendingStart && s != ServerIOState::PendingStart
            ==> s == ServerIOState::Inactive && e == IOEvent::PollStart(true)
            && spec_transition(s, e).1 == Effect::SendStartRequest,
{
}


/// Law: from `PendingStop`, mirroring the start path: `Inactive` is
/// reached through `Stop(Ok)` and nothing else; `Active` is reached
/// through `Stop(Err(Refusal))` and nothing else; `Stop(Err(Failure))`
/// keeps the stage at `PendingStop` and triggers exactly one outbound
/// stop request.
pub proof fn lemma_pending_stop_outcomes(e: IOEvent)
    ensures
        spec_transition(ServerIOState::PendingStop, e).0 == ServerIOState::Inactive <==> e
            == IOEvent::Control(IOState::<Result<(), Error>, Result<(), Error>>::Stop(Ok(()))),
        spec_transition(ServerIOState::PendingStop, e).0 == ServerIOState::Active <==> e
            == IOEvent::Control(
            IOState::<Result<(), Error>, Result<(), Error>>::Stop(Err(Error::Refusal)),
        ),
        spec_transition(ServerIOState::PendingStop, e).1 == Effect::SendStopRequest <==> e
            == IOEvent::Control(
            IOState::<Result<(), Error>, Result<(), Error>>::Stop(Err(Error::Failure)),
        ),
{
    match e {
        IOEvent::Control(IOState::Stop(r)) => match r {
            Ok(u) => {
                assert(u == ());
                assert(e =~~= IOEvent::Control(
                    IOState::<Result<(), Error>, Result<(), Error>>::Stop(Ok(())),
                ));
            },
            Err(Error::Failure) => {},
            Err(Error::Refusal) => {},
        },
        _ => {},
    }
}

} // verus!
