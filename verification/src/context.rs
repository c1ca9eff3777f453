//! Application callback contexts for the client, as typestates.
//!
//! The application implements these traits to observe connections and
//! to drive audio I/O. Each trait stands for one stage of a server's
//! I/O lifecycle; the transitions between stages consume one typestate
//! value and yield the next, so only the state machine can move a peer
//! between stages.

use vstd::prelude::*;
use super::format::StreamFormats;
use super::message::Error;

verus! {

/// The global client context: callbacks for client-wide events.
pub trait ClientContext: Sized {
    /// A newly connected server with inactive I/O.
    type IOInactive: IOInactiveContext<Context = Self>;

    /// Invoked when a new server connection is offered; returns the
    /// inactive typestate when the application accepts, or the error to
    /// report back when it rejects the offer.
    fn connect(&mut self, addr: u64, stream_formats: StreamFormats) -> Result<
        Self::IOInactive,
        Error,
    >;

    /// Invoked when a datagram does not decode as a protocol message.
    fn unknown_message(&mut self, addr: u64);
}

/// Typestate of a server with inactive I/O.
pub trait IOInactiveContext: Sized {
    /// The parent client context associated with this state.
    type Context;

    /// The typestate representing a pending I/O start request.
    type IOStartPending: IOStartPendingContext<Context = Self::Context>;

    /// Polls whether the application requests starting I/O: the pending
    /// typestate when a start request was made, or this state unchanged.
    fn poll_start_io(self, cx: &mut Self::Context) -> Result<Self::IOStartPending, Self>;
}

/// Typestate of a server whose I/O start request is pending.
pub trait IOStartPendingContext: Sized {
    /// The parent client context associated with this state.
    type Context;

    /// The typestate representing an active I/O session.
    type IOActive: IOActiveContext<Context = Self::Context>;

    /// The inactive typestate a refusal falls back to.
    type IOInactive;

    /// Called when the server acknowledges the start request.
    fn start_io(self, cx: &mut Self::Context) -> Self::IOActive;

    /// Called when the server permanently refuses the start request;
    /// returns to the inactive state.
    fn start_io_refused(self, cx: &mut Self::Context) -> Self::IOInactive;

    /// Called when the server reports a temporary failure to start I/O;
    /// the state stays pending and the request is retried.
    fn start_io_failed(&mut self, cx: &mut Self::Context);
}

/// Typestate of a server with active I/O.
pub trait IOActiveContext: Sized {
    /// The parent client context associated with this state.
    type Context;

    /// The typestate representing a pending I/O stop request.
    type IOStopPending: IOStopPendingConxtext<Context = Self::Context>;

    /// Called when an audio message arrives from the server: the time
    /// it arrived, the index of the stream it belongs to, its position
    /// in that stream's byte stream, and the payload.
    fn on_audio(
        &mut self,
        cx: &mut Self::Context,
        now_ms: u64,
        stream_idx: usize,
        byte_index: u64,
        data: &Vec<u8>,
    );

    /// Polls whether the application requests stopping I/O: the pending
    /// typestate when a stop request was made, or this state unchanged.
    fn poll_stop_io(self, cx: &mut Self::Context) -> Result<Self::IOStopPending, Self>;
}

/// Typestate of a server whose I/O stop request is pending.
pub trait IOStopPendingConxtext: Sized {
    /// The parent client context associated with this state.
    type Context;

    /// The inactive typestate a completed stop returns to.
    type IOInactive;

    /// The active typestate a refused stop stays in.
    type IOActive;

    /// Called when the server acknowledges the stop request; returns to
    /// the inactive state.
    fn stop_io(self, cx: &mut Self::Context) -> Self::IOInactive;

    /// Called when the server permanently refuses the stop request;
    /// I/O stays running.
    fn stop_io_refused(self, cx: &mut Self::Context) -> Self::IOActive;

    /// Called when the server reports a temporary failure to stop I/O;
    /// the state stays pending and the request is retried.
    fn stop_io_failed(&mut self, cx: &mut Self::Context);
}

} // verus!
