//! Messages sent by servers to connected clients.

use vstd::prelude::*;
use super::{AudioData, Error, IOState};

verus! {

/// Control messages sent from a server to a connected client.
#[verifier::ext_equal]
#[derive(Clone, Copy, Debug)]
pub enum Control {
    /// Response to a client I/O state change request.
    IOStateChangeResult(IOState<Result<(), Error>, Result<(), Error>>),
    /// Sent solely to refresh the client's deadline for this server.
    Heartbeat,
}

/// Messages sent by a server after a connection is established.
#[verifier::ext_equal]
#[derive(Debug)]
pub enum Connected {
    /// Control-related messages.
    Control(Control),
    /// Audio data for one of the server's input streams.
    Audio(AudioData),
}

} // verus!
