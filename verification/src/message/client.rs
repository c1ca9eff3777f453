//! Messages sent by clients to connected servers.

use vstd::prelude::*;
use super::{AudioData, IOState};

verus! {

/// Control messages sent from a client to a connected server.
#[verifier::ext_equal]
#[derive(Clone, Copy, Debug)]
pub enum Control {
    /// Requests a change in the audio I/O state. When starting I/O, all
    /// advertised input and output streams become active simultaneously.
    RequestIOStateChange(IOState<(), ()>),
}

/// Messages sent by a client after a connection is established.
#[verifier::ext_equal]
#[derive(Debug)]
pub enum Connected {
    /// Control-related messages.
    Control(Control),
    /// Audio data for one of the server's output streams.
    Audio(AudioData),
}

} // verus!
