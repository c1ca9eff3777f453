//! All protocol message types exchanged between endpoints.
//!
//! Messages are defined in their logical, nested form here; the wire form
//! flattens the nesting into single discriminants (see [`super::flat`]) so
//! that audio-message overhead stays minimal.

pub mod client;
pub mod server;

use vstd::prelude::*;
use super::format::StreamFormats;

verus! {

/// Represents a requested or resulting audio I/O state transition.
#[verifier::ext_equal]
#[derive(Clone, Copy, Debug, PartialEq, Eq, Structural)]
pub enum IOState<T, U> {
    /// Request or indicate that audio I/O should start.
    Start(T),
    /// Request or indicate that audio I/O should stop.
    Stop(U),
}

/// A generic error message used during connection or control handling.
#[derive(Clone, Copy, Debug, PartialEq, Eq, Structural)]
pub enum Error {
    /// The operation failed, but may succeed if retried.
    Failure,
    /// The operation is permanently unsupported or refused and should not
    /// be retried.
    Refusal,
}

/// A contiguous chunk of raw audio data belonging to a single stream.
///
/// `byte_index` is expressed in bytes, not frames or samples: it counts
/// from the start of the stream since I/O started. The payload may have
/// any length, including zero, and may hold partial samples.
#[verifier::ext_equal]
#[derive(Clone, Debug)]
pub struct AudioStreamData {
    pub byte_index: u64,
    pub bytes: Vec<u8>,
}

/// Audio data tagged with the index of the stream it belongs to.
///
/// Clients address the server's output streams; servers address their
/// input streams.
#[verifier::ext_equal]
#[derive(Clone, Debug)]
pub struct AudioData {
    pub stream_idx: usize,
    pub data: AudioStreamData,
}

/// Messages sent by clients and received by servers.
#[verifier::ext_equal]
#[derive(Debug)]
pub enum Client {
    /// Broadcast beacon, also a request to connect.
    Discovery,
    /// Response to a server's connection offer: acceptance or the error
    /// that refused it.
    ConnectionResult(Result<(), Error>),
    /// Messages sent after a connection is established.
    Connected(client::Connected),
    /// Ends the connection.
    Disconnect,
}

/// Messages sent by servers and received by clients.
#[verifier::ext_equal]
#[derive(Debug)]
pub enum Server {
    /// Accepts a connection and advertises supported stream formats; also
    /// the reply to a `Discovery` beacon.
    Connect(StreamFormats),
    /// Messages sent after a connection is established.
    Connected(server::Connected),
    /// Ends the connection.
    Disconnect,
}

} // verus!
