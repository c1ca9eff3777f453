//! Peer-to-peer low-latency audio transport.
//!
//! The library carries interleaved PCM audio between networked endpoints
//! over datagrams, tolerating packet loss, reordering, and clock drift:
//!
//! - [`format`] and [`codec`]: sample types and their little-endian byte
//!   forms;
//! - [`producer`] and [`consumer`]: the indexed byte framer, turning
//!   sample streams into indexed byte streams and back, concealing lost
//!   ranges with silence;
//! - [`message`], [`flat`], and [`encoding`]: the typed protocol
//!   messages, their flattened wire form, and the datagram encoding;
//! - [`machine`] and [`registry`]: the per-server I/O state machine and
//!   the multi-server client registry with deadline-driven expiry;
//! - [`queue`] and [`counter`]: the ring-buffer bridge between the audio
//!   callback thread and the network thread, with drift handling and the
//!   periodic waker;
//! - [`wire`], [`network`], and [`config`]: the compact magic-prefix
//!   datagram format, discovery packets, and the batching audio sender;
//! - [`interleave`], [`utils`], [`context`], and [`pq`]: multichannel
//!   gather/scatter, buffer cursors and timers, the application callback
//!   typestates, and the deadline queue interface.

pub mod codec;
pub mod config;
pub mod consumer;
pub mod context;
pub mod counter;
pub mod encoding;
pub mod flat;
pub mod format;
pub mod interleave;
pub mod machine;
pub mod message;
pub mod network;
pub mod pq;
pub mod producer;
pub mod queue;
pub mod registry;
pub mod utils;
pub mod wire;
