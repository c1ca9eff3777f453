//! A server's audio configuration.

use vstd::prelude::*;

verus! {

/// Represents a server's audio configuration. May grow more fields.
///
/// Both the channel count and the buffer size are at least 1.
#[verifier::ext_equal]
#[derive(Clone, Copy, Debug, PartialEq, Eq, Structural)]
pub struct AudioConfig {
    n_channels: u32,
    buffer_size_frames: u32,
}

impl AudioConfig {
    pub closed spec fn spec_n_channels(self) -> u32 {
        self.n_channels
    }

    pub closed spec fn spec_buffer_size_frames(self) -> u32 {
        self.buffer_size_frames
    }

    /// The configuration with the given channel count and buffer size.
    pub closed spec fn spec_new(n_channels: u32, buffer_size_frames: u32) -> AudioConfig {
        AudioConfig { n_channels, buffer_size_frames }
    }

    /// What `spec_new` yields, field by field.
    pub proof fn lemma_spec_new(n_channels: u32, buffer_size_frames: u32)
        ensures
            AudioConfig::spec_new(n_channels, buffer_size_frames).spec_n_channels()
                == n_channels,
            AudioConfig::spec_new(n_channels, buffer_size_frames).spec_buffer_size_frames()
                == buffer_size_frames,
    {
    }

    /// Rebuilding a configuration from its own fields yields the same
    /// configuration.
    pub proof fn lemma_spec_new_inverse(self)
        ensures
            AudioConfig::spec_new(self.spec_n_channels(), self.spec_buffer_size_frames())
                == self,
    {
    }

    pub open spec fn wf(self) -> bool {
        &&& self.spec_n_channels() >= 1
        &&& self.spec_buffer_size_frames() >= 1
    }

    /// Creates a configuration; both counts must be positive.
    pub fn new(n_channels: u32, buffer_size_frames: u32) -> (r: Self)
        requires
            n_channels >= 1,
            buffer_size_frames >= 1,
        ensures
            r == AudioConfig::spec_new(n_channels, buffer_size_frames),
            r.wf(),
    {
        Self { n_channels, buffer_size_frames }
    }

    /// Returns the number of channels.
    pub fn n_channels(&self) -> (r: u32)
        ensures
            r == self.spec_n_channels(),
    {
        self.n_channels
    }

    /// Returns the buffer (chunk) size in frames.
    pub fn chunk_size_frames(&self) -> (r: u32)
        ensures
            r == self.spec_buffer_size_frames(),
    {
        self.buffer_size_frames
    }

    /// The chunk size in samples: `n_channels() * chunk_size_frames()`.
    pub fn chunk_size_samples(&self) -> (r: u32)
        requires
            self.spec_n_channels() * self.spec_buffer_size_frames() <= u32::MAX,
        ensures
            r == self.spec_n_channels() * self.spec_buffer_size_frames(),
    {
        self.n_channels * self.buffer_size_frames
    }
}

} // verus!
