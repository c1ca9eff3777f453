//! Audio stream format definitions.
//!
//! All samples on the wire are packed (no unused bytes), little-endian,
//! interleaved, and uncompressed. Floating-point rates and samples are
//! carried by their IEEE 754 bit patterns, so that every property of a
//! format is a property of plain integers.

use vstd::prelude::*;

verus! {

/// Supported sample formats.
#[derive(Clone, Copy, Debug, PartialEq, Eq, Structural)]
pub enum SampleType {
    U8,
    U16,
    U24,
    U32,
    U64,
    I8,
    I16,
    I24,
    I32,
    I64,
    IEEF32,
    IEEF64,
}

impl SampleType {
    /// The size of a single sample in bytes; always between 1 and 8.
    pub open spec fn spec_size(self) -> nat {
        match self {
            SampleType::U8 | SampleType::I8 => 1,
            SampleType::U16 | SampleType::I16 => 2,
            SampleType::U24 | SampleType::I24 => 3,
            SampleType::U32 | SampleType::I32 | SampleType::IEEF32 => 4,
            SampleType::U64 | SampleType::I64 | SampleType::IEEF64 => 8,
        }
    }

    /// Returns the size of a single sample in bytes.
    pub fn sample_size(self) -> (r: u8)
        ensures
            r == self.spec_size(),
            1 <= r <= 8,
    {
        match self {
            SampleType::U8 | SampleType::I8 => 1,
            SampleType::U16 | SampleType::I16 => 2,
            SampleType::U24 | SampleType::I24 => 3,
            SampleType::U32 | SampleType::I32 | SampleType::IEEF32 => 4,
            SampleType::U64 | SampleType::I64 | SampleType::IEEF64 => 8,
        }
    }

    pub open spec fn spec_is_signed(self) -> bool {
        match self {
            SampleType::I8 | SampleType::I16 | SampleType::I24 | SampleType::I32
                | SampleType::I64 | SampleType::IEEF32 | SampleType::IEEF64 => true,
            _ => false,
        }
    }

    /// Returns whether the format is signed (including floating-point types).
    pub fn is_signed(self) -> (r: bool)
        ensures
            r == self.spec_is_signed(),
    {
        match self {
            SampleType::I8 | SampleType::I16 | SampleType::I24 | SampleType::I32
                | SampleType::I64 | SampleType::IEEF32 | SampleType::IEEF64 => true,
            _ => false,
        }
    }

    pub open spec fn spec_is_float(self) -> bool {
        self == SampleType::IEEF32 || self == SampleType::IEEF64
    }

    /// Returns whether the format is floating-point.
    pub fn is_float(self) -> (r: bool)
        ensures
            r == self.spec_is_float(),
    {
        match self {
            SampleType::IEEF32 | SampleType::IEEF64 => true,
            _ => false,
        }
    }

    /// The silence value of the format, as the raw little-endian integer a
    /// silent sample holds: the midpoint of the range for unsigned formats,
    /// zero for signed and floating-point formats.
    pub open spec fn spec_silence(self) -> u64 {
        match self {
            SampleType::U8 => 0x80u64,
            SampleType::U16 => 0x8000u64,
            SampleType::U24 => 0x800000u64,
            SampleType::U32 => 0x80000000u64,
            SampleType::U64 => 0x8000000000000000u64,
            _ => 0u64,
        }
    }

    /// Returns the silence value of the format as a raw sample value.
    pub fn silence(self) -> (r: u64)
        ensures
            r == self.spec_silence(),
            r < super::codec::pow256(self.spec_size()),
    {
        proof {
            super::codec::lemma_pow256_values();
        }
        match self {
            SampleType::U8 => 0x80u64,
            SampleType::U16 => 0x8000u64,
            SampleType::U24 => 0x800000u64,
            SampleType::U32 => 0x80000000u64,
            SampleType::U64 => 0x8000000000000000u64,
            _ => 0u64,
        }
    }
}

/// A validated audio sample rate, held as the bit pattern of an IEEE 754
/// double. The bits are guaranteed to denote a positive, normal number.
#[verifier::ext_equal]
#[derive(Clone, Copy, Debug, PartialEq, Eq, Structural)]
pub struct SampleRate {
    bits: u64,
}

/// Whether `bits`, read as an IEEE 754 double, denotes a positive normal
/// number: the sign bit is clear and the biased exponent is neither all
/// zeros (zero or subnormal) nor all ones (infinity or NaN).
pub open spec fn is_positive_normal_bits(bits: u64) -> bool {
    &&& bits < 0x8000000000000000u64
    &&& (bits / 0x10000000000000u64) % 0x800 != 0
    &&& (bits / 0x10000000000000u64) % 0x800 != 0x7FF
}

/// Error returned when creating an invalid [`SampleRate`].
#[verifier::ext_equal]
#[derive(Clone, Copy, Debug, PartialEq, Eq, Structural)]
pub struct SampleRateError;

impl SampleRate {
    pub closed spec fn wf(self) -> bool {
        is_positive_normal_bits(self.bits)
    }

    pub closed spec fn spec_bits(self) -> u64 {
        self.bits
    }

    /// A rate is well formed exactly when its bits denote a positive normal
    /// number.
    pub proof fn lemma_wf_bits(self)
        ensures
            self.wf() <==> is_positive_normal_bits(self.spec_bits()),
    {
    }

    /// The rate value a given bit pattern denotes.
    pub closed spec fn from_bits_spec(bits: u64) -> SampleRate {
        SampleRate { bits }
    }

    /// What `from_bits_spec` yields: its bits are the given ones, and it
    /// is well formed exactly when they denote a positive normal number.
    pub proof fn lemma_from_bits_spec(bits: u64)
        ensures
            SampleRate::from_bits_spec(bits).spec_bits() == bits,
            SampleRate::from_bits_spec(bits).wf() <==> is_positive_normal_bits(bits),
    {
    }

    /// Rebuilding a rate from its own bits yields the same rate.
    pub proof fn lemma_from_bits_spec_inverse(self)
        ensures
            SampleRate::from_bits_spec(self.spec_bits()) == self,
    {
    }

    /// Creates a new sample rate from the bit pattern of an IEEE 754 double,
    /// if the pattern denotes a positive normal number.
    pub fn new(bits: u64) -> (r: Option<Self>)
        ensures
            is_positive_normal_bits(bits) <==> r is Some,
            r matches Some(v) ==> v.spec_bits() == bits && v.wf() && v
                == SampleRate::from_bits_spec(bits),
    {
        let exponent = (bits / 0x10000000000000u64) % 0x800;
        if bits < 0x8000000000000000u64 && exponent != 0 && exponent != 0x7FF {
            Some(Self { bits })
        } else {
            None
        }
    }

    /// Creates a new sample rate as [`SampleRate::new`] does, reporting
    /// an invalid bit pattern as an error value.
    pub fn try_new(bits: u64) -> (r: Result<Self, SampleRateError>)
        ensures
            is_positive_normal_bits(bits) <==> r is Ok,
            r matches Ok(v) ==> v.spec_bits() == bits && v.wf(),
    {
        match Self::new(bits) {
            Some(v) => Ok(v),
            None => Err(SampleRateError),
        }
    }

    /// Returns the raw bit pattern of the rate.
    pub fn get(&self) -> (r: u64)
        ensures
            r == self.spec_bits(),
    {
        self.bits
    }

    /// The bit pattern of 48000.0, the standard rate.
    pub fn standard() -> (r: Self)
        ensures
            r.wf(),
            r.spec_bits() == 0x40E7700000000000u64,
    {
        Self { bits: 0x40E7700000000000u64 }
    }
}

/// Number of audio channels; a format is valid only when it is at least 1.
#[verifier::ext_equal]
#[derive(Clone, Copy, Debug, PartialEq, Eq, Structural, Hash, PartialOrd, Ord)]
pub struct ChannelCount(pub u32);

/// Buffer size expressed in frames. Advisory; zero means "not provided".
#[verifier::ext_equal]
#[derive(Clone, Copy, Debug, PartialEq, Eq, Structural, Hash, PartialOrd, Ord)]
pub struct BufferSize(pub u32);

/// A complete audio stream format description.
#[verifier::ext_equal]
#[derive(Clone, Copy, Debug, PartialEq, Eq, Structural)]
pub struct Format {
    pub sample_rate: SampleRate,
    pub channel_count: ChannelCount,
    /// Buffer size hint, expressed in frames.
    ///
    /// This value is advisory and does not constrain packet sizes.
    /// If it is zero, it must be considered as not provided.
    pub buffer_size: BufferSize,
    pub sample_type: SampleType,
}

impl Format {
    pub open spec fn wf(self) -> bool {
        &&& self.sample_rate.wf()
        &&& self.channel_count.0 >= 1
    }

    /// Returns the default format: IEEF32, 48 kHz, stereo, 32-frame buffering.
    pub fn standard() -> (r: Format)
        ensures
            r.wf(),
            r.channel_count.0 == 2,
            r.buffer_size.0 == 32,
            r.sample_type == SampleType::IEEF32,
    {
        Format {
            sample_rate: SampleRate::standard(),
            channel_count: ChannelCount(2),
            buffer_size: BufferSize(32),
            sample_type: SampleType::IEEF32,
        }
    }

    /// Returns the number of samples per buffer, if a buffer size is
    /// specified: `buffer_size * channel_count`.
    pub fn chunk_size_samples(&self) -> (r: Option<u32>)
        requires
            self.buffer_size.0 * self.channel_count.0 <= u32::MAX,
        ensures
            self.buffer_size.0 == 0 <==> r is None,
            r matches Some(n) ==> n == self.buffer_size.0 * self.channel_count.0,
    {
        if self.buffer_size.0 == 0 {
            None
        } else {
            Some(self.buffer_size.0 * self.channel_count.0)
        }
    }

    /// Returns the number of bytes per buffer, if a buffer size is
    /// specified: `buffer_size * channel_count * sample_size`.
    pub fn chunk_size_bytes(&self) -> (r: Option<u32>)
        requires
            self.buffer_size.0 * self.channel_count.0 * self.sample_type.spec_size()
                <= u32::MAX,
        ensures
            self.buffer_size.0 == 0 <==> r is None,
            r matches Some(n) ==> n == self.buffer_size.0 * self.channel_count.0
                * self.sample_type.spec_size(),
    {
        proof {
            assert(self.buffer_size.0 * self.channel_count.0 <= self.buffer_size.0
                * self.channel_count.0 * self.sample_type.spec_size()) by (nonlinear_arith)
                requires
                    self.sample_type.spec_size() >= 1,
            ;
        }
        match self.chunk_size_samples() {
            None => None,
            Some(n) => Some(n * (self.sample_type.sample_size() as u32)),
        }
    }
}

/// Describes all input and output stream formats of a server.
///
/// When I/O starts, clients must send audio for all output streams and
/// servers must send audio for all input streams. Stream counts and formats
/// are fixed for the lifetime of the connection.
#[verifier::ext_equal]
#[derive(Clone, Debug)]
pub struct StreamFormats {
    pub inputs: Vec<Format>,
    pub outputs: Vec<Format>,
}

impl StreamFormats {
    pub open spec fn wf(self) -> bool {
        &&& forall|i: int| 0 <= i < self.inputs@.len() ==> (#[trigger] self.inputs@[i]).wf()
        &&& forall|i: int| 0 <= i < self.outputs@.len() ==> (#[trigger] self.outputs@[i]).wf()
    }
}

} // verus!
