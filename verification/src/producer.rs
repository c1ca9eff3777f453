//! Sample-to-byte framing: converts streams of samples into an indexed byte
//! stream suitable for transport.
//!
//! The producer keeps a global byte index; each sample of a type of size
//! `n` contributes its `n` little-endian bytes to the stream, so emitting
//! `k` samples advances the index by exactly `k * n`.

use vstd::prelude::*;
use super::codec;
use super::format::SampleType;

verus! {

/// The byte stream that a sequence of samples of type `ty` spells: the
/// concatenation of the little-endian bytes of each sample.
pub open spec fn sample_stream_bytes(ty: SampleType, spls: Seq<u64>) -> Seq<u8>
    decreases spls.len(),
{
    if spls.len() == 0 {
        Seq::empty()
    } else {
        codec::le_bytes(spls[0] as nat, ty.spec_size()) + sample_stream_bytes(
            ty,
            spls.skip(1),
        )
    }
}

pub proof fn lemma_sample_stream_bytes_len(ty: SampleType, spls: Seq<u64>)
    ensures
        sample_stream_bytes(ty, spls).len() == spls.len() * ty.spec_size(),
    decreases spls.len(),
{
    if spls.len() == 0 {
    } else {
        lemma_sample_stream_bytes_len(ty, spls.skip(1));
        codec::lemma_le_bytes_len(spls[0] as nat, ty.spec_size());
        assert((spls.len() - 1) * ty.spec_size() + ty.spec_size() == spls.len()
            * ty.spec_size()) by (nonlinear_arith);
    }
}

/// Appending one sample extends the byte stream by that sample's bytes.
pub proof fn lemma_sample_stream_bytes_snoc(ty: SampleType, spls: Seq<u64>, s: u64)
    ensures
        sample_stream_bytes(ty, spls.push(s)) == sample_stream_bytes(ty, spls)
            + codec::le_bytes(s as nat, ty.spec_size()),
    decreases spls.len(),
{
    let p = spls.push(s);
    let enc = codec::le_bytes(s as nat, ty.spec_size());
    if spls.len() == 0 {
        assert(p[0] == s);
        assert(p.skip(1) =~= Seq::<u64>::empty());
        assert(sample_stream_bytes(ty, p) == enc + sample_stream_bytes(
            ty,
            Seq::<u64>::empty(),
        ));
        assert(enc + Seq::<u8>::empty() =~= enc);
        assert(sample_stream_bytes(ty, spls) + enc =~= enc);
    } else {
        assert(p[0] == spls[0]);
        assert(p.skip(1) =~= spls.skip(1).push(s));
        lemma_sample_stream_bytes_snoc(ty, spls.skip(1), s);
        let h = codec::le_bytes(spls[0] as nat, ty.spec_size());
        assert(sample_stream_bytes(ty, p) == h + (sample_stream_bytes(ty, spls.skip(1))
            + enc));
        assert(h + (sample_stream_bytes(ty, spls.skip(1)) + enc) =~= (h
            + sample_stream_bytes(ty, spls.skip(1))) + enc);
    }
}

/// Stateful adapter that converts streams of samples into streams of bytes.
///
/// The adapter tracks the global byte index of the stream; the index stays
/// aligned to whole samples, since every fed sample is emitted completely.
pub struct SampleByteStream {
    ty: SampleType,
    current_byte_idx: u64,
}

impl SampleByteStream {
    pub closed spec fn spec_ty(self) -> SampleType {
        self.ty
    }

    pub closed spec fn spec_byte_idx(self) -> u64 {
        self.current_byte_idx
    }

    /// Creates a new stream for samples of type `ty`, starting at byte
    /// index 0.
    pub fn new(ty: SampleType) -> (r: Self)
        ensures
            r.spec_ty() == ty,
            r.spec_byte_idx() == 0,
    {
        Self { ty, current_byte_idx: 0 }
    }

    /// Returns the current global byte index: the position in the stream at
    /// which the next emitted byte will lie.
    pub fn current_byte_idx(&self) -> (r: u64)
        ensures
            r == self.spec_byte_idx(),
    {
        self.current_byte_idx
    }

    /// Feeds a sequence of samples into the stream and returns the bytes
    /// they add to it.
    ///
    /// The returned bytes are exactly the little-endian encoding of the
    /// samples in order, and emitting `k` samples advances the byte index
    /// by exactly `k * size(ty)`.
    pub fn feed_samples(&mut self, samples: &Vec<u64>) -> (r: Vec<u8>)
        requires
            old(self).spec_byte_idx() + samples@.len() * old(self).spec_ty().spec_size()
                <= u64::MAX,
        ensures
            final(self).spec_ty() == old(self).spec_ty(),
            r@ == sample_stream_bytes(old(self).spec_ty(), samples@),
            r@.len() == samples@.len() * old(self).spec_ty().spec_size(),
            final(self).spec_byte_idx() == old(self).spec_byte_idx() + samples@.len()
                * old(self).spec_ty().spec_size(),
    {
        let ty = self.ty;
        let size = ty.sample_size();
        let n = samples.len();
        let mut out: Vec<u8> = Vec::new();
        let mut i: usize = 0;
        proof {
            lemma_sample_stream_bytes_len(ty, samples@);
        }
        while i < n
            invariant
                i <= n,
                n == samples@.len(),
                size == ty.spec_size(),
                self.ty == ty,
                out@ == sample_stream_bytes(ty, samples@.take(i as int)),
                out@.len() == i * size,
                self.current_byte_idx == old(self).spec_byte_idx() + i * size,
                old(self).spec_byte_idx() + n * size <= u64::MAX,
            decreases n - i,
        {
            proof {
                assert((i + 1) * size == i * size + size) by (nonlinear_arith);
                assert(i * size <= n * size && (i + 1) * size <= n * size)
                    by (nonlinear_arith)
                    requires
                        i < n,
                        size >= 1,
                ;
                let si = samples@[i as int];
                assert(samples@.take(i + 1) =~= samples@.take(i as int).push(si));
                lemma_sample_stream_bytes_snoc(ty, samples@.take(i as int), si);
            }
            codec::push_le_bytes(&mut out, samples[i], size);
            self.current_byte_idx = self.current_byte_idx + (size as u64);
            i = i + 1;
        }
        proof {
            assert(samples@.take(n as int) =~= samples@);
        }
        out
    }
}

/// A source of samples that can be polled for whatever is available.
///
/// Implementations decide where the samples come from; the returned vector
/// may be empty when nothing is available.
pub trait SampleSource {
    fn get_samples(&mut self) -> Vec<u64>;
}

/// Producer of indexed audio packets: each call yields the starting byte
/// index of the packet together with its payload bytes.
pub trait AudioPacketProducer {
    fn produce_packet(&mut self) -> (u64, Vec<u8>);
}

/// Adapter combining a sample source and a sample-to-byte framer: samples
/// are pulled from the source and immediately framed into an indexed byte
/// packet.
pub struct IndexedAudioSampleStreamReceiver<S> {
    source: S,
    framer: SampleByteStream,
}

impl<S> IndexedAudioSampleStreamReceiver<S> {
    /// Pairs a sample source with a fresh framer for samples of type `ty`.
    pub fn new(source: S, ty: SampleType) -> Self {
        Self { source, framer: SampleByteStream::new(ty) }
    }
}

impl<S: SampleSource> AudioPacketProducer for IndexedAudioSampleStreamReceiver<S> {
    /// Produces a packet by pulling all available samples from the source
    /// and framing them into a byte stream. A batch so large that its bytes
    /// would run the 64-bit stream index out is dropped whole.
    fn produce_packet(&mut self) -> (u64, Vec<u8>) {
        let spls = self.source.get_samples();
        let idx = self.framer.current_byte_idx();
        let size = 8u64;
        if spls.len() as u64 <= (u64::MAX - idx) / size {
            proof {
                let sz = self.framer.spec_ty().spec_size() as int;
                assert(spls@.len() * sz <= spls@.len() * 8) by (nonlinear_arith)
                    requires
                        1 <= sz <= 8,
                        spls@.len() >= 0,
                ;
                assert(spls@.len() * 8 <= ((u64::MAX - idx) as int / 8) * 8 <= u64::MAX
                    - idx);
            }
            let bytes = self.framer.feed_samples(&spls);
            (idx, bytes)
        } else {
            (idx, Vec::new())
        }
    }
}

} // verus!
