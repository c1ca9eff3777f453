//! Byte-to-sample reconstruction with loss concealment.
//!
//! The consumer half of the indexed byte framer: packets of bytes tagged
//! with their position in the global byte stream are turned back into
//! samples. Reordered packets (position before the expected index) are
//! dropped whole; a gap in the stream is concealed by emitting one padding
//! sample for every sample the gap touches, and the stream resumes at the
//! next sample boundary.

use vstd::prelude::*;
use super::codec::{self, le_value};
use super::format::SampleType;

verus! {

/// Spec-level state of a padder: the sample type, the expected position in
/// the global byte stream, and the bytes of the in-progress sample (always
/// exactly `expected % size` of them).
#[verifier::ext_equal]
pub struct PadderModel {
    pub ty: SampleType,
    pub expected: int,
    pub partial: Seq<u8>,
}

impl PadderModel {
    pub open spec fn wf(self) -> bool {
        &&& 0 <= self.expected
        &&& self.partial.len() == self.expected % (self.ty.spec_size() as int)
    }

    /// The state of a fresh padder: position 0, nothing in progress.
    pub open spec fn init(ty: SampleType) -> PadderModel {
        PadderModel { ty, expected: 0, partial: Seq::empty() }
    }
}

/// The samples spelled by each complete `size`-byte chunk of `bs`, in
/// order; trailing bytes short of a full sample are ignored.
pub open spec fn decode_chunks(ty: SampleType, bs: Seq<u8>) -> Seq<u64>
    decreases bs.len(),
{
    let size = ty.spec_size() as int;
    if bs.len() < size {
        Seq::empty()
    } else {
        seq![le_value(bs.take(size)) as u64] + decode_chunks(ty, bs.skip(size))
    }
}

/// The first sample boundary at or after stream position `i`.
pub open spec fn next_boundary(i: int, size: int) -> int {
    ((i + size - 1) / size) * size
}

/// The model-level effect of feeding one packet `(byte_idx, bytes)` into a
/// padder in state `m`, padding gaps with `pad`: the new state and the
/// samples produced.
pub open spec fn spec_feed(m: PadderModel, byte_idx: int, bytes: Seq<u8>, pad: u64) -> (
    PadderModel,
    Seq<u64>,
) {
    let size = m.ty.spec_size() as int;
    if byte_idx < m.expected {
        (m, Seq::empty())
    } else {
        let start = if byte_idx == m.expected {
            m.expected
        } else {
            next_boundary(byte_idx, size)
        };
        let n_pad = if byte_idx == m.expected {
            0
        } else {
            (byte_idx + size - 1) / size - m.expected / size
        };
        let kept_partial = if byte_idx == m.expected {
            m.partial
        } else {
            Seq::<u8>::empty()
        };
        let kept = if start - byte_idx <= bytes.len() {
            bytes.skip(start - byte_idx)
        } else {
            Seq::<u8>::empty()
        };
        let full = kept_partial + kept;
        let m2 = PadderModel {
            ty: m.ty,
            expected: start + kept.len(),
            partial: full.skip((full.len() as int / size) * size),
        };
        (m2, Seq::new(n_pad as nat, |i: int| pad) + decode_chunks(m.ty, full))
    }
}

/// Splitting a byte stream at a sample boundary splits its samples.
pub proof fn lemma_decode_chunks_append_aligned(ty: SampleType, u: Seq<u8>, v: Seq<u8>)
    requires
        u.len() % ty.spec_size() == 0,
    ensures
        decode_chunks(ty, u + v) == decode_chunks(ty, u) + decode_chunks(ty, v),
    decreases u.len(),
{
    let size = ty.spec_size() as int;
    if u.len() == 0 {
        assert(u + v =~= v);
        assert(Seq::<u64>::empty() + decode_chunks(ty, v) =~= decode_chunks(ty, v));
    } else {
        assert(u.len() >= size) by {
            if u.len() < ty.spec_size() {
                vstd::arithmetic::div_mod::lemma_small_mod(u.len(), ty.spec_size());
            }
        }
        assert((u + v).len() >= size);
        assert((u + v).take(size) =~= u.take(size));
        assert((u + v).skip(size) =~= u.skip(size) + v);
        assert(u.skip(size).len() % ty.spec_size() == 0) by {
            vstd::arithmetic::div_mod::lemma_mod_sub_multiples_vanish(
                u.len() as int,
                size,
            );
        }
        lemma_decode_chunks_append_aligned(ty, u.skip(size), v);
        let head = seq![le_value(u.take(size)) as u64];
        assert(decode_chunks(ty, u + v) == head + (decode_chunks(ty, u.skip(size))
            + decode_chunks(ty, v)));
        assert(head + (decode_chunks(ty, u.skip(size)) + decode_chunks(ty, v)) =~= (head
            + decode_chunks(ty, u.skip(size))) + decode_chunks(ty, v));
    }
}

/// A stream shorter than one sample holds no sample.
pub proof fn lemma_decode_chunks_short(ty: SampleType, v: Seq<u8>)
    requires
        v.len() < ty.spec_size(),
    ensures
        decode_chunks(ty, v) == Seq::<u64>::empty(),
{
}

/// Only the complete chunks of a stream matter: the trailing partial
/// sample contributes nothing.
pub proof fn lemma_decode_chunks_ignores_tail(ty: SampleType, b: Seq<u8>, a: int)
    requires
        0 <= a <= b.len(),
        a % ty.spec_size() as int == 0,
        b.len() - a < ty.spec_size(),
    ensures
        decode_chunks(ty, b) == decode_chunks(ty, b.take(a)),
{
    let u = b.take(a);
    let v = b.skip(a);
    assert(u + v =~= b);
    lemma_decode_chunks_append_aligned(ty, u, v);
    lemma_decode_chunks_short(ty, v);
    assert(decode_chunks(ty, u) + Seq::<u64>::empty() =~= decode_chunks(ty, u));
}

/// Extending an aligned prefix by one whole chunk appends one sample.
pub proof fn lemma_decode_chunks_take_step(ty: SampleType, b: Seq<u8>, a: int)
    requires
        0 <= a,
        a % ty.spec_size() as int == 0,
        a + ty.spec_size() <= b.len(),
    ensures
        decode_chunks(ty, b.take(a + ty.spec_size())) == decode_chunks(ty, b.take(a))
            + seq![le_value(b.subrange(a, a + ty.spec_size())) as u64],
{
    let size = ty.spec_size() as int;
    let u = b.take(a);
    let v = b.subrange(a, a + size);
    assert(u + v =~= b.take(a + size));
    lemma_decode_chunks_append_aligned(ty, u, v);
    assert(v.len() == size);
    assert(decode_chunks(ty, v) == seq![le_value(v.take(size)) as u64] + decode_chunks(
        ty,
        v.skip(size),
    ));
    assert(v.take(size) =~= v);
    assert(v.skip(size).len() < size);
    lemma_decode_chunks_short(ty, v.skip(size));
    assert(seq![le_value(v) as u64] + Seq::<u64>::empty() =~= seq![le_value(v) as u64]);
}

/// Stateful adapter that reconstructs samples from indexed byte streams,
/// inserting padding samples where data is missing.
pub struct AudioPacketSamplePadder {
    ty: SampleType,
    current_byte_idx: u64,
    scratch: Vec<u8>,
}

impl View for AudioPacketSamplePadder {
    type V = PadderModel;

    closed spec fn view(&self) -> PadderModel {
        PadderModel {
            ty: self.ty,
            expected: self.current_byte_idx as int,
            partial: self.scratch@.take(
                self.current_byte_idx as int % self.ty.spec_size() as int,
            ),
        }
    }
}

impl AudioPacketSamplePadder {
    /// Representation invariant: the scratch buffer holds exactly one
    /// sample's worth of bytes.
    pub closed spec fn inv(self) -> bool {
        self.scratch@.len() == self.ty.spec_size()
    }

    pub proof fn lemma_inv_wf(self)
        ensures
            self.inv() ==> self@.wf(),
    {
        if self.inv() {
            vstd::arithmetic::div_mod::lemma_mod_bound(
                self.current_byte_idx as int,
                self.ty.spec_size() as int,
            );
        }
    }

    /// Creates a new padder for samples of type `ty`, expecting the stream
    /// to begin at byte index 0.
    pub fn new(ty: SampleType) -> (r: Self)
        ensures
            r.inv(),
            r@ == PadderModel::init(ty),
    {
        let size = ty.sample_size();
        let mut scratch: Vec<u8> = Vec::new();
        let mut i: u8 = 0;
        while i < size
            invariant
                i <= size,
                scratch@.len() == i,
            decreases size - i,
        {
            scratch.push(0);
            i = i + 1;
        }
        let r = Self { ty, current_byte_idx: 0, scratch };
        proof {
            vstd::arithmetic::div_mod::lemma_small_mod(0, ty.spec_size());
            assert(r@.partial =~= Seq::<u8>::empty());
        }
        r
    }

    /// Returns the byte index the padder expects the next in-order packet
    /// to start at.
    pub fn current_byte_idx(&self) -> (r: u64)
        ensures
            r == self@.expected,
    {
        self.current_byte_idx
    }

    /// The sample type this padder reconstructs.
    pub fn sample_ty(&self) -> (r: SampleType)
        ensures
            r == self@.ty,
    {
        self.ty
    }

    /// Feeds one packet as [`Self::feed_bytes`] does, checking at run
    /// time what that function assumes; a packet so far along the
    /// stream that the 64-bit arithmetic would run out is dropped
    /// whole and the state is unchanged.
    pub fn feed_bytes_checked(&mut self, byte_idx: u64, bytes: &Vec<u8>, pad: u64) -> (r:
        Vec<u64>)
        ensures
            final(self).inv() == old(self).inv(),
            (old(self).inv() && byte_idx + bytes@.len() + 2 * old(self)@.ty.spec_size()
                <= u64::MAX && (byte_idx + old(self)@.ty.spec_size() - 1) / (
            old(self)@.ty.spec_size() as int) <= usize::MAX) ==> {
                &&& final(self)@ == spec_feed(old(self)@, byte_idx as int, bytes@, pad).0
                &&& r@ == spec_feed(old(self)@, byte_idx as int, bytes@, pad).1
            },
    {
        let size = self.ty.sample_size();
        if self.scratch.len() != size as usize {
            return Vec::new();
        }
        let size64 = size as u64;
        let two_size = 2 * size64;
        if byte_idx > u64::MAX - two_size || bytes.len() as u64 > u64::MAX - two_size
            - byte_idx {
            return Vec::new();
        }
        if (byte_idx + (size64 - 1)) / size64 > (usize::MAX as u64) {
            return Vec::new();
        }
        proof {
            assert(self.inv());
        }
        self.feed_bytes(byte_idx, bytes, pad)
    }

    /// Feeds one packet into the padder and returns the reconstructed
    /// samples, exactly as [`spec_feed`] describes: a reordered packet is
    /// dropped and the state is unchanged; an in-order packet appends; a
    /// gap produces one `pad` sample per sample the gap touches and resumes
    /// at the next sample boundary.
    #[verifier::rlimit(60)]
    pub fn feed_bytes(&mut self, byte_idx: u64, bytes: &Vec<u8>, pad: u64) -> (r: Vec<
        u64,
    >)
        requires
            old(self).inv(),
            byte_idx + bytes@.len() + 2 * old(self)@.ty.spec_size() <= u64::MAX,
            (byte_idx + old(self)@.ty.spec_size() - 1) / (old(self)@.ty.spec_size() as int)
                <= usize::MAX,
        ensures
            final(self).inv(),
            final(self)@ == spec_feed(old(self)@, byte_idx as int, bytes@, pad).0,
            r@ == spec_feed(old(self)@, byte_idx as int, bytes@, pad).1,
    {
        broadcast use vstd::arithmetic::div_mod::lemma_fundamental_div_mod;
        broadcast use vstd::arithmetic::div_mod::lemma_mod_bound;

        let ghost m0 = self@;
        let ghost outcome = spec_feed(old(self)@, byte_idx as int, bytes@, pad);
        let size64 = self.ty.sample_size() as u64;
        let ghost size = size64 as int;
        proof {
            self.lemma_inv_wf();
        }
        if byte_idx < self.current_byte_idx {
            let r: Vec<u64> = Vec::new();
            return r;
        }
        let n_pad: u64;
        let skip: u64;
        if byte_idx > self.current_byte_idx {
            let prev = self.current_byte_idx / size64;
            let next = (byte_idx + (size64 - 1)) / size64;
            proof {
                assert(next * size >= byte_idx && prev * size
                    <= self.current_byte_idx as int && next > prev) by (nonlinear_arith)
                    requires
                        size >= 1,
                        byte_idx > self.current_byte_idx,
                        byte_idx + size - 1 == size * (next as int) + (byte_idx + size
                            - 1) % size,
                        0 <= (byte_idx + size - 1) % size < size,
                        self.current_byte_idx as int == size * (prev as int) + (
                        self.current_byte_idx as int) % size,
                        0 <= (self.current_byte_idx as int) % size < size,
                ;
                assert((next as int) * size == next_boundary(byte_idx as int, size));
                vstd::arithmetic::div_mod::lemma_mod_multiples_basic(next as int, size);
                assert(next * size - byte_idx < size) by (nonlinear_arith)
                    requires
                        size >= 1,
                        byte_idx + size - 1 == size * (next as int) + (byte_idx + size
                            - 1) % size,
                        0 <= (byte_idx + size - 1) % size < size,
                ;
            }
            n_pad = next - prev;
            let start = next * size64;
            skip = start - byte_idx;
            self.current_byte_idx = start;
            proof {
                assert(self@.partial =~= Seq::<u8>::empty());
            }
        } else {
            n_pad = 0;
            skip = 0;
            proof {
                assert(bytes@.skip(0) =~= bytes@);
            }
        }
        // After the skip phase: the stream position `expected1` marks where
        // the kept input resumes, and `partial1` holds the in-progress
        // bytes carried into this packet.
        let ghost expected1 = self.current_byte_idx as int;
        let ghost partial1 = self@.partial;
        let ghost plen = partial1.len() as int;
        let ghost kept = if skip as int <= bytes@.len() {
            bytes@.skip(skip as int)
        } else {
            Seq::<u8>::empty()
        };
        let ghost full = partial1 + kept;
        let ghost pad_seq = Seq::new(n_pad as nat, |i: int| pad);
        proof {
            assert(outcome.1 == pad_seq + decode_chunks(m0.ty, full));
            assert(outcome.0.expected == expected1 + kept.len());
            assert(outcome.0.partial == full.skip((full.len() as int / size) * size));
            assert(expected1 + kept.len() <= byte_idx + size + bytes@.len());
            assert(expected1 % size == plen) by {
                vstd::arithmetic::div_mod::lemma_mod_twice(expected1, size);
            }
            assert(0 <= plen < size);
        }

        let mut out: Vec<u64> = Vec::new();
        let mut k: u64 = 0;
        while k < n_pad
            invariant
                k <= n_pad,
                out@ =~= Seq::new(k as nat, |i: int| pad),
            decreases n_pad - k,
        {
            out.push(pad);
            proof {
                assert(out@ =~= Seq::new((k + 1) as nat, |i: int| pad));
            }
            k = k + 1;
        }
        proof {
            assert(out@ =~= pad_seq);
        }

        let blen = bytes.len();
        let mut i: usize = if skip > blen as u64 {
            blen
        } else {
            skip as usize
        };
        let ghost istart = i as int;
        proof {
            if skip as int <= bytes@.len() {
                assert(istart == skip as int);
            } else {
                assert(kept.len() == 0);
            }
            assert(kept =~= bytes@.skip(istart));
            // Entry facts for the consume loop.
            assert(size != 0);
            assert(0 <= plen);
            assert(plen < size);
            assert(plen == 0 * size + plen);
            assert((plen as int) / size == 0 && (plen as int) % size == plen) by {
                vstd::arithmetic::div_mod::lemma_fundamental_div_mod_converse(
                    plen, size, 0, plen,
                );
            }
            assert(full.subrange(0, plen) =~= partial1);
            assert(self@.partial == self.scratch@.take(expected1 % size));
            assert(full.take(0) =~= Seq::<u8>::empty());
            assert(decode_chunks(self.ty, Seq::<u8>::empty()) =~= Seq::<u64>::empty());
            assert(pad_seq + Seq::<u64>::empty() =~= pad_seq);
        }
        while i < blen
            invariant
                self.inv(),
                self.ty == m0.ty,
                size == self.ty.spec_size() as int,
                size64 == size,
                0 <= istart <= i <= blen,
                blen == bytes@.len(),
                kept =~= bytes@.skip(istart),
                full == partial1 + kept,
                plen == partial1.len(),
                0 <= plen < size,
                expected1 % size == plen,
                expected1 >= 0,
                expected1 + kept.len() + size <= u64::MAX,
                self.current_byte_idx as int == expected1 + (i - istart),
                self.scratch@.take((plen + (i - istart)) % size) =~= full.subrange(
                    (((plen + (i - istart)) / size) * size),
                    plen + (i - istart),
                ),
                out@ =~= pad_seq + decode_chunks(
                    self.ty,
                    full.take((((plen + (i - istart)) / size) * size)),
                ),
            decreases blen - i,
        {
            broadcast use vstd::arithmetic::div_mod::lemma_fundamental_div_mod;
            broadcast use vstd::arithmetic::div_mod::lemma_mod_bound;

            let ghost j = i - istart;
            let ghost c = plen + j;
            let ghost q = c / size;
            let ghost r0 = c % size;
            proof {
                // The current position and the consumed count agree modulo
                // the sample size.
                vstd::arithmetic::div_mod::lemma_add_mod_noop(expected1, j, size);
                vstd::arithmetic::div_mod::lemma_add_mod_noop(plen, j, size);
                vstd::arithmetic::div_mod::lemma_mod_twice(expected1, size);
                vstd::arithmetic::div_mod::lemma_mod_twice(plen, size);
                vstd::arithmetic::div_mod::lemma_mod_twice(j, size);
                assert((expected1 + j) % size == r0);
                assert(bytes@.skip(istart).len() == blen - istart);
                assert(kept.len() == blen - istart);
                assert(full.len() == partial1.len() + kept.len());
                assert(c < full.len());
                assert(full[c] == (partial1 + kept)[c]);
                assert((partial1 + kept)[c] == kept[j]);
                assert(kept[j] == bytes@.skip(istart)[j]);
                assert(bytes@.skip(istart)[j] == bytes@[istart + j]);
                assert(q * size == size * q);
                assert(c == size * q + r0);
            }
            let pos_u64 = self.current_byte_idx % size64;
            let pos = pos_u64 as usize;
            proof {
                assert(pos == r0);
            }
            let b = bytes[i];
            let ghost old_scratch = self.scratch@;
            self.scratch.set(pos, b);
            self.current_byte_idx = self.current_byte_idx + 1;
            i = i + 1;
            let ghost c1 = c + 1;
            if self.current_byte_idx % size64 == 0 {
                proof {
                    // A boundary was crossed, so the position sat on the
                    // last byte of a sample.
                    vstd::arithmetic::div_mod::lemma_add_mod_noop(expected1, j + 1, size);
                    vstd::arithmetic::div_mod::lemma_add_mod_noop(plen, j + 1, size);
                    vstd::arithmetic::div_mod::lemma_mod_twice(j + 1, size);
                    assert((expected1 + j + 1) % size == c1 % size);
                    assert(c1 % size == 0);
                    assert(r0 == size - 1) by {
                        if r0 < size - 1 {
                            vstd::arithmetic::div_mod::lemma_fundamental_div_mod_converse(
                                c1, size, q, r0 + 1,
                            );
                        }
                    }
                    assert(c1 / size == q + 1 && c1 % size == 0) by {
                        vstd::arithmetic::div_mod::lemma_fundamental_div_mod_converse(
                            c1, size, q + 1, 0,
                        );
                        assert(c1 == size * (q + 1) + 0) by (nonlinear_arith)
                            requires
                                c == size * q + r0,
                                r0 == size - 1,
                                c1 == c + 1,
                        ;
                    }
                    // The scratch buffer now spells the completed sample.
                    assert(self.scratch@ =~= full.subrange(q * size, c1)) by {
                        assert(self.scratch@.len() == size);
                        assert(c1 - q * size == size);
                        assert forall|t: int| 0 <= t < size implies self.scratch@[t]
                            == full.subrange(q * size, c1)[t] by {
                            if t < r0 {
                                assert(self.scratch@[t] == old_scratch[t]);
                                assert(old_scratch.take(r0)[t] == full.subrange(
                                    q * size,
                                    c,
                                )[t]);
                                assert(full.subrange(q * size, c)[t] == full[q * size
                                    + t]);
                            } else if t == r0 {
                                assert(self.scratch@[t] == b);
                                assert(full[c] == b);
                                assert(q * size + t == c);
                            }
                        }
                    }
                }
                let sample = codec::from_bytes(self.ty, &self.scratch);
                out.push(sample);
                proof {
                    let chunk = full.subrange(q * size, c1);
                    assert(sample as nat == le_value(chunk));
                    assert(sample == le_value(chunk) as u64) by {
                        codec::lemma_le_value_bound(chunk);
                        codec::lemma_pow256_monotonic(chunk.len() as nat, 8);
                        codec::lemma_pow256_8();
                    }
                    vstd::arithmetic::div_mod::lemma_mod_multiples_basic(q, size);
                    assert((q * size) % size == 0);
                    assert(q * size + size == c1);
                    lemma_decode_chunks_take_step(self.ty, full, q * size);
                    assert(full.subrange(q * size, q * size + size) =~= chunk);
                    // The new aligned prefix is exactly one chunk longer.
                    assert(((plen + (i - istart)) / size) * size == c1) by {
                        assert(plen + (i - istart) == c1);
                        assert(c1 / size == q + 1);
                        assert((q + 1) * size == c1) by (nonlinear_arith)
                            requires
                                c == size * q + r0,
                                r0 == size - 1,
                                c1 == c + 1,
                        ;
                    }
                    assert(full.take(q * size + size) == full.take(c1));
                    assert(out@ =~= (pad_seq + decode_chunks(
                        self.ty,
                        full.take(q * size),
                    )).push(sample));
                    assert((pad_seq + decode_chunks(self.ty, full.take(q * size))).push(
                        sample,
                    ) =~= pad_seq + (decode_chunks(self.ty, full.take(q * size)).push(
                        sample,
                    )));
                    assert(decode_chunks(self.ty, full.take(q * size)).push(sample)
                        =~= decode_chunks(self.ty, full.take(q * size)) + seq![sample]);
                    assert(q * size == (q + 1) * size - size) by (nonlinear_arith);
                    // In-progress bytes after a completed sample: none.
                    assert(self.scratch@.take((plen + (i - istart)) % size)
                        =~= full.subrange(c1, c1));
                }
            } else {
                proof {
                    vstd::arithmetic::div_mod::lemma_add_mod_noop(expected1, j + 1, size);
                    vstd::arithmetic::div_mod::lemma_add_mod_noop(plen, j + 1, size);
                    vstd::arithmetic::div_mod::lemma_mod_twice(j + 1, size);
                    assert((expected1 + j + 1) % size == c1 % size);
                    assert(c1 % size != 0);
                    assert(r0 < size - 1) by {
                        if r0 == size - 1 {
                            vstd::arithmetic::div_mod::lemma_fundamental_div_mod_converse(
                                c1, size, q + 1, 0,
                            );
                            assert(c1 == size * (q + 1) + 0) by (nonlinear_arith)
                                requires
                                    c == size * q + r0,
                                    r0 == size - 1,
                                    c1 == c + 1,
                            ;
                        }
                    }
                    assert(c1 / size == q && c1 % size == r0 + 1) by {
                        vstd::arithmetic::div_mod::lemma_fundamental_div_mod_converse(
                            c1, size, q, r0 + 1,
                        );
                        assert(c1 == size * q + (r0 + 1));
                    }
                    assert(self.scratch@.take(r0 + 1) =~= full.subrange(q * size, c1)) by {
                        assert forall|t: int| 0 <= t < r0 + 1 implies #[trigger] (
                        self.scratch@.take(r0 + 1)[t]) == full.subrange(q * size, c1)[t] by {
                            if t < r0 {
                                assert(self.scratch@[t] == old_scratch[t]);
                                assert(old_scratch.take(r0)[t] == full.subrange(
                                    q * size,
                                    c,
                                )[t]);
                                assert(full.subrange(q * size, c)[t] == full[q * size
                                    + t]);
                            } else {
                                assert(t == r0);
                                assert(self.scratch@[t] == b);
                                assert(full[c] == b);
                                assert(q * size + t == c);
                            }
                        }
                    }
                    assert(out@ =~= pad_seq + decode_chunks(
                        self.ty,
                        full.take((((plen + (i - istart)) / size) * size)),
                    ));
                }
            }
        }
        proof {
            assert(i as int == blen as int);
            assert(kept.len() == blen - istart);
            let total = plen + kept.len() as int;
            assert(full.len() == total);
            let qe = total / size;
            let re = total % size;
            assert(size >= 1);
            vstd::arithmetic::div_mod::lemma_mod_bound(total, size);
            assert(0 <= re < size);
            assert(total == size * qe + re);
            vstd::arithmetic::div_mod::lemma_mod_multiples_basic(qe, size);
            assert((qe * size) % size == 0);
            assert(size * qe == qe * size) by (nonlinear_arith);
            assert(qe * size <= total && total - qe * size < size);
            lemma_decode_chunks_ignores_tail(self.ty, full, qe * size);
            assert(out@ =~= pad_seq + decode_chunks(self.ty, full));
            assert(self.scratch@.take(re) =~= full.subrange(qe * size, total));
            assert(full.subrange(qe * size, total) =~= full.skip(qe * size));
            assert(self@.partial == self.scratch@.take((expected1 + kept.len() as int)
                % size));
            assert((expected1 + kept.len() as int) % size == re) by {
                vstd::arithmetic::div_mod::lemma_add_mod_noop(
                    expected1,
                    kept.len() as int,
                    size,
                );
                vstd::arithmetic::div_mod::lemma_add_mod_noop(
                    plen,
                    kept.len() as int,
                    size,
                );
                vstd::arithmetic::div_mod::lemma_mod_twice(expected1, size);
                vstd::arithmetic::div_mod::lemma_mod_twice(plen, size);
                vstd::arithmetic::div_mod::lemma_mod_twice(kept.len() as int, size);
            }
            assert(self@ =~= outcome.0);
            assert(out@ == outcome.1);
        }
        out
    }
}

/// A packet whose index lies before the expected one is reordered: it is
/// dropped whole, and the padder's state — in particular the expected byte
/// index — is unchanged.
pub proof fn lemma_feed_reorder_drops(m: PadderModel, byte_idx: int, bytes: Seq<u8>, pad: u64)
    requires
        byte_idx < m.expected,
    ensures
        spec_feed(m, byte_idx, bytes, pad).0 == m,
        spec_feed(m, byte_idx, bytes, pad).1 == Seq::<u64>::empty(),
{
}

/// When the byte range `[m.expected, byte_idx)` was lost, the output
/// begins with exactly `ceil(byte_idx / size) - floor(m.expected / size)`
/// padding samples — one for every sample the gap touches — followed by
/// the samples decoded from the input from the next sample boundary on.
pub proof fn lemma_feed_gap_padding(m: PadderModel, byte_idx: int, bytes: Seq<u8>, pad: u64)
    requires
        m.wf(),
        byte_idx > m.expected,
    ensures
        ({
            let size = m.ty.spec_size() as int;
            let n_pad = (byte_idx + size - 1) / size - m.expected / size;
            let start = next_boundary(byte_idx, size);
            let kept = if start - byte_idx <= bytes.len() {
                bytes.skip(start - byte_idx)
            } else {
                Seq::<u8>::empty()
            };
            &&& n_pad >= 1
            &&& spec_feed(m, byte_idx, bytes, pad).1 == Seq::new(n_pad as nat, |i: int| pad)
                + decode_chunks(m.ty, kept)
            &&& spec_feed(m, byte_idx, bytes, pad).0.expected == start + kept.len()
        }),
{
    let size = m.ty.spec_size() as int;
    let next = (byte_idx + size - 1) / size;
    let prev = m.expected / size;
    vstd::arithmetic::div_mod::lemma_fundamental_div_mod(byte_idx + size - 1, size);
    vstd::arithmetic::div_mod::lemma_fundamental_div_mod(m.expected, size);
    vstd::arithmetic::div_mod::lemma_mod_bound(byte_idx + size - 1, size);
    vstd::arithmetic::div_mod::lemma_mod_bound(m.expected, size);
    assert(next > prev) by (nonlinear_arith)
        requires
            size >= 1,
            byte_idx > m.expected,
            m.expected >= 0,
            byte_idx + size - 1 == size * next + (byte_idx + size - 1) % size,
            0 <= (byte_idx + size - 1) % size < size,
            m.expected == size * prev + m.expected % size,
            0 <= m.expected % size < size,
    ;
    let start = next_boundary(byte_idx, size);
    let kept = if start - byte_idx <= bytes.len() {
        bytes.skip(start - byte_idx)
    } else {
        Seq::<u8>::empty()
    };
    assert(Seq::<u8>::empty() + kept =~= kept);
}

/// The byte chunks of a packet partition, in order.
pub open spec fn concat_pieces(pieces: Seq<Seq<u8>>) -> Seq<u8>
    decreases pieces.len(),
{
    if pieces.len() == 0 {
        Seq::empty()
    } else {
        pieces[0] + concat_pieces(pieces.skip(1))
    }
}

/// Feeding a list of byte chunks as consecutive packets: each chunk is
/// presented at the stream position where the previous one ended, so the
/// packets partition the stream in order with no gaps.
pub open spec fn spec_feed_all(m: PadderModel, pieces: Seq<Seq<u8>>, pad: u64) -> (
    PadderModel,
    Seq<u64>,
)
    decreases pieces.len(),
{
    if pieces.len() == 0 {
        (m, Seq::<u64>::empty())
    } else {
        let step = spec_feed(m, m.expected, pieces[0], pad);
        let rest = spec_feed_all(step.0, pieces.skip(1), pad);
        (rest.0, step.1 + rest.1)
    }
}

/// A byte stream of length `n` spells exactly `n / size` samples.
pub proof fn lemma_decode_chunks_len(ty: SampleType, bs: Seq<u8>)
    ensures
        decode_chunks(ty, bs).len() == bs.len() as int / ty.spec_size() as int,
    decreases bs.len(),
{
    let size = ty.spec_size() as int;
    if bs.len() < size {
        vstd::arithmetic::div_mod::lemma_basic_div(bs.len() as int, size);
    } else {
        lemma_decode_chunks_len(ty, bs.skip(size));
        vstd::arithmetic::div_mod::lemma_hoist_over_denominator(
            bs.len() - size,
            1,
            ty.spec_size(),
        );
        assert(1 * size == size) by (nonlinear_arith);
    }
}

/// The state a fresh padder reaches after consuming the first `p` bytes of
/// the stream `b` in order: position `p`, with the bytes of the sample
/// straddling `p` in progress.
pub open spec fn stream_state(ty: SampleType, b: Seq<u8>, p: int) -> PadderModel {
    let size = ty.spec_size() as int;
    PadderModel { ty, expected: p, partial: b.subrange((p / size) * size, p) }
}

/// An aligned prefix of the stream decodes to a prefix of the samples.
proof fn lemma_decode_chunks_prefix(ty: SampleType, b: Seq<u8>, t: int)
    requires
        0 <= t <= b.len(),
    ensures
        decode_chunks(ty, b.take(t)) == decode_chunks(ty, b).take(t / ty.spec_size() as int),
{
    let size = ty.spec_size() as int;
    let k = t / size;
    let align = k * size;
    vstd::arithmetic::div_mod::lemma_fundamental_div_mod(t, size);
    vstd::arithmetic::div_mod::lemma_mod_bound(t, size);
    assert(size * k == k * size) by (nonlinear_arith);
    assert(align <= t && t - align < size);
    vstd::arithmetic::div_mod::lemma_mod_multiples_basic(k, size);
    assert(align % size == 0);
    lemma_decode_chunks_ignores_tail(ty, b.take(t), align);
    assert(b.take(t).take(align) =~= b.take(align));
    assert(b.take(align) + b.skip(align) =~= b);
    lemma_decode_chunks_append_aligned(ty, b.take(align), b.skip(align));
    lemma_decode_chunks_len(ty, b.take(align));
    assert(align / size == k) by {
        vstd::arithmetic::div_mod::lemma_div_multiples_vanish(k, size);
    }
    assert(decode_chunks(ty, b).take(k) =~= decode_chunks(ty, b.take(align)));
}

/// One in-order packet moves a stream-consistent padder forward along the
/// stream and yields exactly the samples completed by the new bytes.
#[verifier::rlimit(60)]
proof fn lemma_feed_step_in_order(ty: SampleType, b: Seq<u8>, p: int, c: Seq<u8>, pad: u64)
    requires
        0 <= p,
        p + c.len() <= b.len(),
        c == b.subrange(p, p + c.len() as int),
    ensures
        spec_feed(stream_state(ty, b, p), p, c, pad).0 == stream_state(
            ty,
            b,
            p + c.len() as int,
        ),
        spec_feed(stream_state(ty, b, p), p, c, pad).1 == decode_chunks(ty, b).take(
            (p + c.len() as int) / ty.spec_size() as int,
        ).skip(p / ty.spec_size() as int),
{
    let size = ty.spec_size() as int;
    let t = p + c.len() as int;
    let k = p / size;
    let align = k * size;
    let kt = t / size;
    let align_t = kt * size;
    vstd::arithmetic::div_mod::lemma_fundamental_div_mod(p, size);
    vstd::arithmetic::div_mod::lemma_mod_bound(p, size);
    vstd::arithmetic::div_mod::lemma_fundamental_div_mod(t, size);
    vstd::arithmetic::div_mod::lemma_mod_bound(t, size);
    assert(size * k == k * size && size * kt == kt * size) by (nonlinear_arith);
    assert(align <= p && p - align < size);
    assert(align_t <= t && t - align_t < size);
    vstd::arithmetic::div_mod::lemma_mod_multiples_basic(k, size);
    vstd::arithmetic::div_mod::lemma_mod_multiples_basic(kt, size);
    vstd::arithmetic::div_mod::lemma_div_is_ordered(p, t, size);

    let m = stream_state(ty, b, p);
    let full0 = m.partial + c.skip(0);
    assert(c.skip(0) =~= c);
    assert(m.partial + c =~= b.subrange(align, t));
    let full = b.subrange(align, t);
    assert(full0 == full);
    let outcome = spec_feed(m, p, c, pad);
    assert(outcome.1 == Seq::new(0, |i: int| pad) + decode_chunks(ty, full));
    assert(Seq::new(0, |i: int| pad) + decode_chunks(ty, full) =~= decode_chunks(ty, full));
    assert(outcome.0.expected == t);

    // The new in-progress bytes are those past the last boundary in `full`.
    assert(full.len() == t - align);
    assert((t - align) / size == kt - k) by {
        vstd::arithmetic::div_mod::lemma_hoist_over_denominator(
            t - align,
            k,
            ty.spec_size(),
        );
        assert(k * (size as int) == align);
    }
    assert(((t - align) / size) * size == align_t - align) by {
        assert((kt - k) * size == kt * size - k * size) by (nonlinear_arith);
    }
    assert(outcome.0.partial == full.skip(align_t - align));
    assert(full.skip(align_t - align) =~= b.subrange(align_t, t));
    assert(outcome.0 =~= stream_state(ty, b, t));

    // The produced samples are the freshly completed chunks.
    assert(b.take(align) + full =~= b.take(t));
    assert(b.take(align).len() % ty.spec_size() == 0);
    lemma_decode_chunks_append_aligned(ty, b.take(align), full);
    lemma_decode_chunks_len(ty, b.take(align));
    assert(align / size == k) by {
        vstd::arithmetic::div_mod::lemma_div_multiples_vanish(k, size);
    }
    lemma_decode_chunks_prefix(ty, b, t);
    assert(decode_chunks(ty, full) =~= decode_chunks(ty, b.take(t)).skip(k));
}

/// Feeding chunks that partition the rest of the stream carries a
/// stream-consistent padder to the end of the stream and yields exactly
/// the samples not yet produced.
proof fn lemma_feed_all_in_order(
    ty: SampleType,
    b: Seq<u8>,
    p: int,
    pieces: Seq<Seq<u8>>,
    pad: u64,
)
    requires
        0 <= p <= b.len(),
        concat_pieces(pieces) == b.skip(p),
    ensures
        spec_feed_all(stream_state(ty, b, p), pieces, pad).0 == stream_state(
            ty,
            b,
            b.len() as int,
        ),
        spec_feed_all(stream_state(ty, b, p), pieces, pad).1 == decode_chunks(ty, b).skip(
            p / ty.spec_size() as int,
        ),
    decreases pieces.len(),
{
    let size = ty.spec_size() as int;
    if pieces.len() == 0 {
        assert(b.skip(p).len() == 0);
        assert(p == b.len());
        lemma_decode_chunks_len(ty, b);
        assert(decode_chunks(ty, b).skip(p / size) =~= Seq::<u64>::empty());
    } else {
        let c = pieces[0];
        let clen = c.len() as int;
        assert(c + concat_pieces(pieces.skip(1)) == b.skip(p));
        assert(clen <= b.len() - p) by {
            assert((c + concat_pieces(pieces.skip(1))).len() == b.skip(p).len());
        }
        assert(c =~= b.subrange(p, p + clen)) by {
            assert forall|q: int| 0 <= q < clen implies c[q] == b.subrange(p, p + clen)[q] by {
                assert((c + concat_pieces(pieces.skip(1)))[q] == c[q]);
                assert(b.skip(p)[q] == b[p + q]);
            }
        }
        lemma_feed_step_in_order(ty, b, p, c, pad);
        let t = p + clen;
        assert(concat_pieces(pieces.skip(1)) =~= b.skip(t)) by {
            assert forall|q: int| 0 <= q < b.len() - t implies concat_pieces(pieces.skip(1))[q]
                == b.skip(t)[q] by {
                assert((c + concat_pieces(pieces.skip(1)))[clen + q] == concat_pieces(
                    pieces.skip(1),
                )[q]);
                assert(b.skip(p)[clen + q] == b[p + clen + q]);
            }
        }
        lemma_feed_all_in_order(ty, b, t, pieces.skip(1), pad);
        // The two output segments chain into the full remaining suffix.
        lemma_decode_chunks_len(ty, b);
        vstd::arithmetic::div_mod::lemma_div_is_ordered(p, t, size);
        vstd::arithmetic::div_mod::lemma_div_is_ordered(t, b.len() as int, size);
        let all = decode_chunks(ty, b);
        assert(all.take(t / size).skip(p / size) + all.skip(t / size) =~= all.skip(p / size));
    }
}

/// The byte stream of bounded samples decodes back to those samples.
pub proof fn lemma_decode_of_sample_stream(ty: SampleType, samples: Seq<u64>)
    requires
        forall|i: int| 0 <= i < samples.len() ==> (#[trigger] samples[i]) < codec::pow256(
            ty.spec_size(),
        ),
    ensures
        decode_chunks(ty, super::producer::sample_stream_bytes(ty, samples)) == samples,
    decreases samples.len(),
{
    let size = ty.spec_size() as int;
    let b = super::producer::sample_stream_bytes(ty, samples);
    if samples.len() == 0 {
        assert(b.len() == 0);
        assert(decode_chunks(ty, b) =~= samples);
    } else {
        let s0 = samples[0];
        let head = codec::le_bytes(s0 as nat, ty.spec_size());
        let rest = super::producer::sample_stream_bytes(ty, samples.skip(1));
        codec::lemma_le_bytes_len(s0 as nat, ty.spec_size());
        super::producer::lemma_sample_stream_bytes_len(ty, samples.skip(1));
        assert(b == head + rest);
        assert(b.len() >= size);
        assert(b.take(size) =~= head);
        assert(b.skip(size) =~= rest);
        codec::lemma_le_value_of_le_bytes(s0 as nat, ty.spec_size());
        vstd::arithmetic::div_mod::lemma_small_mod(
            s0 as nat,
            codec::pow256(ty.spec_size()),
        );
        assert(le_value(head) == s0 as nat);
        assert(le_value(b.take(size)) as u64 == s0);
        lemma_decode_of_sample_stream(ty, samples.skip(1));
        assert(seq![s0] + samples.skip(1) =~= samples);
    }
}

/// Law: framer round-trip. For any sequence of samples, each representable
/// in its type's size, and any in-order, gapless partition of the emitted
/// byte stream into packets, a fresh consumer reconstructs exactly the
/// original samples.
pub proof fn lemma_framer_round_trip(
    ty: SampleType,
    samples: Seq<u64>,
    pieces: Seq<Seq<u8>>,
    pad: u64,
)
    requires
        forall|i: int| 0 <= i < samples.len() ==> (#[trigger] samples[i]) < codec::pow256(
            ty.spec_size(),
        ),
        concat_pieces(pieces) == super::producer::sample_stream_bytes(ty, samples),
    ensures
        spec_feed_all(PadderModel::init(ty), pieces, pad).1 == samples,
        spec_feed_all(PadderModel::init(ty), pieces, pad).0.expected
            == super::producer::sample_stream_bytes(ty, samples).len(),
{
    let size = ty.spec_size() as int;
    let b = super::producer::sample_stream_bytes(ty, samples);
    vstd::arithmetic::div_mod::lemma_basic_div(0, size);
    assert(PadderModel::init(ty) =~= stream_state(ty, b, 0)) by {
        assert(b.subrange(0 * size, 0) =~= Seq::<u8>::empty());
    }
    assert(b.skip(0) =~= b);
    lemma_feed_all_in_order(ty, b, 0, pieces, pad);
    assert(decode_chunks(ty, b).skip(0) =~= decode_chunks(ty, b));
    lemma_decode_of_sample_stream(ty, samples);
}


/// A sink for reconstructed samples.
///
/// Implementations decide where the samples go; a sink may accept fewer
/// samples than offered when it is out of room.
pub trait SampleSink {
    fn consume_samples(&mut self, spls: Vec<u64>);
}

/// Consumer of indexed audio packets: each packet is a starting byte
/// index and the payload bytes found there.
pub trait AudioPacketConsumer {
    fn consume_packet(&mut self, byte_idx: u64, bytes: &Vec<u8>);
}

/// Adapter combining a byte-to-sample framer and a sample sink: each
/// incoming packet is reconstructed into samples, padded with the
/// type's silence where data is missing, and forwarded to the sink.
pub struct IndexedAudioByteStreamSender<S> {
    sink: S,
    framer: AudioPacketSamplePadder,
}

impl<S> IndexedAudioByteStreamSender<S> {
    /// Pairs a sample sink with a fresh padder for samples of type `ty`.
    pub fn new(sink: S, ty: SampleType) -> Self {
        Self { sink, framer: AudioPacketSamplePadder::new(ty) }
    }
}

impl<S: SampleSink> AudioPacketConsumer for IndexedAudioByteStreamSender<S> {
    /// Reconstructs the packet's samples, padding with the type's
    /// silence, and hands them to the sink.
    fn consume_packet(&mut self, byte_idx: u64, bytes: &Vec<u8>) {
        let pad = self.framer.sample_ty().silence();
        let spls = self.framer.feed_bytes_checked(byte_idx, bytes, pad);
        self.sink.consume_samples(spls);
    }
}

} // verus!
