//! Multichannel interleaving: gather per-channel buffers into one
//! interleaved stream, and scatter one interleaved stream back into
//! per-channel buffers.
//!
//! Samples travel as 32-bit patterns. Frame `f` of channel `c` lands at
//! position `f * channels + c` of the interleaved stream.

use vstd::prelude::*;

verus! {

/// Gathers the per-channel buffers into one interleaved stream:
/// `frame0[c0], frame0[c1], ..., frame1[c0], ...`. Fails only when the
/// channel set is empty; every channel carries one buffer per frame.
pub fn interleave(channels: &Vec<Vec<u32>>, frames: usize) -> (r: Option<Vec<u32>>)
    requires
        forall|c: int| 0 <= c < channels@.len() ==> (#[trigger] channels@[c])@.len()
            == frames,
        frames * channels@.len() <= usize::MAX,
    ensures
        r is Some <==> channels@.len() > 0,
        r matches Some(out) ==> {
            &&& out@.len() == frames * channels@.len()
            &&& forall|f: int, c: int|
                0 <= f < frames && 0 <= c < channels@.len() ==> #[trigger] out@[f
                    * channels@.len() + c] == channels@[c]@[f]
        },
{
    let n_ch = channels.len();
    if n_ch == 0 {
        return None;
    }
    let mut out: Vec<u32> = Vec::new();
    let mut f: usize = 0;
    while f < frames
        invariant
            f <= frames,
            n_ch == channels@.len(),
            n_ch >= 1,
            frames * n_ch <= usize::MAX,
            forall|c: int| 0 <= c < n_ch ==> (#[trigger] channels@[c])@.len() == frames,
            out@.len() == f * n_ch,
            forall|f2: int, c: int|
                0 <= f2 < f && 0 <= c < n_ch ==> #[trigger] out@[f2 * n_ch + c]
                    == channels@[c]@[f2],
        decreases frames - f,
    {
        let mut c: usize = 0;
        proof {
            assert((f + 1) * n_ch == f * n_ch + n_ch) by (nonlinear_arith);
            assert((f + 1) * n_ch <= frames * n_ch) by (nonlinear_arith)
                requires
                    f + 1 <= frames,
                    n_ch >= 1,
            ;
        }
        while c < n_ch
            invariant
                c <= n_ch,
                f < frames,
                n_ch == channels@.len(),
                n_ch >= 1,
                frames * n_ch <= usize::MAX,
                f * n_ch + n_ch <= frames * n_ch,
                forall|c2: int| 0 <= c2 < n_ch ==> (#[trigger] channels@[c2])@.len()
                    == frames,
                out@.len() == f * n_ch + c,
                forall|f2: int, c2: int|
                    0 <= f2 < f && 0 <= c2 < n_ch ==> #[trigger] out@[f2 * n_ch + c2]
                        == channels@[c2]@[f2],
                forall|c2: int|
                    0 <= c2 < c ==> #[trigger] out@[f * n_ch + c2] == channels@[c2]@[f as int],
            decreases n_ch - c,
        {
            out.push(channels[c][f]);
            proof {
                assert forall|f2: int, c2: int|
                    0 <= f2 < f && 0 <= c2 < n_ch implies #[trigger] out@[f2 * n_ch + c2]
                    == channels@[c2]@[f2] by {
                    assert(f2 * n_ch + n_ch <= f * n_ch) by (nonlinear_arith)
                        requires
                            f2 < f,
                            n_ch >= 1,
                    ;
                }
            }
            c = c + 1;
        }
        f = f + 1;
    }
    proof {
        assert forall|f2: int, c2: int|
            0 <= f2 < frames && 0 <= c2 < n_ch implies #[trigger] out@[f2 * n_ch + c2]
            == channels@[c2]@[f2] by {}
    }
    Some(out)
}

/// Scatters an interleaved stream back into per-channel buffers, the
/// inverse of [`interleave`]. Fails only when the channel count is
/// zero; a trailing partial frame is ignored.
pub fn deinterleave(data: &Vec<u32>, n_channels: usize) -> (r: Option<Vec<Vec<u32>>>)
    ensures
        r is Some <==> n_channels > 0,
        r matches Some(chs) ==> {
            &&& chs@.len() == n_channels
            &&& forall|c: int|
                0 <= c < n_channels ==> (#[trigger] chs@[c])@.len() == data@.len() as int
                    / (n_channels as int)
            &&& forall|f: int, c: int|
                0 <= f < data@.len() as int / (n_channels as int) && 0 <= c < n_channels
                    ==> (#[trigger] chs@[c]@[f]) == data@[f * n_channels + c]
        },
{
    if n_channels == 0 {
        return None;
    }
    let dlen = data.len();
    let frames = dlen / n_channels;
    proof {
        vstd::arithmetic::div_mod::lemma_fundamental_div_mod(
            dlen as int,
            n_channels as int,
        );
        vstd::arithmetic::div_mod::lemma_mod_bound(dlen as int, n_channels as int);
        assert(frames * n_channels <= dlen) by (nonlinear_arith)
            requires
                dlen as int == (n_channels as int) * (frames as int) + dlen as int % (
                n_channels as int),
                dlen as int % (n_channels as int) >= 0,
        ;
    }
    let mut chs: Vec<Vec<u32>> = Vec::new();
    let mut c: usize = 0;
    while c < n_channels
        invariant
            c <= n_channels,
            n_channels >= 1,
            frames == data@.len() as int / (n_channels as int),
            dlen == data@.len(),
            frames * n_channels <= dlen,
            chs@.len() == c,
            forall|c2: int| 0 <= c2 < c ==> (#[trigger] chs@[c2])@.len() == frames,
            forall|f2: int, c2: int|
                0 <= f2 < frames && 0 <= c2 < c ==> (#[trigger] chs@[c2]@[f2]) == data@[f2
                    * n_channels + c2],
        decreases n_channels - c,
    {
        let mut ch: Vec<u32> = Vec::new();
        let mut f: usize = 0;
        while f < frames
            invariant
                f <= frames,
                c < n_channels,
                n_channels >= 1,
                dlen == data@.len(),
                frames * n_channels <= dlen,
                ch@.len() == f,
                forall|f2: int|
                    0 <= f2 < f ==> (#[trigger] ch@[f2]) == data@[f2 * n_channels
                        + c],
            decreases frames - f,
        {
            proof {
                assert(f * n_channels + c < frames * n_channels) by (nonlinear_arith)
                    requires
                        f < frames,
                        c < n_channels,
                        n_channels >= 1,
                ;
            }
            ch.push(data[f * n_channels + c]);
            f = f + 1;
        }
        chs.push(ch);
        c = c + 1;
    }
    Some(chs)
}

} // verus!
