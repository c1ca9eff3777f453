//! Sample codec: little-endian conversion between raw sample values and
//! packed byte representations.
//!
//! A sample is carried as the raw integer its little-endian bytes spell;
//! floating-point samples travel as their IEEE 754 bit patterns. A sample
//! of a type of size `n` is a value below `256^n`.

use vstd::prelude::*;
use super::format::SampleType;

verus! {

/// `256^n`: the number of distinct byte patterns of length `n`.
pub open spec fn pow256(n: nat) -> nat
    decreases n,
{
    if n == 0 {
        1
    } else {
        256 * pow256((n - 1) as nat)
    }
}

pub proof fn lemma_pow256_positive(n: nat)
    ensures
        pow256(n) >= 1,
    decreases n,
{
    if n > 0 {
        lemma_pow256_positive((n - 1) as nat);
    }
}

pub proof fn lemma_pow256_monotonic(m: nat, n: nat)
    requires
        m <= n,
    ensures
        pow256(m) <= pow256(n),
    decreases n,
{
    if m < n {
        lemma_pow256_monotonic(m, (n - 1) as nat);
        lemma_pow256_positive((n - 1) as nat);
    }
}

/// `pow256(8)` covers exactly the values of a `u64`.
pub proof fn lemma_pow256_8()
    ensures
        pow256(8) == 0x10000000000000000,
{
    reveal_with_fuel(pow256, 9);
}

/// The small powers that sample sizes use.
pub proof fn lemma_pow256_values()
    ensures
        pow256(1) == 0x100,
        pow256(2) == 0x10000,
        pow256(3) == 0x1000000,
        pow256(4) == 0x100000000,
        pow256(8) == 0x10000000000000000,
{
    reveal_with_fuel(pow256, 9);
}

/// The value a little-endian byte sequence spells.
pub open spec fn le_value(bs: Seq<u8>) -> nat
    decreases bs.len(),
{
    if bs.len() == 0 {
        0
    } else {
        (bs[0] + 256 * le_value(bs.skip(1))) as nat
    }
}

/// The `n` little-endian bytes of `v` (`v` taken modulo `256^n`).
pub open spec fn le_bytes(v: nat, n: nat) -> Seq<u8>
    decreases n,
{
    if n == 0 {
        Seq::empty()
    } else {
        seq![(v % 256) as u8] + le_bytes(v / 256, (n - 1) as nat)
    }
}

pub proof fn lemma_le_bytes_len(v: nat, n: nat)
    ensures
        le_bytes(v, n).len() == n,
    decreases n,
{
    if n > 0 {
        lemma_le_bytes_len(v / 256, (n - 1) as nat);
    }
}

/// A byte sequence of length `n` spells a value below `256^n`.
pub proof fn lemma_le_value_bound(bs: Seq<u8>)
    ensures
        le_value(bs) < pow256(bs.len()),
    decreases bs.len(),
{
    if bs.len() == 0 {
    } else {
        lemma_le_value_bound(bs.skip(1));
        assert(bs[0] + 256 * le_value(bs.skip(1)) < 256 * pow256((bs.len() - 1) as nat))
            by (nonlinear_arith)
            requires
                bs[0] < 256,
                le_value(bs.skip(1)) < pow256((bs.len() - 1) as nat),
        ;
    }
}

/// Encoding then decoding recovers the value modulo `256^n`.
pub proof fn lemma_le_value_of_le_bytes(v: nat, n: nat)
    ensures
        le_value(le_bytes(v, n)) == v % pow256(n),
    decreases n,
{
    if n == 0 {
        assert(v % 1 == 0) by (nonlinear_arith);
    } else {
        let rest = le_bytes(v / 256, (n - 1) as nat);
        assert(le_bytes(v, n).skip(1) =~= rest);
        lemma_le_value_of_le_bytes(v / 256, (n - 1) as nat);
        lemma_pow256_positive((n - 1) as nat);
        vstd::arithmetic::div_mod::lemma_mod_breakdown(
            v as int,
            256,
            pow256((n - 1) as nat) as int,
        );
    }
}

/// Decoding then re-encoding recovers the bytes exactly: the codec
/// round-trips on every byte pattern.
pub proof fn lemma_le_bytes_of_le_value(bs: Seq<u8>)
    ensures
        le_bytes(le_value(bs), bs.len()) == bs,
    decreases bs.len(),
{
    if bs.len() == 0 {
        assert(le_bytes(le_value(bs), bs.len()) =~= bs);
    } else {
        let tail = bs.skip(1);
        let v = le_value(bs);
        lemma_le_bytes_of_le_value(tail);
        assert(v == bs[0] + 256 * le_value(tail));
        assert(v % 256 == bs[0] && v / 256 == le_value(tail)) by (nonlinear_arith)
            requires
                v == bs[0] + 256 * le_value(tail),
                0 <= bs[0] < 256,
                le_value(tail) >= 0,
        ;
        assert(le_bytes(v, bs.len()) =~= bs);
    }
}

/// Appends the `n` little-endian bytes of `v` to `out`.
pub fn push_le_bytes(out: &mut Vec<u8>, v: u64, n: u8)
    ensures
        final(out)@ == old(out)@ + le_bytes(v as nat, n as nat),
        final(out)@.len() == old(out)@.len() + n,
{
    proof {
        lemma_le_bytes_len(v as nat, n as nat);
    }
    let mut rem = v;
    let mut i: u8 = 0;
    while i < n
        invariant
            i <= n,
            out@.len() == old(out)@.len() + i,
            out@ + le_bytes(rem as nat, (n - i) as nat) == old(out)@ + le_bytes(
                v as nat,
                n as nat,
            ),
        decreases n - i,
    {
        let ghost pre = out@;
        let b = (rem % 256) as u8;
        out.push(b);
        proof {
            let k = (n - i) as nat;
            assert(le_bytes(rem as nat, k) == seq![b] + le_bytes(rem as nat / 256, (k
                - 1) as nat));
            assert((pre + seq![b]) + le_bytes(rem as nat / 256, (k - 1) as nat) =~= pre + (
            seq![b] + le_bytes(rem as nat / 256, (k - 1) as nat)));
        }
        rem = rem / 256;
        i = i + 1;
    }
    proof {
        assert(le_bytes(rem as nat, 0) =~= Seq::<u8>::empty());
        assert(out@ + Seq::<u8>::empty() =~= out@);
    }
}

/// Reads the value that `size` little-endian bytes of `bytes`, starting at
/// `start`, spell.
pub fn read_le_bytes(bytes: &Vec<u8>, start: usize, size: u8) -> (r: u64)
    requires
        size <= 8,
        start + size <= bytes@.len(),
    ensures
        r as nat == le_value(bytes@.subrange(start as int, start + size)),
        r < pow256(size as nat),
{
    let ghost window = bytes@.subrange(start as int, start + size);
    let blen = bytes.len();
    let mut v: u64 = 0;
    let mut i: u8 = size;
    while i > 0
        invariant
            i <= size,
            size <= 8,
            start + size <= blen,
            blen == bytes@.len(),
            window == bytes@.subrange(start as int, start + size),
            v as nat == le_value(window.skip(i as int)),
            v < pow256((size - i) as nat),
        decreases i,
    {
        i = i - 1;
        let b = bytes[start + i as usize];
        proof {
            assert(window.skip(i as int)[0] == b);
            assert(window.skip(i as int).skip(1) =~= window.skip(i + 1));
            lemma_pow256_monotonic((size - i - 1) as nat, 7);
            lemma_pow256_8();
            assert(pow256(7) * 256 == pow256(8)) by {
                reveal_with_fuel(pow256, 9);
            }
            assert((v as nat) * 256 + b < pow256((size - i) as nat)) by (nonlinear_arith)
                requires
                    (v as nat) < pow256((size - i - 1) as nat),
                    b < 256,
                    pow256((size - i) as nat) == 256 * pow256((size - i - 1) as nat),
            ;
            assert(pow256((size - i) as nat) <= pow256(8)) by {
                lemma_pow256_monotonic((size - i) as nat, 8);
            }
        }
        v = v * 256 + (b as u64);
    }
    proof {
        assert(window.skip(0) =~= window);
    }
    v
}

/// Writes the little-endian representation of `sample` for type `ty` into a
/// fresh byte vector of exactly `size(ty)` bytes.
pub fn to_bytes(ty: SampleType, sample: u64) -> (r: Vec<u8>)
    ensures
        r@ == le_bytes(sample as nat, ty.spec_size()),
        r@.len() == ty.spec_size(),
{
    let mut out: Vec<u8> = Vec::new();
    push_le_bytes(&mut out, sample, ty.sample_size());
    proof {
        assert(Seq::<u8>::empty() + le_bytes(sample as nat, ty.spec_size()) =~= le_bytes(
            sample as nat,
            ty.spec_size(),
        ));
    }
    out
}

/// Reads a sample of type `ty` from its little-endian byte representation;
/// the inverse of [`to_bytes`].
pub fn from_bytes(ty: SampleType, bytes: &Vec<u8>) -> (r: u64)
    requires
        bytes@.len() == ty.spec_size(),
    ensures
        r as nat == le_value(bytes@),
        r < pow256(ty.spec_size()),
{
    let r = read_le_bytes(bytes, 0, ty.sample_size());
    proof {
        assert(bytes@.subrange(0, ty.spec_size() as int) =~= bytes@);
    }
    r
}

/// Law: for every sample type and every byte pattern of the type's size,
/// reading a sample from the bytes and writing it back yields the same
/// bytes.
pub proof fn lemma_codec_round_trip(ty: SampleType, b: Seq<u8>)
    requires
        b.len() == ty.spec_size(),
    ensures
        le_bytes(le_value(b), ty.spec_size()) == b,
{
    lemma_le_bytes_of_le_value(b);
}

} // verus!
