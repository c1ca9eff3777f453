//! The compact datagram format with magic prefixes.
//!
//! Every packet of this format starts with one of two four-byte magic
//! identifiers, so a receiver can reject foreign traffic by inspecting
//! the first four bytes alone. An audio packet carries a sample
//! timestamp and raw sample bytes; a connection packet optionally
//! carries an audio configuration.

use vstd::prelude::*;
use super::codec::{le_bytes, le_value, push_le_bytes, read_le_bytes};
use super::config::AudioConfig;

verus! {

/// The magic prefix of an audio packet.
pub open spec fn audio_packet_id() -> Seq<u8> {
    seq![0x53u8, 0x79u8, 0x46u8, 0x61u8]
}

/// The magic prefix of a connection packet.
pub open spec fn conn_packet_id() -> Seq<u8> {
    seq![0x53u8, 0x79u8, 0x46u8, 0x63u8]
}

/// The largest datagram this format emits, in bytes: an ethernet MTU
/// minus headroom.
pub const MAX_DATAGRAM_SIZE: usize = 1452;

/// A parsed packet of this format.
#[derive(Debug)]
pub enum Message {
    /// A connection request, optionally carrying the sender's audio
    /// configuration.
    RequestConnection(Option<AudioConfig>),
    /// Audio data: the timestamp, in samples, of the first payload
    /// sample, and the raw little-endian sample bytes.
    Audio { timestamp: u64, sample_bytes: Vec<u8> },
}

/// The configuration a connection packet's payload carries, if any: a
/// channel count and a buffer size, both little-endian and positive.
pub open spec fn spec_parse_config(p: Seq<u8>) -> Option<AudioConfig> {
    if p.len() >= 8 {
        let ch = le_value(p.subrange(0, 4)) as u32;
        let fr = le_value(p.subrange(4, 8)) as u32;
        if ch >= 1 && fr >= 1 {
            Some(AudioConfig::spec_new(ch, fr))
        } else {
            None
        }
    } else {
        None
    }
}

/// Parses a connection packet's payload.
pub fn parse_config(payload: &Vec<u8>) -> (r: Option<AudioConfig>)
    ensures
        r == spec_parse_config(payload@),
{
    if payload.len() < 8 {
        return None;
    }
    let ch64 = read_le_bytes(payload, 0, 4);
    let fr64 = read_le_bytes(payload, 4, 4);
    proof {
        super::codec::lemma_pow256_values();
    }
    let ch = ch64 as u32;
    let fr = fr64 as u32;
    if ch >= 1 && fr >= 1 {
        Some(AudioConfig::new(ch, fr))
    } else {
        None
    }
}

/// Parses a datagram of this format. A packet without a known magic
/// prefix, or an audio packet too short for its timestamp, is foreign
/// traffic and yields nothing.
pub fn parse_message(b: &Vec<u8>) -> (r: Option<Message>)
    ensures
        r is Some <==> b@.len() >= 4 && (b@.subrange(0, 4) == audio_packet_id() && b@.len()
            >= 12 || b@.subrange(0, 4) == conn_packet_id()),
        (b@.len() >= 12 && b@.subrange(0, 4) == audio_packet_id()) ==> (r matches Some(m)
            && (m matches Message::Audio { timestamp, sample_bytes } ==> timestamp
            == le_value(b@.subrange(4, 12)) && sample_bytes@ == b@.skip(12)) && (m is Audio)),
        (b@.len() >= 4 && b@.subrange(0, 4) == conn_packet_id()) ==> (r matches Some(m)
            && (m matches Message::RequestConnection(cfg) ==> cfg == spec_parse_config(
            b@.skip(4),
        )) && (m is RequestConnection)),
    {
    if b.len() < 4 {
        return None;
    }
    let is_audio = b[0] == 0x53 && b[1] == 0x79 && b[2] == 0x46 && b[3] == 0x61;
    let is_conn = b[0] == 0x53 && b[1] == 0x79 && b[2] == 0x46 && b[3] == 0x63;
    proof {
        assert(b@.subrange(0, 4) =~= audio_packet_id() <==> is_audio);
        assert(b@.subrange(0, 4) =~= conn_packet_id() <==> is_conn);
    }
    if is_audio {
        if b.len() < 12 {
            return None;
        }
        let timestamp = read_le_bytes(b, 4, 8);
        let mut sample_bytes: Vec<u8> = Vec::new();
        let n = b.len();
        let mut i: usize = 12;
        while i < n
            invariant
                12 <= i <= n,
                n == b@.len(),
                sample_bytes@ =~= b@.subrange(12, i as int),
            decreases n - i,
        {
            sample_bytes.push(b[i]);
            proof {
                assert(sample_bytes@ =~= b@.subrange(12, i + 1));
            }
            i = i + 1;
        }
        proof {
            assert(b@.subrange(12, n as int) =~= b@.skip(12));
        }
        Some(Message::Audio { timestamp, sample_bytes })
    } else if is_conn {
        let payload = tail_from(b, 4);
        let cfg = parse_config(&payload);
        Some(Message::RequestConnection(cfg))
    } else {
        None
    }
}

/// Copies the bytes of `b` from `start` on into a fresh vector.
fn tail_from(b: &Vec<u8>, start: usize) -> (r: Vec<u8>)
    requires
        start <= b@.len(),
    ensures
        r@ == b@.skip(start as int),
{
    let mut r: Vec<u8> = Vec::new();
    let n = b.len();
    let mut i = start;
    while i < n
        invariant
            start <= i <= n,
            n == b@.len(),
            r@ =~= b@.subrange(start as int, i as int),
        decreases n - i,
    {
        r.push(b[i]);
        proof {
            assert(r@ =~= b@.subrange(start as int, i + 1));
        }
        i = i + 1;
    }
    proof {
        assert(b@.subrange(start as int, n as int) =~= b@.skip(start as int));
    }
    r
}

/// Builds a connection packet: the magic prefix, then, when a
/// configuration is given, its channel count and buffer size.
pub fn build_connection_packet(config: Option<AudioConfig>) -> (r: Vec<u8>)
    ensures
        r@ == conn_packet_id() + (match config {
            Some(c) => le_bytes(c.spec_n_channels() as nat, 4) + le_bytes(
                c.spec_buffer_size_frames() as nat,
                4,
            ),
            None => Seq::<u8>::empty(),
        }),
        config matches Some(c) ==> spec_parse_config(r@.skip(4)) == (if c.wf() {
            Some(c)
        } else {
            Option::<AudioConfig>::None
        }),
{
    let mut out: Vec<u8> = Vec::new();
    out.push(0x53);
    out.push(0x79);
    out.push(0x46);
    out.push(0x63);
    proof {
        assert(out@ =~= conn_packet_id());
    }
    match config {
        None => {
            proof {
                assert(out@ + Seq::<u8>::empty() =~= out@);
            }
        },
        Some(c) => {
            push_le_bytes(&mut out, c.n_channels() as u64, 4);
            push_le_bytes(&mut out, c.chunk_size_frames() as u64, 4);
            proof {
                let ghost ch = c.spec_n_channels();
                let ghost fr = c.spec_buffer_size_frames();
                assert(out@ =~= conn_packet_id() + (le_bytes(ch as nat, 4) + le_bytes(
                    fr as nat,
                    4,
                )));
                let tail = out@.skip(4);
                super::codec::lemma_le_bytes_len(ch as nat, 4);
                super::codec::lemma_le_bytes_len(fr as nat, 4);
                assert(tail.subrange(0, 4) =~= le_bytes(ch as nat, 4));
                assert(tail.subrange(4, 8) =~= le_bytes(fr as nat, 4));
                super::codec::lemma_le_value_of_le_bytes(ch as nat, 4);
                super::codec::lemma_le_value_of_le_bytes(fr as nat, 4);
                super::codec::lemma_pow256_values();
                vstd::arithmetic::div_mod::lemma_small_mod(
                    ch as nat,
                    super::codec::pow256(4),
                );
                vstd::arithmetic::div_mod::lemma_small_mod(
                    fr as nat,
                    super::codec::pow256(4),
                );
                if c.wf() {
                    assert(spec_parse_config(tail) =~= Some(AudioConfig::spec_new(ch, fr)));
                    c.lemma_spec_new_inverse();
                }
            }
        },
    }
    out
}

/// Builds an audio packet: the magic prefix, the sample timestamp, then
/// the raw sample bytes.
pub fn build_audio_packet(timestamp: u64, sample_bytes: &Vec<u8>) -> (r: Vec<u8>)
    ensures
        r@ == audio_packet_id() + le_bytes(timestamp as nat, 8) + sample_bytes@,
{
    let mut out: Vec<u8> = Vec::new();
    out.push(0x53);
    out.push(0x79);
    out.push(0x46);
    out.push(0x61);
    proof {
        assert(out@ =~= audio_packet_id());
    }
    push_le_bytes(&mut out, timestamp, 8);
    let n = sample_bytes.len();
    let mut i: usize = 0;
    while i < n
        invariant
            i <= n,
            n == sample_bytes@.len(),
            out@ =~= audio_packet_id() + le_bytes(timestamp as nat, 8)
                + sample_bytes@.subrange(0, i as int),
        decreases n - i,
    {
        out.push(sample_bytes[i]);
        proof {
            assert(out@ =~= audio_packet_id() + le_bytes(timestamp as nat, 8)
                + sample_bytes@.subrange(0, i + 1));
        }
        i = i + 1;
    }
    proof {
        assert(sample_bytes@.subrange(0, n as int) =~= sample_bytes@);
    }
    out
}

} // verus!
