//! Discovery packets and the batching audio sender.
//!
//! Discovery uses two fixed sixteen-byte magic messages: a client beacon
//! announcing the address of its audio socket, and a server reply
//! carrying its address and audio configuration. The audio sender
//! batches samples into timestamped datagrams, flushing at chunk
//! boundaries or when a datagram fills up.

use vstd::prelude::*;
use super::codec::{le_bytes, le_value, push_le_bytes, read_le_bytes};
use super::config::AudioConfig;
use super::wire::MAX_DATAGRAM_SIZE;

verus! {

/// The magic message of a client discovery beacon, `SYFALACLIENTADDR`.
pub open spec fn discovery_id() -> Seq<u8> {
    seq![
        0x53u8, 0x59u8, 0x46u8, 0x41u8, 0x4Cu8, 0x41u8, 0x43u8, 0x4Cu8, 0x49u8, 0x45u8,
        0x4Eu8, 0x54u8, 0x41u8, 0x44u8, 0x44u8, 0x52u8,
    ]
}

/// The magic message of a server configuration reply, `SYFALASERVERCONF`.
pub open spec fn server_config_id() -> Seq<u8> {
    seq![
        0x53u8, 0x59u8, 0x46u8, 0x41u8, 0x4Cu8, 0x41u8, 0x53u8, 0x45u8, 0x52u8, 0x56u8,
        0x45u8, 0x52u8, 0x43u8, 0x4Fu8, 0x4Eu8, 0x46u8,
    ]
}

/// Appends the sixteen bytes of `id` to `out`; `id` must be one of the
/// two magic messages.
fn push_id(out: &mut Vec<u8>, first: bool)
    ensures
        final(out)@ == old(out)@ + (if first {
            discovery_id()
        } else {
            server_config_id()
        }),
{
    out.push(0x53);
    out.push(0x59);
    out.push(0x46);
    out.push(0x41);
    out.push(0x4C);
    out.push(0x41);
    if first {
        out.push(0x43);
        out.push(0x4C);
        out.push(0x49);
        out.push(0x45);
        out.push(0x4E);
        out.push(0x54);
        out.push(0x41);
        out.push(0x44);
        out.push(0x44);
        out.push(0x52);
        proof {
            assert(out@ =~= old(out)@ + discovery_id());
        }
    } else {
        out.push(0x53);
        out.push(0x45);
        out.push(0x52);
        out.push(0x56);
        out.push(0x45);
        out.push(0x52);
        out.push(0x43);
        out.push(0x4F);
        out.push(0x4E);
        out.push(0x46);
        proof {
            assert(out@ =~= old(out)@ + server_config_id());
        }
    }
}

/// Whether the first sixteen bytes of `b` spell `id`.
fn has_id(b: &Vec<u8>, first: bool) -> (r: bool)
    ensures
        r == (b@.len() >= 16 && b@.subrange(0, 16) == (if first {
            discovery_id()
        } else {
            server_config_id()
        })),
{
    if b.len() < 16 {
        return false;
    }
    let common = b[0] == 0x53 && b[1] == 0x59 && b[2] == 0x46 && b[3] == 0x41 && b[4]
        == 0x4C && b[5] == 0x41;
    let r = if first {
        common && b[6] == 0x43 && b[7] == 0x4C && b[8] == 0x49 && b[9] == 0x45 && b[10]
            == 0x4E && b[11] == 0x54 && b[12] == 0x41 && b[13] == 0x44 && b[14] == 0x44
            && b[15] == 0x52
    } else {
        common && b[6] == 0x53 && b[7] == 0x45 && b[8] == 0x52 && b[9] == 0x56 && b[10]
            == 0x45 && b[11] == 0x52 && b[12] == 0x43 && b[13] == 0x4F && b[14] == 0x4E
            && b[15] == 0x46
    };
    proof {
        if first {
            assert(r == (b@.subrange(0, 16) =~= discovery_id()));
        } else {
            assert(r == (b@.subrange(0, 16) =~= server_config_id()));
        }
    }
    r
}

/// Builds a discovery beacon: the magic message, then the beaconing
/// client's audio socket address (IPv4 bits and port, little-endian).
pub fn build_discovery_packet(ip: u32, port: u16) -> (r: Vec<u8>)
    ensures
        r@ == discovery_id() + le_bytes(ip as nat, 4) + le_bytes(port as nat, 2),
{
    let mut out: Vec<u8> = Vec::new();
    push_id(&mut out, true);
    push_le_bytes(&mut out, ip as u64, 4);
    push_le_bytes(&mut out, port as u64, 2);
    proof {
        assert(out@ =~= discovery_id() + le_bytes(ip as nat, 4) + le_bytes(
            port as nat,
            2,
        ));
    }
    out
}

/// Parses a discovery beacon: the beaconing client's audio socket
/// address. Trailing bytes are tolerated.
pub fn parse_discovery_packet(b: &Vec<u8>) -> (r: Option<(u32, u16)>)
    ensures
        r is Some <==> b@.len() >= 22 && b@.subrange(0, 16) == discovery_id(),
        r matches Some((ip, port)) ==> ip == le_value(b@.subrange(16, 20)) && port
            == le_value(b@.subrange(20, 22)),
{
    if !has_id(b, true) {
        return None;
    }
    if b.len() < 22 {
        return None;
    }
    let ip = read_le_bytes(b, 16, 4);
    let port = read_le_bytes(b, 20, 2);
    proof {
        super::codec::lemma_pow256_values();
        assert(super::codec::pow256(2) == 0x10000) by {
            reveal_with_fuel(super::codec::pow256, 3);
        }
    }
    Some((ip as u32, port as u16))
}

/// Builds a server configuration reply: the magic message, the server's
/// audio socket address, then its channel count and buffer size.
pub fn build_config_packet(ip: u32, port: u16, config: AudioConfig) -> (r: Vec<u8>)
    ensures
        r@ == server_config_id() + le_bytes(ip as nat, 4) + le_bytes(port as nat, 2)
            + le_bytes(config.spec_n_channels() as nat, 4) + le_bytes(
            config.spec_buffer_size_frames() as nat,
            4,
        ),
{
    let mut out: Vec<u8> = Vec::new();
    push_id(&mut out, false);
    push_le_bytes(&mut out, ip as u64, 4);
    push_le_bytes(&mut out, port as u64, 2);
    push_le_bytes(&mut out, config.n_channels() as u64, 4);
    push_le_bytes(&mut out, config.chunk_size_frames() as u64, 4);
    proof {
        assert(out@ =~= server_config_id() + le_bytes(ip as nat, 4) + le_bytes(
            port as nat,
            2,
        ) + le_bytes(config.spec_n_channels() as nat, 4) + le_bytes(
            config.spec_buffer_size_frames() as nat,
            4,
        ));
    }
    out
}

/// Parses a server configuration reply: the server's audio socket
/// address and configuration. A zero channel count or buffer size does
/// not describe a usable server and yields nothing.
pub fn parse_config(b: &Vec<u8>) -> (r: Option<((u32, u16), AudioConfig)>)
    ensures
        r is Some <==> b@.len() >= 30 && b@.subrange(0, 16) == server_config_id()
            && le_value(b@.subrange(22, 26)) >= 1 && le_value(b@.subrange(26, 30)) >= 1,
        r matches Some(((ip, port), config)) ==> ip == le_value(b@.subrange(16, 20))
            && port == le_value(b@.subrange(20, 22)) && config == AudioConfig::spec_new(
            le_value(b@.subrange(22, 26)) as u32,
            le_value(b@.subrange(26, 30)) as u32,
        ) && config.wf(),
{
    if !has_id(b, false) {
        return None;
    }
    if b.len() < 30 {
        return None;
    }
    let ip = read_le_bytes(b, 16, 4);
    let port = read_le_bytes(b, 20, 2);
    let ch = read_le_bytes(b, 22, 4);
    let fr = read_le_bytes(b, 26, 4);
    proof {
        super::codec::lemma_pow256_values();
        assert(super::codec::pow256(2) == 0x10000) by {
            reveal_with_fuel(super::codec::pow256, 3);
        }
    }
    if ch >= 1 && fr >= 1 {
        Some(((ip as u32, port as u16), AudioConfig::new(ch as u32, fr as u32)))
    } else {
        None
    }
}

/// The number of bytes one sample of this sender occupies: the samples
/// are 32-bit patterns.
pub const SAMPLE_SIZE: usize = 4;

/// The byte stream that a sequence of 32-bit samples spells: four
/// little-endian bytes per sample, in order.
pub open spec fn samples_bytes(spls: Seq<u32>) -> Seq<u8>
    decreases spls.len(),
{
    if spls.len() == 0 {
        Seq::empty()
    } else {
        le_bytes(spls[0] as nat, 4) + samples_bytes(spls.skip(1))
    }
}

/// Appending one sample extends the byte stream by its four bytes.
pub proof fn lemma_samples_bytes_snoc(spls: Seq<u32>, s: u32)
    ensures
        samples_bytes(spls.push(s)) == samples_bytes(spls) + le_bytes(s as nat, 4),
    decreases spls.len(),
{
    let enc = le_bytes(s as nat, 4);
    if spls.len() == 0 {
        assert(spls.push(s)[0] == s);
        assert(spls.push(s).skip(1) =~= Seq::<u32>::empty());
        assert(samples_bytes(spls.push(s)) == enc + samples_bytes(Seq::<u32>::empty()));
        assert(enc + Seq::<u8>::empty() =~= enc);
        assert(samples_bytes(spls) + enc =~= enc);
    } else {
        assert(spls.push(s)[0] == spls[0]);
        assert(spls.push(s).skip(1) =~= spls.skip(1).push(s));
        lemma_samples_bytes_snoc(spls.skip(1), s);
        assert(le_bytes(spls[0] as nat, 4) + (samples_bytes(spls.skip(1)) + enc) =~= (
        le_bytes(spls[0] as nat, 4) + samples_bytes(spls.skip(1))) + enc);
    }
}

/// The payload bytes of a run of packets, headers stripped, in order.
pub open spec fn packet_payloads(ps: Seq<Vec<u8>>) -> Seq<u8>
    decreases ps.len(),
{
    if ps.len() == 0 {
        Seq::empty()
    } else {
        ps[0]@.skip(8) + packet_payloads(ps.skip(1))
    }
}

/// Whether a run of packets chains correctly from timestamp `ts0`: each
/// packet is its timestamp followed by whole samples, and each
/// timestamp advances by the previous payload's sample count.
pub open spec fn packets_chain(ps: Seq<Vec<u8>>, ts0: int) -> bool
    decreases ps.len(),
{
    if ps.len() == 0 {
        true
    } else {
        let plen = ps[0]@.len() - 8;
        &&& ps[0]@.len() >= 8
        &&& ps[0]@.len() <= MAX_DATAGRAM_SIZE
        &&& plen % (SAMPLE_SIZE as int) == 0
        &&& ps[0]@.subrange(0, 8) == le_bytes(ts0 as nat, 8)
        &&& 0 <= ts0 <= u64::MAX
        &&& packets_chain(ps.skip(1), ts0 + plen / (SAMPLE_SIZE as int))
    }
}

/// Whether every packet of a run was flushed for a reason: counting
/// from timestamp `ts0`, each packet's payload ends on a multiple of
/// `chunk` samples, or fills the datagram completely.
pub open spec fn packets_flush_justified(ps: Seq<Vec<u8>>, ts0: int, chunk: int) -> bool
    decreases ps.len(),
{
    if ps.len() == 0 {
        true
    } else {
        let plen = ps[0]@.len() - 8;
        let end_ts = ts0 + plen / (SAMPLE_SIZE as int);
        &&& (end_ts % chunk == 0 || plen == MAX_DATAGRAM_SIZE - 8)
        &&& packets_flush_justified(ps.skip(1), end_ts, chunk)
    }
}

/// Appending a justified packet keeps the run justified.
proof fn lemma_packets_justified_snoc(ps: Seq<Vec<u8>>, p: Vec<u8>, ts0: int, chunk: int)
    requires
        packets_flush_justified(ps, ts0, chunk),
        exists|t: int| packets_chain(ps, t),
        p@.len() >= 8,
        ({
            let end_ts = ts0 + (packet_payloads(ps).len() as int + (p@.len() - 8)) / (
            SAMPLE_SIZE as int);
            end_ts % chunk == 0 || p@.len() - 8 == MAX_DATAGRAM_SIZE - 8
        }),
        packet_payloads(ps).len() as int % (SAMPLE_SIZE as int) == 0,
        (p@.len() - 8) % (SAMPLE_SIZE as int) == 0,
    ensures
        packets_flush_justified(ps.push(p), ts0, chunk),
    decreases ps.len(),
{
    let sz = SAMPLE_SIZE as int;
    let a = packet_payloads(ps).len() as int;
    let b = p@.len() - 8;
    vstd::arithmetic::div_mod::lemma_fundamental_div_mod(a, sz);
    vstd::arithmetic::div_mod::lemma_fundamental_div_mod(b, sz);
    assert((a + b) / sz == a / sz + b / sz) by (nonlinear_arith)
        requires
            sz >= 1,
            a % sz == 0,
            b % sz == 0,
            a == sz * (a / sz),
            b == sz * (b / sz),
    ;
    if ps.len() == 0 {
        assert(a == 0);
        vstd::arithmetic::div_mod::lemma_div_of0(sz);
        assert((a + b) / sz == b / sz);
        assert(ps.push(p)[0] == p);
        assert(ps.push(p).skip(1) =~= Seq::<Vec<u8>>::empty());
        assert(packets_flush_justified(
            Seq::<Vec<u8>>::empty(),
            ts0 + b / sz,
            chunk,
        ));
        assert(packets_flush_justified(ps.push(p).skip(1), ts0 + b / sz, chunk));
        assert(packets_flush_justified(ps.push(p), ts0, chunk));
    } else {
        let t = choose|t: int| packets_chain(ps, t);
        let plen0 = ps[0]@.len() - 8;
        let rest_ts = ts0 + plen0 / sz;
        let a1 = packet_payloads(ps.skip(1)).len() as int;
        assert(packets_chain(ps.skip(1), t + plen0 / sz));
        lemma_payloads_mod(ps.skip(1));
        vstd::arithmetic::div_mod::lemma_fundamental_div_mod(plen0, sz);
        vstd::arithmetic::div_mod::lemma_fundamental_div_mod(a1, sz);
        assert(a == plen0 + a1);
        assert(a / sz == plen0 / sz + a1 / sz) by (nonlinear_arith)
            requires
                sz >= 1,
                plen0 % sz == 0,
                a1 % sz == 0,
                plen0 == sz * (plen0 / sz),
                a1 == sz * (a1 / sz),
                a == plen0 + a1,
        ;
        lemma_packets_justified_snoc(ps.skip(1), p, rest_ts, chunk);
        assert(ps.push(p)[0] == ps[0]);
        assert(ps.push(p).skip(1) =~= ps.skip(1).push(p));
        assert(packets_flush_justified(ps.push(p).skip(1), rest_ts, chunk));
        assert(packets_flush_justified(ps.push(p), ts0, chunk));
    }
}

/// Batches 32-bit samples into timestamped audio datagrams.
///
/// Samples accumulate in a pending buffer; the buffer is flushed into a
/// packet at every chunk boundary and whenever a datagram fills up, so
/// one datagram never spans a chunk boundary.
pub struct Sender {
    chunk_size_spls: usize,
    current_timestamp_spls: u64,
    pending: Vec<u8>,
}

impl Sender {
    /// Representation invariant: the chunk size is positive, the pending
    /// buffer holds whole samples, and the pending buffer fits a
    /// datagram beside its header.
    pub closed spec fn wf(self) -> bool {
        &&& self.chunk_size_spls >= 1
        &&& self.pending@.len() as int % (SAMPLE_SIZE as int) == 0
        &&& self.pending@.len() + SAMPLE_SIZE <= MAX_DATAGRAM_SIZE - 8
    }

    /// The timestamp, in samples, of the first pending sample.
    pub closed spec fn spec_timestamp(self) -> u64 {
        self.current_timestamp_spls
    }

    /// The bytes of the samples accepted but not yet flushed.
    pub closed spec fn spec_pending(self) -> Seq<u8> {
        self.pending@
    }

    pub closed spec fn spec_chunk_size(self) -> usize {
        self.chunk_size_spls
    }

    /// Creates a sender that flushes at multiples of `chunk_size_spls`
    /// samples, starting at timestamp 0.
    pub fn new(chunk_size_spls: usize) -> (r: Self)
        requires
            chunk_size_spls >= 1,
        ensures
            r.wf(),
            r.spec_timestamp() == 0,
            r.spec_pending() == Seq::<u8>::empty(),
            r.spec_chunk_size() == chunk_size_spls,
    {
        proof {
            vstd::arithmetic::div_mod::lemma_small_mod(0, SAMPLE_SIZE as nat);
        }
        Self { chunk_size_spls, current_timestamp_spls: 0, pending: Vec::new() }
    }

    /// Returns the configured chunk size, in samples.
    pub fn chunk_size_samples(&self) -> (r: usize)
        ensures
            r == self.spec_chunk_size(),
    {
        self.chunk_size_spls
    }

    /// Changes the chunk size.
    pub fn set_chunk_size_samples(&mut self, size: usize)
        requires
            size >= 1,
            old(self).wf(),
        ensures
            final(self).wf(),
            final(self).spec_chunk_size() == size,
            final(self).spec_timestamp() == old(self).spec_timestamp(),
            final(self).spec_pending() == old(self).spec_pending(),
    {
        self.chunk_size_spls = size;
    }

    /// The number of samples already stored in the pending buffer.
    pub fn n_stored_samples(&self) -> (r: usize)
        requires
            self.wf(),
        ensures
            r == self.spec_pending().len() as int / (SAMPLE_SIZE as int),
    {
        self.pending.len() / SAMPLE_SIZE
    }

    /// The timestamp, in samples, that the next accepted sample will
    /// carry.
    pub fn current_timestamp_samples(&self) -> (r: u64)
        requires
            self.wf(),
            self.spec_timestamp() + self.spec_pending().len() as int / (SAMPLE_SIZE as int)
                <= u64::MAX,
        ensures
            r == self.spec_timestamp() + self.spec_pending().len() as int / (SAMPLE_SIZE as int),
    {
        self.current_timestamp_spls + (self.pending.len() / SAMPLE_SIZE) as u64
    }

    /// How many more samples fit before the next forced flush: the
    /// distance to the next chunk boundary, capped by the room left in
    /// the datagram. Always positive.
    pub fn n_remaining_chunk_samples(&self) -> (r: usize)
        requires
            self.wf(),
            self.spec_timestamp() + self.spec_pending().len() as int / (SAMPLE_SIZE as int)
                <= u64::MAX,
        ensures
            1 <= r,
            self.spec_pending().len() + r * SAMPLE_SIZE <= MAX_DATAGRAM_SIZE - 8,
            ({
                let cur = self.spec_timestamp() + self.spec_pending().len() as int / (
                SAMPLE_SIZE as int);
                let to_boundary = self.spec_chunk_size() - cur % (
                self.spec_chunk_size() as int);
                let room = (MAX_DATAGRAM_SIZE - 8 - self.spec_pending().len()) as int / (
                SAMPLE_SIZE as int);
                r == if to_boundary < room {
                    to_boundary
                } else {
                    room
                }
            }),
    {
        let cur = self.current_timestamp_samples();
        let chunk = self.chunk_size_spls as u64;
        let to_boundary = chunk - (cur % chunk);
        let room = (MAX_DATAGRAM_SIZE - 8 - self.pending.len()) / SAMPLE_SIZE;
        proof {
            vstd::arithmetic::div_mod::lemma_mod_bound(cur as int, chunk as int);
            let avail = (MAX_DATAGRAM_SIZE - 8 - self.pending@.len()) as int;
            vstd::arithmetic::div_mod::lemma_fundamental_div_mod(
                avail,
                SAMPLE_SIZE as int,
            );
            vstd::arithmetic::div_mod::lemma_mod_bound(avail, SAMPLE_SIZE as int);
            assert(room >= 1) by {
                vstd::arithmetic::div_mod::lemma_div_is_ordered(
                    SAMPLE_SIZE as int,
                    avail,
                    SAMPLE_SIZE as int,
                );
                vstd::arithmetic::div_mod::lemma_div_by_self(SAMPLE_SIZE as int);
            }
            assert(room * SAMPLE_SIZE <= avail);
            assert forall|r2: int| 1 <= r2 <= room implies self.spec_pending().len() + #[trigger] (
            r2 * SAMPLE_SIZE) <= MAX_DATAGRAM_SIZE - 8 by {
                assert(r2 * SAMPLE_SIZE <= room * SAMPLE_SIZE) by (nonlinear_arith)
                    requires
                        r2 <= room,
                        SAMPLE_SIZE >= 1,
                ;
            }
        }
        if to_boundary < room as u64 {
            to_boundary as usize
        } else {
            room
        }
    }

    /// Flushes the pending samples into one packet: the current
    /// timestamp, then the pending bytes. The timestamp advances by the
    /// flushed sample count and the buffer empties.
    pub fn flush(&mut self) -> (packet: Vec<u8>)
        requires
            old(self).spec_chunk_size() >= 1,
            old(self).spec_pending().len() as int % (SAMPLE_SIZE as int) == 0,
            old(self).spec_pending().len() <= MAX_DATAGRAM_SIZE - 8,
            old(self).spec_timestamp() + old(self).spec_pending().len() as int / (
            SAMPLE_SIZE as int) <= u64::MAX,
        ensures
            final(self).wf(),
            final(self).spec_chunk_size() == old(self).spec_chunk_size(),
            packet@ == le_bytes(old(self).spec_timestamp() as nat, 8) + old(
                self,
            ).spec_pending(),
            packet@.len() <= MAX_DATAGRAM_SIZE,
            final(self).spec_pending() == Seq::<u8>::empty(),
            final(self).spec_timestamp() == old(self).spec_timestamp() + old(
                self,
            ).spec_pending().len() as int / (SAMPLE_SIZE as int),
    {
        let n = (self.pending.len() / SAMPLE_SIZE) as u64;
        let mut packet: Vec<u8> = Vec::new();
        push_le_bytes(&mut packet, self.current_timestamp_spls, 8);
        packet.append(&mut self.pending);
        self.current_timestamp_spls = self.current_timestamp_spls + n;
        proof {
            vstd::arithmetic::div_mod::lemma_small_mod(0, SAMPLE_SIZE as nat);
            assert(Seq::<u8>::empty() + le_bytes(old(self).spec_timestamp() as nat, 8)
                =~= le_bytes(old(self).spec_timestamp() as nat, 8));
        }
        packet
    }

    /// Feeds samples into the sender. Whenever the pending buffer
    /// reaches a chunk boundary or fills the datagram, it is flushed
    /// into a packet; the returned flag says whether any packet was
    /// produced. Every byte fed in is either in a returned packet or
    /// still pending, in order, and the packet run chains correctly
    /// from the old timestamp.
    pub fn send(&mut self, samples: &Vec<u32>) -> (r: (Vec<Vec<u8>>, bool))
        requires
            old(self).wf(),
            old(self).spec_timestamp() + old(self).spec_pending().len() as int / (
            SAMPLE_SIZE as int) + samples@.len() <= u64::MAX,
        ensures
            final(self).wf(),
            final(self).spec_chunk_size() == old(self).spec_chunk_size(),
            packet_payloads(r.0@) + final(self).spec_pending() == old(self).spec_pending()
                + samples_bytes(samples@),
            packets_chain(r.0@, old(self).spec_timestamp() as int),
            packets_flush_justified(
                r.0@,
                old(self).spec_timestamp() as int,
                old(self).spec_chunk_size() as int,
            ),
            final(self).spec_timestamp() == old(self).spec_timestamp() + (
            packet_payloads(r.0@).len() as int) / (SAMPLE_SIZE as int),
            r.1 == (r.0@.len() > 0),
    {
        let mut packets: Vec<Vec<u8>> = Vec::new();
        let n = samples.len();
        let mut i: usize = 0;
        let mut rem = self.n_remaining_chunk_samples();
        proof {
            assert(packet_payloads(packets@) =~= Seq::<u8>::empty());
            assert(Seq::<u8>::empty() + old(self).spec_pending() =~= old(
                self,
            ).spec_pending());
            assert(samples@.take(0) =~= Seq::<u32>::empty());
            assert(samples_bytes(samples@.take(0)) =~= Seq::<u8>::empty());
            assert(old(self).spec_pending() + Seq::<u8>::empty() =~= old(
                self,
            ).spec_pending());
            assert(packets_flush_justified(
                packets@,
                old(self).spec_timestamp() as int,
                self.spec_chunk_size() as int,
            ));
        }
        while i < n
            invariant
                i <= n,
                n == samples@.len(),
                self.wf(),
                self.spec_chunk_size() == old(self).spec_chunk_size(),
                self.spec_timestamp() + self.spec_pending().len() as int / (SAMPLE_SIZE as int)
                    + (n - i) <= u64::MAX,
                rem >= 1,
                self.spec_pending().len() + rem * SAMPLE_SIZE <= MAX_DATAGRAM_SIZE - 8,
                ({
                    let cur = self.spec_timestamp() + self.spec_pending().len() as int / (
                    SAMPLE_SIZE as int);
                    let tb = self.spec_chunk_size() - cur % (
                    self.spec_chunk_size() as int);
                    let room = (MAX_DATAGRAM_SIZE - 8 - self.spec_pending().len()) as int
                        / (SAMPLE_SIZE as int);
                    rem == if tb < room {
                        tb
                    } else {
                        room
                    }
                }),
                old(self).wf(),
                packets_flush_justified(
                    packets@,
                    old(self).spec_timestamp() as int,
                    self.spec_chunk_size() as int,
                ),
                packet_payloads(packets@) + self.spec_pending() == old(
                    self,
                ).spec_pending() + samples_bytes(samples@.take(i as int)),
                packets_chain(packets@, old(self).spec_timestamp() as int),
                self.spec_timestamp() == old(self).spec_timestamp() + (packet_payloads(
                    packets@,
                ).len() as int) / (SAMPLE_SIZE as int),
                packet_payloads(packets@).len() as int % (SAMPLE_SIZE as int) == 0,
            decreases n - i,
        {
            let s = samples[i];
            let ghost pend0 = self.spec_pending();
            let ghost enc = le_bytes(s as nat, 4);
            proof {
                assert(samples@.take(i + 1) =~= samples@.take(i as int).push(s));
                lemma_samples_bytes_snoc(samples@.take(i as int), s);
            }
            push_le_bytes(&mut self.pending, s as u64, 4);
            proof {
                vstd::arithmetic::div_mod::lemma_mod_adds(
                    self.pending@.len() - 4,
                    4,
                    SAMPLE_SIZE as int,
                );
                vstd::arithmetic::div_mod::lemma_mod_self_0(SAMPLE_SIZE as int);
                vstd::arithmetic::div_mod::lemma_mod_twice(
                    self.pending@.len() - 4,
                    SAMPLE_SIZE as int,
                );
                assert(self.spec_pending() == pend0 + enc);
                assert(samples_bytes(samples@.take(i + 1)) == samples_bytes(samples@.take(
                    i as int,
                )) + enc);
                assert(packet_payloads(packets@) + (pend0 + enc) =~= (packet_payloads(
                    packets@,
                ) + pend0) + enc);
                assert((packet_payloads(packets@) + pend0) + enc =~= (old(
                    self,
                ).spec_pending() + samples_bytes(samples@.take(i as int))) + enc);
                assert((old(self).spec_pending() + samples_bytes(samples@.take(i as int)))
                    + enc =~= old(self).spec_pending() + samples_bytes(samples@.take(
                    i + 1,
                )));
            }
            i = i + 1;
            if rem == 1 {
                proof {
                    vstd::arithmetic::div_mod::lemma_fundamental_div_mod(
                        self.pending@.len() as int,
                        SAMPLE_SIZE as int,
                    );
                    vstd::arithmetic::div_mod::lemma_mod_bound(
                        self.pending@.len() as int,
                        SAMPLE_SIZE as int,
                    );
                }
                let ghost pre_packets = packets@;
                let ghost pre_pending = self.spec_pending();
                let ghost pre_ts = self.spec_timestamp();
                let packet = self.flush();
                let ghost packet0 = packet;
                packets.push(packet);
                proof {
                    lemma_packet_payloads_snoc(pre_packets, packet0);
                    super::codec::lemma_le_bytes_len(pre_ts as nat, 8);
                    assert(packet0@.subrange(0, 8) =~= le_bytes(pre_ts as nat, 8));
                    assert(packet0@.skip(8) =~= pre_pending);
                    lemma_packets_chain_snoc(
                        pre_packets,
                        packet0,
                        old(self).spec_timestamp() as int,
                    );
                    assert(packet_payloads(packets@) + self.spec_pending() =~= old(
                        self,
                    ).spec_pending() + samples_bytes(samples@.take(i as int)));
                    // The timestamp advance telescopes across the flush.
                    let sz = SAMPLE_SIZE as int;
                    let a = packet_payloads(pre_packets).len() as int;
                    let c = pre_pending.len() as int;
                    vstd::arithmetic::div_mod::lemma_fundamental_div_mod(a, sz);
                    vstd::arithmetic::div_mod::lemma_fundamental_div_mod(c, sz);
                    assert((a + c) / sz == a / sz + c / sz) by (nonlinear_arith)
                        requires
                            sz >= 1,
                            a % sz == 0,
                            c % sz == 0,
                            a == sz * (a / sz),
                            c == sz * (c / sz),
                    ;
                    vstd::arithmetic::div_mod::lemma_mod_adds(a, c, sz);
                    vstd::arithmetic::div_mod::lemma_mod_twice(a, sz);
                    // The flush was forced: the countdown started at the
                    // lesser of the distance to the chunk boundary and
                    // the datagram room, and it just ran out.
                    let chunk = self.spec_chunk_size() as int;
                    let ts00 = old(self).spec_timestamp() as int;
                    let p_old = (pre_pending.len() - 4) as int;
                    let cur_old = pre_ts + p_old / sz;
                    vstd::arithmetic::div_mod::lemma_fundamental_div_mod(p_old, sz);
                    vstd::arithmetic::div_mod::lemma_mod_bound(p_old, sz);
                    assert(c / sz == p_old / sz + 1) by (nonlinear_arith)
                        requires
                            sz >= 1,
                            p_old % sz == 0,
                            p_old == sz * (p_old / sz),
                            c == p_old + 4,
                            sz == 4,
                    ;
                    let cur_new = cur_old + 1;
                    let tb = chunk - cur_old % chunk;
                    let room = (MAX_DATAGRAM_SIZE - 8 - p_old) / sz;
                    assert(tb == 1 || room == 1);
                    if tb == 1 {
                        vstd::arithmetic::div_mod::lemma_fundamental_div_mod(
                            cur_old,
                            chunk,
                        );
                        vstd::arithmetic::div_mod::lemma_mod_bound(cur_old, chunk);
                        assert(cur_new == (cur_old / chunk + 1) * chunk + 0)
                            by (nonlinear_arith)
                            requires
                                cur_old == chunk * (cur_old / chunk) + cur_old % chunk,
                                cur_old % chunk == chunk - 1,
                                cur_new == cur_old + 1,
                        ;
                        vstd::arithmetic::div_mod::lemma_fundamental_div_mod_converse(
                            cur_new,
                            chunk,
                            cur_old / chunk + 1,
                            0,
                        );
                        assert(cur_new % chunk == 0);
                    } else {
                        vstd::arithmetic::div_mod::lemma_fundamental_div_mod(
                            (MAX_DATAGRAM_SIZE - 8 - p_old) as int,
                            sz,
                        );
                        vstd::arithmetic::div_mod::lemma_mod_bound(
                            (MAX_DATAGRAM_SIZE - 8 - p_old) as int,
                            sz,
                        );
                        assert(MAX_DATAGRAM_SIZE - 8 - p_old == 4);
                        assert(pre_pending.len() == MAX_DATAGRAM_SIZE - 8);
                    }
                    // The packet's end falls where the countdown said.
                    assert(ts00 + (a + (packet0@.len() - 8)) / sz == cur_new) by {
                        assert(packet0@.len() - 8 == c);
                        assert(pre_ts == old(self).spec_timestamp() + a / sz);
                        assert((a + c) / sz == a / sz + c / sz);
                    }
                    lemma_packets_justified_snoc(pre_packets, packet0, ts00, chunk);
                }
                rem = self.n_remaining_chunk_samples();
            } else {
                rem = rem - 1;
                proof {
                    assert((rem + 1) * SAMPLE_SIZE == rem * SAMPLE_SIZE + SAMPLE_SIZE)
                        by (nonlinear_arith);
                    // One sample closer to both the boundary and the
                    // datagram's end.
                    let sz = SAMPLE_SIZE as int;
                    let chunk = self.spec_chunk_size() as int;
                    let p_old = (self.spec_pending().len() - 4) as int;
                    let cur_old = self.spec_timestamp() + p_old / sz;
                    vstd::arithmetic::div_mod::lemma_fundamental_div_mod(p_old, sz);
                    vstd::arithmetic::div_mod::lemma_mod_bound(p_old, sz);
                    assert(self.spec_pending().len() as int / sz == p_old / sz + 1)
                        by (nonlinear_arith)
                        requires
                            sz >= 1,
                            p_old % sz == 0,
                            p_old == sz * (p_old / sz),
                            self.spec_pending().len() == p_old + 4,
                            sz == 4,
                    ;
                    let tb_old = chunk - cur_old % chunk;
                    let room_old = (MAX_DATAGRAM_SIZE - 8 - p_old) / sz;
                    assert(tb_old > 1 && room_old > 1);
                    vstd::arithmetic::div_mod::lemma_fundamental_div_mod(cur_old, chunk);
                    vstd::arithmetic::div_mod::lemma_mod_bound(cur_old, chunk);
                    assert(cur_old + 1 == (cur_old / chunk) * chunk + (cur_old % chunk
                        + 1)) by (nonlinear_arith)
                        requires
                            cur_old == chunk * (cur_old / chunk) + cur_old % chunk,
                    ;
                    vstd::arithmetic::div_mod::lemma_fundamental_div_mod_converse(
                        cur_old + 1,
                        chunk,
                        cur_old / chunk,
                        cur_old % chunk + 1,
                    );
                    vstd::arithmetic::div_mod::lemma_fundamental_div_mod(
                        (MAX_DATAGRAM_SIZE - 8 - p_old) as int,
                        sz,
                    );
                    vstd::arithmetic::div_mod::lemma_mod_bound(
                        (MAX_DATAGRAM_SIZE - 8 - p_old) as int,
                        sz,
                    );
                    assert((MAX_DATAGRAM_SIZE - 8 - p_old - 4) / sz == room_old - 1)
                        by (nonlinear_arith)
                        requires
                            sz >= 1,
                            (MAX_DATAGRAM_SIZE - 8 - p_old) % sz == 0,
                            MAX_DATAGRAM_SIZE - 8 - p_old == sz * room_old,
                            sz == 4,
                    ;
                }
            }
        }
        proof {
            assert(samples@.take(n as int) =~= samples@);
        }
        let used = packets.len() > 0;
        (packets, used)
    }
}

/// Appending a packet appends its payload.
proof fn lemma_packet_payloads_snoc(ps: Seq<Vec<u8>>, p: Vec<u8>)
    ensures
        packet_payloads(ps.push(p)) == packet_payloads(ps) + p@.skip(8),
    decreases ps.len(),
{
    if ps.len() == 0 {
        assert(ps.push(p)[0] == p);
        assert(ps.push(p).skip(1) =~= Seq::<Vec<u8>>::empty());
        assert(packet_payloads(ps.push(p)) == p@.skip(8) + packet_payloads(
            Seq::<Vec<u8>>::empty(),
        ));
        assert(p@.skip(8) + Seq::<u8>::empty() =~= p@.skip(8));
        assert(packet_payloads(ps) + p@.skip(8) =~= p@.skip(8));
        assert(packet_payloads(ps.push(p)) =~= packet_payloads(ps) + p@.skip(8));
    } else {
        assert(ps.push(p)[0] == ps[0]);
        assert(ps.push(p).skip(1) =~= ps.skip(1).push(p));
        lemma_packet_payloads_snoc(ps.skip(1), p);
        assert(ps[0]@.skip(8) + (packet_payloads(ps.skip(1)) + p@.skip(8)) =~= (
        ps[0]@.skip(8) + packet_payloads(ps.skip(1))) + p@.skip(8));
        assert(packet_payloads(ps.push(p)) =~= packet_payloads(ps) + p@.skip(8));
    }
}

/// Appending a packet that continues the chain keeps the chain.
proof fn lemma_packets_chain_snoc(ps: Seq<Vec<u8>>, p: Vec<u8>, ts0: int)
    requires
        packets_chain(ps, ts0),
        p@.len() >= 8,
        p@.len() <= MAX_DATAGRAM_SIZE,
        (p@.len() - 8) % (SAMPLE_SIZE as int) == 0,
        0 <= ts0 + (packet_payloads(ps).len() as int) / (SAMPLE_SIZE as int) <= u64::MAX,
        p@.subrange(0, 8) == le_bytes(
            (ts0 + (packet_payloads(ps).len() as int) / (SAMPLE_SIZE as int)) as nat,
            8,
        ),
        packet_payloads(ps).len() as int % (SAMPLE_SIZE as int) == 0,
        0 <= ts0,
    ensures
        packets_chain(ps.push(p), ts0),
    decreases ps.len(),
{
    let sz = SAMPLE_SIZE as int;
    if ps.len() == 0 {
        assert(packet_payloads(ps).len() == 0);
        vstd::arithmetic::div_mod::lemma_div_of0(sz);
        assert(ps.push(p)[0] == p);
        assert(ps.push(p).skip(1) =~= Seq::<Vec<u8>>::empty());
        assert(packets_chain(ps.push(p).skip(1), ts0 + (p@.len() - 8) / sz));
        assert(packets_chain(ps.push(p), ts0));
    } else {
        assert(ps.push(p)[0] == ps[0]);
        assert(ps.push(p).skip(1) =~= ps.skip(1).push(p));
        let plen0 = ps[0]@.len() - 8;
        let rest_ts = ts0 + plen0 / sz;
        let a = plen0;
        let b = packet_payloads(ps.skip(1)).len() as int;
        assert(packet_payloads(ps).len() == a + b);
        lemma_payloads_mod(ps);
        vstd::arithmetic::div_mod::lemma_fundamental_div_mod(a, sz);
        vstd::arithmetic::div_mod::lemma_fundamental_div_mod(b, sz);
        assert((a + b) / sz == a / sz + b / sz) by (nonlinear_arith)
            requires
                sz >= 1,
                a % sz == 0,
                b % sz == 0,
                a == sz * (a / sz),
                b == sz * (b / sz),
        ;
        assert(plen0 >= 0 && plen0 / sz >= 0) by {
            vstd::arithmetic::div_mod::lemma_div_is_ordered(0, plen0, sz);
            vstd::arithmetic::div_mod::lemma_div_of0(sz);
        }
        assert(b >= 0 && b / sz >= 0) by {
            vstd::arithmetic::div_mod::lemma_div_is_ordered(0, b, sz);
            vstd::arithmetic::div_mod::lemma_div_of0(sz);
        }
        lemma_packets_chain_snoc(ps.skip(1), p, rest_ts);
        assert(ps.push(p).skip(1) =~= ps.skip(1).push(p));
        assert(packets_chain(ps.push(p).skip(1), rest_ts));
        assert(packets_chain(ps.push(p), ts0));
    }
}

/// Every packet run holds whole samples in every packet.
proof fn lemma_payloads_mod(ps: Seq<Vec<u8>>)
    requires
        exists|ts0: int| packets_chain(ps, ts0),
    ensures
        packet_payloads(ps).len() as int % (SAMPLE_SIZE as int) == 0,
    decreases ps.len(),
{
    let sz = SAMPLE_SIZE as int;
    if ps.len() == 0 {
        vstd::arithmetic::div_mod::lemma_small_mod(0, SAMPLE_SIZE as nat);
    } else {
        let ts0 = choose|ts0: int| packets_chain(ps, ts0);
        assert(packets_chain(ps.skip(1), ts0 + (ps[0]@.len() - 8) / sz));
        lemma_payloads_mod(ps.skip(1));
        vstd::arithmetic::div_mod::lemma_mod_adds(
            ps[0]@.len() - 8,
            packet_payloads(ps.skip(1)).len() as int,
            sz,
        );
        vstd::arithmetic::div_mod::lemma_mod_twice(ps[0]@.len() - 8, sz);
        vstd::arithmetic::div_mod::lemma_mod_twice(
            packet_payloads(ps.skip(1)).len() as int,
            sz,
        );
    }
}

/// Parses an audio datagram of the compact format: the timestamp, then
/// as many whole 32-bit samples as the payload holds; a trailing
/// partial sample is ignored.
pub fn parse_audio_packet(b: &Vec<u8>) -> (r: Option<(u64, Vec<u32>)>)
    ensures
        r is Some <==> b@.len() >= 8,
        r matches Some((ts, spls)) ==> ts == le_value(b@.subrange(0, 8)) && spls@.map(
            |i: int, s: u32| s as u64,
        ) == super::consumer::decode_chunks(super::format::SampleType::U32, b@.skip(8)),
{
    if b.len() < 8 {
        return None;
    }
    let ts = read_le_bytes(b, 0, 8);
    let ghost tail = b@.skip(8);
    let blen = b.len();
    let mut spls: Vec<u32> = Vec::new();
    let mut pos: usize = 8;
    proof {
        super::codec::lemma_pow256_values();
        assert(spls@.map(|i: int, s: u32| s as u64) =~= Seq::<u64>::empty());
        assert(tail.take(0) =~= Seq::<u8>::empty());
        vstd::arithmetic::div_mod::lemma_small_mod(0, SAMPLE_SIZE as nat);
    }
    while pos <= blen - SAMPLE_SIZE
        invariant
            8 <= pos <= blen,
            blen == b@.len(),
            tail == b@.skip(8),
            (pos - 8) % (SAMPLE_SIZE as int) == 0,
            spls@.len() * SAMPLE_SIZE == pos - 8,
            spls@.map(|i: int, s: u32| s as u64) =~= super::consumer::decode_chunks(
                super::format::SampleType::U32,
                tail.take(pos - 8),
            ),
        decreases blen - pos,
    {
        let v = read_le_bytes(b, pos, 4);
        proof {
            super::codec::lemma_pow256_values();
            assert(b@.subrange(pos as int, pos + 4) =~= tail.subrange(
                pos - 8,
                pos - 8 + 4,
            ));
            super::consumer::lemma_decode_chunks_take_step(
                super::format::SampleType::U32,
                tail,
                pos - 8,
            );
            assert((v as u64) as nat == le_value(tail.subrange(pos - 8, pos - 8 + 4)));
            let ghost old_spls = spls@;
            assert(old_spls.push(v as u32).map(|i: int, s: u32| s as u64) =~= old_spls.map(
                |i: int, s: u32| s as u64,
            ).push(v as u64));
        }
        spls.push(v as u32);
        proof {
            vstd::arithmetic::div_mod::lemma_mod_adds(
                pos - 8,
                SAMPLE_SIZE as int,
                SAMPLE_SIZE as int,
            );
            vstd::arithmetic::div_mod::lemma_mod_self_0(SAMPLE_SIZE as int);
            vstd::arithmetic::div_mod::lemma_mod_twice(pos - 8, SAMPLE_SIZE as int);
            assert((spls@.len()) * SAMPLE_SIZE == (spls@.len() - 1) * SAMPLE_SIZE
                + SAMPLE_SIZE) by (nonlinear_arith);
        }
        pos = pos + SAMPLE_SIZE;
    }
    proof {
        assert(tail.len() - (pos - 8) < SAMPLE_SIZE);
        super::consumer::lemma_decode_chunks_ignores_tail(
            super::format::SampleType::U32,
            tail,
            pos - 8,
        );
    }
    Some((ts, spls))
}

} // verus!
