//! Wire encoding of the protocol messages: length-delimited binary,
//! little-endian, one message per datagram.
//!
//! Nested variants are flattened to a single leading discriminant byte
//! (see [`super::flat`]); the datagram boundary delimits the message, so
//! the trailing audio payload needs no length field. A datagram that does
//! not decode is an unknown message: `decode_client` and `decode_server`
//! return nothing, and the connection lives on.

use vstd::prelude::*;
use super::codec::{le_bytes, le_value, push_le_bytes, read_le_bytes};
use super::flat::{
    flatten_client, flatten_server, spec_flatten_client, spec_flatten_server,
    ClientMessageFlat, ServerMessageFlat,
};
use super::format::{
    is_positive_normal_bits, BufferSize, ChannelCount, Format, SampleRate, SampleType,
    StreamFormats,
};
use super::message::{AudioData, AudioStreamData, Client, Server};

verus! {

/// The wire code of a sample type.
pub open spec fn spec_type_code(t: SampleType) -> u8 {
    match t {
        SampleType::U8 => 0,
        SampleType::U16 => 1,
        SampleType::U24 => 2,
        SampleType::U32 => 3,
        SampleType::U64 => 4,
        SampleType::I8 => 5,
        SampleType::I16 => 6,
        SampleType::I24 => 7,
        SampleType::I32 => 8,
        SampleType::I64 => 9,
        SampleType::IEEF32 => 10,
        SampleType::IEEF64 => 11,
    }
}

/// The sample type a wire code denotes, if any.
pub open spec fn spec_type_of_code(c: u8) -> Option<SampleType> {
    if c == 0 {
        Some(SampleType::U8)
    } else if c == 1 {
        Some(SampleType::U16)
    } else if c == 2 {
        Some(SampleType::U24)
    } else if c == 3 {
        Some(SampleType::U32)
    } else if c == 4 {
        Some(SampleType::U64)
    } else if c == 5 {
        Some(SampleType::I8)
    } else if c == 6 {
        Some(SampleType::I16)
    } else if c == 7 {
        Some(SampleType::I24)
    } else if c == 8 {
        Some(SampleType::I32)
    } else if c == 9 {
        Some(SampleType::I64)
    } else if c == 10 {
        Some(SampleType::IEEF32)
    } else if c == 11 {
        Some(SampleType::IEEF64)
    } else {
        None
    }
}

pub fn type_code(t: SampleType) -> (r: u8)
    ensures
        r == spec_type_code(t),
        spec_type_of_code(r) == Some(t),
{
    match t {
        SampleType::U8 => 0,
        SampleType::U16 => 1,
        SampleType::U24 => 2,
        SampleType::U32 => 3,
        SampleType::U64 => 4,
        SampleType::I8 => 5,
        SampleType::I16 => 6,
        SampleType::I24 => 7,
        SampleType::I32 => 8,
        SampleType::I64 => 9,
        SampleType::IEEF32 => 10,
        SampleType::IEEF64 => 11,
    }
}

pub fn type_of_code(c: u8) -> (r: Option<SampleType>)
    ensures
        r == spec_type_of_code(c),
        r matches Some(t) ==> spec_type_code(t) == c,
{
    match c {
        0 => Some(SampleType::U8),
        1 => Some(SampleType::U16),
        2 => Some(SampleType::U24),
        3 => Some(SampleType::U32),
        4 => Some(SampleType::U64),
        5 => Some(SampleType::I8),
        6 => Some(SampleType::I16),
        7 => Some(SampleType::I24),
        8 => Some(SampleType::I32),
        9 => Some(SampleType::I64),
        10 => Some(SampleType::IEEF32),
        11 => Some(SampleType::IEEF64),
        _ => None,
    }
}

/// The number of bytes one stream format occupies on the wire.
pub const FORMAT_WIRE_LEN: usize = 17;

/// The wire form of one stream format: rate bits, channel count, buffer
/// size, and the sample type code, little-endian.
pub open spec fn spec_encode_format(f: Format) -> Seq<u8> {
    le_bytes(f.sample_rate.spec_bits() as nat, 8) + le_bytes(f.channel_count.0 as nat, 4)
        + le_bytes(f.buffer_size.0 as nat, 4) + seq![spec_type_code(f.sample_type)]
}

/// The stream format 17 wire bytes denote, if they denote one: the rate
/// must be positive normal, the channel count at least 1, and the type
/// code known.
pub open spec fn spec_decode_format(b: Seq<u8>) -> Option<Format> {
    let bits = le_value(b.subrange(0, 8)) as u64;
    let ch = le_value(b.subrange(8, 12)) as u32;
    let bs = le_value(b.subrange(12, 16)) as u32;
    if is_positive_normal_bits(bits) && ch >= 1 && spec_type_of_code(b[16]) is Some {
        Some(
            Format {
                sample_rate: SampleRate::from_bits_spec(bits),
                channel_count: ChannelCount(ch),
                buffer_size: BufferSize(bs),
                sample_type: spec_type_of_code(b[16]).unwrap(),
            },
        )
    } else {
        None
    }
}

pub proof fn lemma_encode_format_len(f: Format)
    ensures
        spec_encode_format(f).len() == FORMAT_WIRE_LEN,
{
    super::codec::lemma_le_bytes_len(f.sample_rate.spec_bits() as nat, 8);
    super::codec::lemma_le_bytes_len(f.channel_count.0 as nat, 4);
    super::codec::lemma_le_bytes_len(f.buffer_size.0 as nat, 4);
}

/// A decoded format re-encodes to the bytes it came from, and is well
/// formed.
pub proof fn lemma_decode_format_right_inverse(b: Seq<u8>)
    requires
        b.len() == FORMAT_WIRE_LEN,
        spec_decode_format(b) is Some,
    ensures
        spec_encode_format(spec_decode_format(b).unwrap()) == b,
        spec_decode_format(b).unwrap().wf(),
{
    let f = spec_decode_format(b).unwrap();
    let rb = b.subrange(0, 8);
    let cb = b.subrange(8, 12);
    let bb = b.subrange(12, 16);
    super::codec::lemma_le_value_bound(rb);
    super::codec::lemma_le_value_bound(cb);
    super::codec::lemma_le_value_bound(bb);
    super::codec::lemma_pow256_values();
    SampleRate::lemma_from_bits_spec(le_value(rb) as u64);
    super::codec::lemma_le_bytes_of_le_value(rb);
    super::codec::lemma_le_bytes_of_le_value(cb);
    super::codec::lemma_le_bytes_of_le_value(bb);
    assert(spec_encode_format(f) =~= b);
}

/// A well-formed format decodes from its own encoding.
pub proof fn lemma_encode_format_valid(f: Format)
    requires
        f.wf(),
    ensures
        spec_decode_format(spec_encode_format(f)) == Some(f),
{
    let b = spec_encode_format(f);
    lemma_encode_format_len(f);
    super::codec::lemma_le_bytes_len(f.sample_rate.spec_bits() as nat, 8);
    super::codec::lemma_le_bytes_len(f.channel_count.0 as nat, 4);
    super::codec::lemma_le_bytes_len(f.buffer_size.0 as nat, 4);
    assert(b.subrange(0, 8) =~= le_bytes(f.sample_rate.spec_bits() as nat, 8));
    assert(b.subrange(8, 12) =~= le_bytes(f.channel_count.0 as nat, 4));
    assert(b.subrange(12, 16) =~= le_bytes(f.buffer_size.0 as nat, 4));
    assert(b[16] == spec_type_code(f.sample_type));
    super::codec::lemma_le_value_of_le_bytes(f.sample_rate.spec_bits() as nat, 8);
    super::codec::lemma_le_value_of_le_bytes(f.channel_count.0 as nat, 4);
    super::codec::lemma_le_value_of_le_bytes(f.buffer_size.0 as nat, 4);
    super::codec::lemma_pow256_values();
    vstd::arithmetic::div_mod::lemma_small_mod(
        f.sample_rate.spec_bits() as nat,
        super::codec::pow256(8),
    );
    vstd::arithmetic::div_mod::lemma_small_mod(
        f.channel_count.0 as nat,
        super::codec::pow256(4),
    );
    vstd::arithmetic::div_mod::lemma_small_mod(
        f.buffer_size.0 as nat,
        super::codec::pow256(4),
    );
    f.sample_rate.lemma_wf_bits();
    SampleRate::lemma_from_bits_spec(f.sample_rate.spec_bits());
    f.sample_rate.lemma_from_bits_spec_inverse();
    assert(spec_decode_format(b).unwrap() =~~= f);
}

/// The wire form of a list of formats, back to back.
pub open spec fn spec_encode_format_seq(fs: Seq<Format>) -> Seq<u8>
    decreases fs.len(),
{
    if fs.len() == 0 {
        Seq::empty()
    } else {
        spec_encode_format(fs[0]) + spec_encode_format_seq(fs.skip(1))
    }
}

pub proof fn lemma_encode_format_seq_len(fs: Seq<Format>)
    ensures
        spec_encode_format_seq(fs).len() == fs.len() * FORMAT_WIRE_LEN,
    decreases fs.len(),
{
    if fs.len() > 0 {
        lemma_encode_format_seq_len(fs.skip(1));
        lemma_encode_format_len(fs[0]);
        assert((fs.len() - 1) * FORMAT_WIRE_LEN + FORMAT_WIRE_LEN == fs.len()
            * FORMAT_WIRE_LEN) by (nonlinear_arith);
    }
}

pub proof fn lemma_encode_format_seq_snoc(fs: Seq<Format>, f: Format)
    ensures
        spec_encode_format_seq(fs.push(f)) == spec_encode_format_seq(fs)
            + spec_encode_format(f),
    decreases fs.len(),
{
    if fs.len() == 0 {
        assert(fs.push(f)[0] == f);
        assert(fs.push(f).skip(1) =~= Seq::<Format>::empty());
        assert(spec_encode_format_seq(fs.push(f)) == spec_encode_format(f)
            + spec_encode_format_seq(fs.push(f).skip(1)));
        assert(spec_encode_format(f) + Seq::<u8>::empty() =~= spec_encode_format(f));
        assert(spec_encode_format_seq(fs) + spec_encode_format(f) =~= spec_encode_format(
            f,
        ));
    } else {
        assert(fs.push(f)[0] == fs[0]);
        assert(fs.push(f).skip(1) =~= fs.skip(1).push(f));
        lemma_encode_format_seq_snoc(fs.skip(1), f);
        assert(spec_encode_format(fs[0]) + (spec_encode_format_seq(fs.skip(1))
            + spec_encode_format(f)) =~= (spec_encode_format(fs[0])
            + spec_encode_format_seq(fs.skip(1))) + spec_encode_format(f));
    }
}

/// The formats `n` back-to-back wire blocks denote, if all of them parse
/// and the bytes hold exactly `n` blocks.
pub open spec fn spec_decode_format_seq(b: Seq<u8>, n: nat) -> Option<Seq<Format>>
    decreases n,
{
    if n == 0 {
        if b.len() == 0 {
            Some(Seq::empty())
        } else {
            None
        }
    } else if b.len() < FORMAT_WIRE_LEN {
        None
    } else {
        match spec_decode_format(b.take(FORMAT_WIRE_LEN as int)) {
            None => None,
            Some(f) => match spec_decode_format_seq(b.skip(FORMAT_WIRE_LEN as int), (n
                - 1) as nat) {
                None => None,
                Some(rest) => Some(seq![f] + rest),
            },
        }
    }
}

/// A list of well-formed formats decodes from its own encoding.
pub proof fn lemma_encode_format_seq_valid(fs: Seq<Format>)
    requires
        forall|i: int| 0 <= i < fs.len() ==> (#[trigger] fs[i]).wf(),
    ensures
        spec_decode_format_seq(spec_encode_format_seq(fs), fs.len()) == Some(fs),
    decreases fs.len(),
{
    let b = spec_encode_format_seq(fs);
    if fs.len() == 0 {
        assert(Some(Seq::<Format>::empty()) =~= Some(fs));
    } else {
        lemma_encode_format_len(fs[0]);
        lemma_encode_format_seq_len(fs.skip(1));
        assert(b.take(FORMAT_WIRE_LEN as int) =~= spec_encode_format(fs[0]));
        assert(b.skip(FORMAT_WIRE_LEN as int) =~= spec_encode_format_seq(fs.skip(1)));
        lemma_encode_format_valid(fs[0]);
        lemma_encode_format_seq_valid(fs.skip(1));
        assert(seq![fs[0]] + fs.skip(1) =~= fs);
    }
}

/// The wire form of a flattened client message.
pub open spec fn spec_encode_client_flat(f: ClientMessageFlat) -> Seq<u8> {
    match f {
        ClientMessageFlat::Discovery => seq![0u8],
        ClientMessageFlat::ConnectionOk => seq![1u8],
        ClientMessageFlat::ConnectionFailed => seq![2u8],
        ClientMessageFlat::ConnectionRefused => seq![3u8],
        ClientMessageFlat::StartIO => seq![4u8],
        ClientMessageFlat::StopIO => seq![5u8],
        ClientMessageFlat::Audio(a) => seq![6u8] + le_bytes(a.stream_idx as nat, 8)
            + le_bytes(a.data.byte_index as nat, 8) + a.data.bytes@,
        ClientMessageFlat::Disconnect => seq![7u8],
    }
}

/// The wire form of a client message.
pub open spec fn spec_encode_client(m: Client) -> Seq<u8> {
    spec_encode_client_flat(spec_flatten_client(m))
}

/// Whether a datagram is a valid client wire message.
pub open spec fn spec_client_wire_valid(b: Seq<u8>) -> bool {
    if b.len() == 0 {
        false
    } else if b[0] == 6 {
        b.len() >= 17 && le_value(b.subrange(1, 9)) <= usize::MAX
    } else {
        b.len() == 1 && b[0] <= 7
    }
}

/// Encodes a client message into a fresh datagram payload.
pub fn encode_client(m: Client) -> (r: Vec<u8>)
    ensures
        r@ == spec_encode_client(m),
{
    let f = flatten_client(m);
    let mut out: Vec<u8> = Vec::new();
    match f {
        ClientMessageFlat::Discovery => {
            out.push(0u8);
            proof {
                assert(out@ =~= spec_encode_client_flat(spec_flatten_client(m)));
            }
        },
        ClientMessageFlat::ConnectionOk => {
            out.push(1u8);
            proof {
                assert(out@ =~= spec_encode_client_flat(spec_flatten_client(m)));
            }
        },
        ClientMessageFlat::ConnectionFailed => {
            out.push(2u8);
            proof {
                assert(out@ =~= spec_encode_client_flat(spec_flatten_client(m)));
            }
        },
        ClientMessageFlat::ConnectionRefused => {
            out.push(3u8);
            proof {
                assert(out@ =~= spec_encode_client_flat(spec_flatten_client(m)));
            }
        },
        ClientMessageFlat::StartIO => {
            out.push(4u8);
            proof {
                assert(out@ =~= spec_encode_client_flat(spec_flatten_client(m)));
            }
        },
        ClientMessageFlat::StopIO => {
            out.push(5u8);
            proof {
                assert(out@ =~= spec_encode_client_flat(spec_flatten_client(m)));
            }
        },
        ClientMessageFlat::Audio(a) => {
            let ghost a0 = a;
            out.push(6u8);
            push_le_bytes(&mut out, a.stream_idx as u64, 8);
            push_le_bytes(&mut out, a.data.byte_index, 8);
            let mut payload = a.data.bytes;
            out.append(&mut payload);
            proof {
                assert(out@ =~= spec_encode_client_flat(ClientMessageFlat::Audio(a0)));
            }
        },
        ClientMessageFlat::Disconnect => {
            out.push(7u8);
            proof {
                assert(out@ =~= spec_encode_client_flat(spec_flatten_client(m)));
            }
        },
    }
    out
}

/// Copies the bytes of `b` from `start` on into a fresh vector.
fn copy_tail(b: &Vec<u8>, start: usize) -> (r: Vec<u8>)
    requires
        start <= b@.len(),
    ensures
        r@ == b@.skip(start as int),
{
    let mut r: Vec<u8> = Vec::new();
    let n = b.len();
    let mut i = start;
    while i < n
        invariant
            start <= i <= n,
            n == b@.len(),
            r@ =~= b@.subrange(start as int, i as int),
        decreases n - i,
    {
        r.push(b[i]);
        proof {
            assert(r@ =~= b@.subrange(start as int, i + 1));
        }
        i = i + 1;
    }
    proof {
        assert(b@.subrange(start as int, n as int) =~= b@.skip(start as int));
    }
    r
}

/// Decodes a datagram as a client message. A datagram that is no valid
/// client wire message yields nothing, and a decoded message re-encodes
/// to exactly the bytes it came from.
pub fn decode_client(b: &Vec<u8>) -> (r: Option<Client>)
    ensures
        r is Some <==> spec_client_wire_valid(b@),
        r matches Some(m) ==> spec_encode_client(m) == b@,
{
    if b.len() == 0 {
        return None;
    }
    let tag = b[0];
    if tag == 6 {
        if b.len() < 17 {
            return None;
        }
        let si = read_le_bytes(b, 1, 8);
        if si > (usize::MAX as u64) {
            return None;
        }
        let byte_index = read_le_bytes(b, 9, 8);
        let bytes = copy_tail(b, 17);
        let a = AudioData {
            stream_idx: si as usize,
            data: AudioStreamData { byte_index, bytes },
        };
        let m = super::flat::unflatten_client(ClientMessageFlat::Audio(a));
        proof {
            super::flat::lemma_client_unflatten_round_trip(ClientMessageFlat::Audio(a));
            super::codec::lemma_le_bytes_of_le_value(b@.subrange(1, 9));
            super::codec::lemma_le_bytes_of_le_value(b@.subrange(9, 17));
            assert(spec_encode_client(m) =~= b@);
        }
        Some(m)
    } else if tag <= 7 {
        if b.len() != 1 {
            return None;
        }
        let f = if tag == 0 {
            ClientMessageFlat::Discovery
        } else if tag == 1 {
            ClientMessageFlat::ConnectionOk
        } else if tag == 2 {
            ClientMessageFlat::ConnectionFailed
        } else if tag == 3 {
            ClientMessageFlat::ConnectionRefused
        } else if tag == 4 {
            ClientMessageFlat::StartIO
        } else if tag == 5 {
            ClientMessageFlat::StopIO
        } else {
            ClientMessageFlat::Disconnect
        };
        let ghost f0 = f;
        let m = super::flat::unflatten_client(f);
        proof {
            super::flat::lemma_client_unflatten_round_trip(f0);
            assert(spec_encode_client(m) =~= b@);
        }
        Some(m)
    } else {
        None
    }
}

/// The wire form of a flattened server message.
pub open spec fn spec_encode_server_flat(f: ServerMessageFlat) -> Seq<u8> {
    match f {
        ServerMessageFlat::Connect(fmts) => seq![0u8] + le_bytes(fmts.inputs@.len(), 4)
            + le_bytes(fmts.outputs@.len(), 4) + spec_encode_format_seq(fmts.inputs@)
            + spec_encode_format_seq(fmts.outputs@),
        ServerMessageFlat::StartIOSuccess => seq![1u8],
        ServerMessageFlat::StartIOFailed => seq![2u8],
        ServerMessageFlat::StartIORefused => seq![3u8],
        ServerMessageFlat::StopIOSuccess => seq![4u8],
        ServerMessageFlat::StopIOFailed => seq![5u8],
        ServerMessageFlat::StopIORefused => seq![6u8],
        ServerMessageFlat::Heartbeat => seq![7u8],
        ServerMessageFlat::Audio(a) => seq![8u8] + le_bytes(a.stream_idx as nat, 8)
            + le_bytes(a.data.byte_index as nat, 8) + a.data.bytes@,
        ServerMessageFlat::Disconnect => seq![9u8],
    }
}

/// The wire form of a server message.
pub open spec fn spec_encode_server(m: Server) -> Seq<u8> {
    spec_encode_server_flat(spec_flatten_server(m))
}

/// Whether a datagram is a valid server wire message.
pub open spec fn spec_server_wire_valid(b: Seq<u8>) -> bool {
    if b.len() == 0 {
        false
    } else if b[0] == 0 {
        let ni = le_value(b.subrange(1, 5));
        let no = le_value(b.subrange(5, 9));
        &&& b.len() >= 9
        &&& spec_decode_format_seq(
            b.subrange(9, 9 + ni * FORMAT_WIRE_LEN),
            ni,
        ) is Some
        &&& spec_decode_format_seq(b.skip(9 + ni * FORMAT_WIRE_LEN), no) is Some
        &&& b.len() == 9 + (ni + no) * FORMAT_WIRE_LEN
    } else if b[0] == 8 {
        b.len() >= 17 && le_value(b.subrange(1, 9)) <= usize::MAX
    } else {
        b.len() == 1 && b[0] <= 9
    }
}

/// Encodes a server message into a fresh datagram payload.
pub fn encode_server(m: Server) -> (r: Vec<u8>)
    requires
        (m matches Server::Connect(fmts) ==> (fmts.inputs@.len() + fmts.outputs@.len())
            * FORMAT_WIRE_LEN + 9 <= usize::MAX),
    ensures
        r@ == spec_encode_server(m),
{
    let f = flatten_server(m);
    let mut out: Vec<u8> = Vec::new();
    match f {
        ServerMessageFlat::Connect(fmts) => {
            let ghost fmts0 = fmts;
            out.push(0u8);
            push_le_bytes(&mut out, fmts.inputs.len() as u64, 4);
            push_le_bytes(&mut out, fmts.outputs.len() as u64, 4);
            proof {
                assert(fmts.inputs@.len() * FORMAT_WIRE_LEN + fmts.outputs@.len()
                    * FORMAT_WIRE_LEN == (fmts.inputs@.len() + fmts.outputs@.len())
                    * FORMAT_WIRE_LEN) by (nonlinear_arith);
                lemma_encode_format_seq_len(fmts.inputs@);
            }
            encode_formats_into(&mut out, &fmts.inputs);
            encode_formats_into(&mut out, &fmts.outputs);
            proof {
                assert(out@ =~= spec_encode_server_flat(ServerMessageFlat::Connect(
                    fmts0,
                )));
            }
        },
        ServerMessageFlat::StartIOSuccess => {
            out.push(1u8);
            proof {
                assert(out@ =~= spec_encode_server_flat(spec_flatten_server(m)));
            }
        },
        ServerMessageFlat::StartIOFailed => {
            out.push(2u8);
            proof {
                assert(out@ =~= spec_encode_server_flat(spec_flatten_server(m)));
            }
        },
        ServerMessageFlat::StartIORefused => {
            out.push(3u8);
            proof {
                assert(out@ =~= spec_encode_server_flat(spec_flatten_server(m)));
            }
        },
        ServerMessageFlat::StopIOSuccess => {
            out.push(4u8);
            proof {
                assert(out@ =~= spec_encode_server_flat(spec_flatten_server(m)));
            }
        },
        ServerMessageFlat::StopIOFailed => {
            out.push(5u8);
            proof {
                assert(out@ =~= spec_encode_server_flat(spec_flatten_server(m)));
            }
        },
        ServerMessageFlat::StopIORefused => {
            out.push(6u8);
            proof {
                assert(out@ =~= spec_encode_server_flat(spec_flatten_server(m)));
            }
        },
        ServerMessageFlat::Heartbeat => {
            out.push(7u8);
            proof {
                assert(out@ =~= spec_encode_server_flat(spec_flatten_server(m)));
            }
        },
        ServerMessageFlat::Audio(a) => {
            let ghost a0 = a;
            out.push(8u8);
            push_le_bytes(&mut out, a.stream_idx as u64, 8);
            push_le_bytes(&mut out, a.data.byte_index, 8);
            let mut payload = a.data.bytes;
            out.append(&mut payload);
            proof {
                assert(out@ =~= spec_encode_server_flat(ServerMessageFlat::Audio(a0)));
            }
        },
        ServerMessageFlat::Disconnect => {
            out.push(9u8);
            proof {
                assert(out@ =~= spec_encode_server_flat(spec_flatten_server(m)));
            }
        },
    }
    out
}

/// Appends the wire form of each format in `fs` to `out`.
fn encode_formats_into(out: &mut Vec<u8>, fs: &Vec<Format>)
    requires
        old(out)@.len() + fs@.len() * FORMAT_WIRE_LEN <= usize::MAX,
    ensures
        final(out)@ == old(out)@ + spec_encode_format_seq(fs@),
{
    let n = fs.len();
    let mut i: usize = 0;
    proof {
        assert(old(out)@ + spec_encode_format_seq(fs@.take(0)) =~= old(out)@);
    }
    while i < n
        invariant
            i <= n,
            n == fs@.len(),
            out@ == old(out)@ + spec_encode_format_seq(fs@.take(i as int)),
        decreases n - i,
    {
        let f = fs[i];
        push_le_bytes(out, f.sample_rate.get(), 8);
        push_le_bytes(out, f.channel_count.0 as u64, 4);
        push_le_bytes(out, f.buffer_size.0 as u64, 4);
        out.push(type_code(f.sample_type));
        proof {
            assert(fs@.take(i + 1) =~= fs@.take(i as int).push(f));
            lemma_encode_format_seq_snoc(fs@.take(i as int), f);
            assert(out@ =~= old(out)@ + spec_encode_format_seq(fs@.take(i + 1)));
        }
        i = i + 1;
    }
    proof {
        assert(fs@.take(n as int) =~= fs@);
    }
}

/// Parses `count` wire-format blocks from `b` starting at `start`.
fn decode_formats(b: &Vec<u8>, start: usize, count: usize) -> (r: Option<(
    Vec<Format>,
    usize,
)>)
    requires
        start + count * FORMAT_WIRE_LEN <= b@.len(),
    ensures
        r is Some <==> spec_decode_format_seq(
            b@.subrange(start as int, start + count * FORMAT_WIRE_LEN as int),
            count as nat,
        ) is Some,
        r matches Some((fs, end)) ==> {
            &&& end == start + count * FORMAT_WIRE_LEN
            &&& Some(fs@) == spec_decode_format_seq(
                b@.subrange(start as int, end as int),
                count as nat,
            )
            &&& spec_encode_format_seq(fs@) == b@.subrange(start as int, end as int)
            &&& fs@.len() == count
            &&& forall|i: int| 0 <= i < fs@.len() ==> (#[trigger] fs@[i]).wf()
        },
{
    let ghost endpos = start + count * FORMAT_WIRE_LEN as int;
    let ghost whole = b@.subrange(start as int, endpos);
    let blen = b.len();
    let mut fs: Vec<Format> = Vec::new();
    let mut i: usize = 0;
    let mut pos: usize = start;
    proof {
        assert(spec_encode_format_seq(fs@) =~= b@.subrange(start as int, start as int));
        assert(b@.subrange(start as int, start as int) + b@.subrange(start as int, endpos)
            =~= whole);
        assert(spec_decode_format_seq(b@.subrange(start as int, start as int), 0) == Some(
            Seq::<Format>::empty(),
        ));
    }
    while i < count
        invariant
            i <= count,
            blen == b@.len(),
            start + count * FORMAT_WIRE_LEN <= blen,
            endpos == start + count * FORMAT_WIRE_LEN as int,
            whole == b@.subrange(start as int, endpos),
            pos == start + i * FORMAT_WIRE_LEN,
            fs@.len() == i,
            spec_encode_format_seq(fs@) == b@.subrange(start as int, pos as int),
            forall|k: int| 0 <= k < fs@.len() ==> (#[trigger] fs@[k]).wf(),
            Some(fs@) == spec_decode_format_seq(
                b@.subrange(start as int, pos as int),
                i as nat,
            ),
            spec_decode_format_seq(whole, count as nat) is Some <==> spec_decode_format_seq(
                b@.subrange(pos as int, endpos),
                (count - i) as nat,
            ) is Some,
            spec_decode_format_seq(whole, count as nat) is Some
                ==> spec_decode_format_seq(whole, count as nat).unwrap() == fs@
                + spec_decode_format_seq(
                b@.subrange(pos as int, endpos),
                (count - i) as nat,
            ).unwrap(),
        decreases count - i,
    {
        proof {
            assert(i * FORMAT_WIRE_LEN + FORMAT_WIRE_LEN == (i + 1) * FORMAT_WIRE_LEN)
                by (nonlinear_arith);
            assert((i + 1) * FORMAT_WIRE_LEN <= count * FORMAT_WIRE_LEN)
                by (nonlinear_arith)
                requires
                    i + 1 <= count,
            ;
        }
        let ghost remaining = b@.subrange(pos as int, endpos);
        let ghost n_rem = (count - i) as nat;
        let bits = read_le_bytes(b, pos, 8);
        let ch = read_le_bytes(b, pos + 8, 4);
        let bs = read_le_bytes(b, pos + 12, 4);
        let tcode = b[pos + 16];
        let rate_opt = SampleRate::new(bits);
        let ty_opt = type_of_code(tcode);
        let ghost window = b@.subrange(pos as int, pos + FORMAT_WIRE_LEN);
        proof {
            assert(remaining.len() == endpos - pos >= FORMAT_WIRE_LEN);
            assert(remaining.take(FORMAT_WIRE_LEN as int) =~= window);
            assert(remaining.skip(FORMAT_WIRE_LEN as int) =~= b@.subrange(
                pos + FORMAT_WIRE_LEN,
                endpos,
            ));
            assert(window.subrange(0, 8) =~= b@.subrange(pos as int, pos + 8));
            assert(window.subrange(8, 12) =~= b@.subrange(pos + 8, pos + 12));
            assert(window.subrange(12, 16) =~= b@.subrange(pos + 12, pos + 16));
            assert(window[16] == b@[pos + 16]);
            super::codec::lemma_le_value_bound(window.subrange(0, 8));
            super::codec::lemma_le_value_bound(window.subrange(8, 12));
            super::codec::lemma_le_value_bound(window.subrange(12, 16));
            super::codec::lemma_pow256_values();
        }
        let parsed = match (rate_opt, ty_opt) {
            (Some(rate), Some(ty)) => if ch >= 1 {
                Some((rate, ty))
            } else {
                None
            },
            _ => None,
        };
        let (rate, ty) = match parsed {
            Some(p) => p,
            None => {
                proof {
                    assert(spec_decode_format(window) is None);
                    assert(spec_decode_format_seq(remaining, n_rem) is None);
                }
                return None;
            },
        };
        let f = Format {
            sample_rate: rate,
            channel_count: ChannelCount(ch as u32),
            buffer_size: BufferSize(bs as u32),
            sample_type: ty,
        };
        proof {
            assert(spec_decode_format(window) == Some(f)) by {
                assert(is_positive_normal_bits(bits));
                assert(rate == SampleRate::from_bits_spec(bits));
                assert(spec_decode_format(window).unwrap() =~= f);
            }
            lemma_decode_format_right_inverse(window);
        }
        let ghost old_fs = fs@;
        fs.push(f);
        proof {
            // One more block parsed: extend every tracked relation by it.
            let next_rem = b@.subrange(pos + FORMAT_WIRE_LEN, endpos);
            assert(spec_decode_format_seq(remaining, n_rem) is Some
                <==> spec_decode_format_seq(next_rem, (n_rem - 1) as nat) is Some);
            if spec_decode_format_seq(whole, count as nat) is Some {
                assert(spec_decode_format_seq(remaining, n_rem).unwrap() == seq![f]
                    + spec_decode_format_seq(next_rem, (n_rem - 1) as nat).unwrap());
                assert(old_fs + (seq![f] + spec_decode_format_seq(
                    next_rem,
                    (n_rem - 1) as nat,
                ).unwrap()) =~= fs@ + spec_decode_format_seq(
                    next_rem,
                    (n_rem - 1) as nat,
                ).unwrap());
            }
            lemma_encode_format_seq_snoc(old_fs, f);
            assert(b@.subrange(start as int, pos as int) + window =~= b@.subrange(
                start as int,
                pos + FORMAT_WIRE_LEN,
            ));
            assert(spec_encode_format_seq(fs@) =~= b@.subrange(
                start as int,
                pos + FORMAT_WIRE_LEN,
            ));
            lemma_decode_format_seq_snoc_some(
                b@.subrange(start as int, pos as int),
                old_fs,
                window,
                f,
            );
            assert(Some(fs@) =~= spec_decode_format_seq(
                b@.subrange(start as int, pos + FORMAT_WIRE_LEN),
                (i + 1) as nat,
            ));
        }
        pos = pos + FORMAT_WIRE_LEN;
        i = i + 1;
    }
    proof {
        assert(pos == start + count * FORMAT_WIRE_LEN);
        assert(b@.subrange(pos as int, endpos).len() == 0);
        assert(spec_decode_format_seq(b@.subrange(pos as int, endpos), 0) == Some(
            Seq::<Format>::empty(),
        ));
        if spec_decode_format_seq(whole, count as nat) is Some {
            assert(fs@ + Seq::<Format>::empty() =~= fs@);
        }
    }
    Some((fs, pos))
}



/// Extending a parsed prefix by one parsed block extends the parsed
/// formats by one.
proof fn lemma_decode_format_seq_snoc_some(
    prefix: Seq<u8>,
    fs: Seq<Format>,
    w: Seq<u8>,
    f: Format,
)
    requires
        spec_decode_format_seq(prefix, fs.len()) == Some(fs),
        w.len() == FORMAT_WIRE_LEN,
        spec_decode_format(w) == Some(f),
    ensures
        spec_decode_format_seq(prefix + w, fs.len() + 1) == Some(fs.push(f)),
    decreases fs.len(),
{
    if fs.len() == 0 {
        assert(prefix.len() == 0);
        assert(prefix + w =~= w);
        assert(w.take(FORMAT_WIRE_LEN as int) =~= w);
        assert(w.skip(FORMAT_WIRE_LEN as int) =~= Seq::<u8>::empty());
        assert(spec_decode_format_seq(Seq::<u8>::empty(), 0) == Some(
            Seq::<Format>::empty(),
        ));
        assert(seq![f] + Seq::<Format>::empty() =~= fs.push(f));
    } else {
        assert(prefix.len() >= FORMAT_WIRE_LEN) by {
            if prefix.len() < FORMAT_WIRE_LEN {
                assert(spec_decode_format_seq(prefix, fs.len()) is None);
            }
        }
        let w0 = prefix.take(FORMAT_WIRE_LEN as int);
        let rest = prefix.skip(FORMAT_WIRE_LEN as int);
        let f0 = spec_decode_format(w0).unwrap();
        assert(spec_decode_format(w0) is Some);
        let tail = spec_decode_format_seq(rest, (fs.len() - 1) as nat);
        assert(tail is Some);
        assert(fs == seq![f0] + tail.unwrap());
        assert(tail.unwrap() =~= fs.skip(1));
        assert(fs[0] == f0);
        lemma_decode_format_seq_snoc_some(rest, fs.skip(1), w, f);
        assert((prefix + w).take(FORMAT_WIRE_LEN as int) =~= w0);
        assert((prefix + w).skip(FORMAT_WIRE_LEN as int) =~= rest + w);
        assert(seq![f0] + fs.skip(1).push(f) =~= fs.push(f));
    }
}

/// Decodes a datagram as a server message. A datagram that is no valid
/// server wire message yields nothing, and a decoded message re-encodes
/// to exactly the bytes it came from; decoded stream formats are well
/// formed.
pub fn decode_server(b: &Vec<u8>) -> (r: Option<Server>)
    ensures
        r is Some <==> spec_server_wire_valid(b@),
        r matches Some(m) ==> spec_encode_server(m) == b@,
        r matches Some(m) ==> (m matches Server::Connect(fmts) ==> fmts.wf()),
{
    if b.len() == 0 {
        return None;
    }
    let tag = b[0];
    if tag == 0 {
        decode_server_connect(b)
    } else if tag == 8 {
        if b.len() < 17 {
            return None;
        }
        let si = read_le_bytes(b, 1, 8);
        if si > (usize::MAX as u64) {
            return None;
        }
        let byte_index = read_le_bytes(b, 9, 8);
        let bytes = copy_tail(b, 17);
        let a = AudioData {
            stream_idx: si as usize,
            data: AudioStreamData { byte_index, bytes },
        };
        let m = super::flat::unflatten_server(ServerMessageFlat::Audio(a));
        proof {
            super::flat::lemma_server_unflatten_round_trip(ServerMessageFlat::Audio(a));
            super::codec::lemma_le_bytes_of_le_value(b@.subrange(1, 9));
            super::codec::lemma_le_bytes_of_le_value(b@.subrange(9, 17));
            assert(spec_encode_server(m) =~= b@);
        }
        Some(m)
    } else if tag <= 9 {
        if b.len() != 1 {
            return None;
        }
        let f = if tag == 1 {
            ServerMessageFlat::StartIOSuccess
        } else if tag == 2 {
            ServerMessageFlat::StartIOFailed
        } else if tag == 3 {
            ServerMessageFlat::StartIORefused
        } else if tag == 4 {
            ServerMessageFlat::StopIOSuccess
        } else if tag == 5 {
            ServerMessageFlat::StopIOFailed
        } else if tag == 6 {
            ServerMessageFlat::StopIORefused
        } else if tag == 7 {
            ServerMessageFlat::Heartbeat
        } else {
            ServerMessageFlat::Disconnect
        };
        let ghost f0 = f;
        let m = super::flat::unflatten_server(f);
        proof {
            super::flat::lemma_server_unflatten_round_trip(f0);
            assert(spec_encode_server(m) =~= b@);
        }
        Some(m)
    } else {
        None
    }
}

/// Decodes the connection-offer form: counts, then the input and output
/// formats back to back.
fn decode_server_connect(b: &Vec<u8>) -> (r: Option<Server>)
    requires
        b@.len() >= 1,
        b@[0] == 0,
    ensures
        r is Some <==> spec_server_wire_valid(b@),
        r matches Some(m) ==> spec_encode_server(m) == b@,
        r matches Some(m) ==> (m matches Server::Connect(fmts) ==> fmts.wf()),
{
    if b.len() < 9 {
        return None;
    }
    let ni64 = read_le_bytes(b, 1, 4);
    let no64 = read_le_bytes(b, 5, 4);
    proof {
        super::codec::lemma_pow256_values();
        assert(ni64 < 0x100000000 && no64 < 0x100000000);
    }
    let ni = ni64 as usize;
    let no = no64 as usize;
    let blen = b.len();
    // Each advertised format occupies a block; reject counts that no
    // datagram of this length could hold.
    if (blen - 9) / FORMAT_WIRE_LEN < ni || ((blen - 9) / FORMAT_WIRE_LEN) - ni < no {
        proof {
            let q = (blen - 9) as int / (FORMAT_WIRE_LEN as int);
            vstd::arithmetic::div_mod::lemma_fundamental_div_mod(
                (blen - 9) as int,
                FORMAT_WIRE_LEN as int,
            );
            vstd::arithmetic::div_mod::lemma_mod_bound(
                (blen - 9) as int,
                FORMAT_WIRE_LEN as int,
            );
            assert(ni + no > q);
            assert((ni + no) * FORMAT_WIRE_LEN > blen - 9) by (nonlinear_arith)
                requires
                    ni + no > q,
                    (blen - 9) as int == (FORMAT_WIRE_LEN as int) * q + (blen - 9) as int
                        % (FORMAT_WIRE_LEN as int),
                    0 <= (blen - 9) as int % (FORMAT_WIRE_LEN as int) < FORMAT_WIRE_LEN,
            ;
            lemma_counts_exceed_room(b@, ni as nat, no as nat);
        }
        return None;
    }
    proof {
        assert(ni * FORMAT_WIRE_LEN + no * FORMAT_WIRE_LEN <= ((blen - 9) as int / (
        FORMAT_WIRE_LEN as int)) * FORMAT_WIRE_LEN) by (nonlinear_arith)
            requires
                ni + no <= (blen - 9) as int / (FORMAT_WIRE_LEN as int),
                ni >= 0,
                no >= 0,
        ;
        vstd::arithmetic::div_mod::lemma_fundamental_div_mod(
            (blen - 9) as int,
            FORMAT_WIRE_LEN as int,
        );
        vstd::arithmetic::div_mod::lemma_mod_bound(
            (blen - 9) as int,
            FORMAT_WIRE_LEN as int,
        );
    }
    let inputs = match decode_formats(b, 9, ni) {
        Some((fs, end)) => (fs, end),
        None => {
            return None;
        },
    };
    let (inputs, in_end) = inputs;
    let outputs = match decode_formats(b, in_end, no) {
        Some((fs, end)) => (fs, end),
        None => {
            return None;
        },
    };
    let (outputs, out_end) = outputs;
    if out_end != blen {
        proof {
            assert((ni + no) * FORMAT_WIRE_LEN == ni * FORMAT_WIRE_LEN + no
                * FORMAT_WIRE_LEN) by (nonlinear_arith);
            assert(out_end == 9 + (ni + no) * FORMAT_WIRE_LEN);
            lemma_server_connect_exact_len(b@, ni as nat, no as nat);
        }
        return None;
    }
    let fmts = StreamFormats { inputs, outputs };
    let ghost fmts0 = fmts;
    let m = super::flat::unflatten_server(ServerMessageFlat::Connect(fmts));
    proof {
        super::flat::lemma_server_unflatten_round_trip(ServerMessageFlat::Connect(fmts0));
        super::codec::lemma_le_bytes_of_le_value(b@.subrange(1, 5));
        super::codec::lemma_le_bytes_of_le_value(b@.subrange(5, 9));
        assert(fmts0.inputs@.len() == ni as nat && fmts0.outputs@.len() == no as nat);
        assert(le_bytes(fmts0.inputs@.len(), 4) == b@.subrange(1, 5));
        assert(le_bytes(fmts0.outputs@.len(), 4) == b@.subrange(5, 9));
        assert(spec_encode_format_seq(fmts0.inputs@) == b@.subrange(9, in_end as int));
        assert(spec_encode_format_seq(fmts0.outputs@) == b@.subrange(
            in_end as int,
            out_end as int,
        ));
        assert(spec_encode_server(m) =~= b@);
        assert(spec_server_wire_valid(b@)) by {
            assert(b@.subrange(9, 9 + ni * FORMAT_WIRE_LEN) =~= b@.subrange(
                9,
                in_end as int,
            ));
            assert(b@.skip(9 + ni * FORMAT_WIRE_LEN) =~= b@.subrange(
                in_end as int,
                out_end as int,
            ));
            assert((ni + no) * FORMAT_WIRE_LEN == ni * FORMAT_WIRE_LEN + no
                * FORMAT_WIRE_LEN) by (nonlinear_arith);
        }
    }
    Some(m)
}

/// When the advertised counts cannot fit in the datagram, it is not a
/// valid offer.
proof fn lemma_counts_exceed_room(b: Seq<u8>, ni: nat, no: nat)
    requires
        b.len() >= 9,
        b[0] == 0,
        ni == le_value(b.subrange(1, 5)),
        no == le_value(b.subrange(5, 9)),
        (ni + no) * FORMAT_WIRE_LEN > b.len() - 9,
    ensures
        !spec_server_wire_valid(b),
{
}

/// A valid offer's length matches its counts exactly.
proof fn lemma_server_connect_exact_len(b: Seq<u8>, ni: nat, no: nat)
    requires
        b.len() >= 9,
        b[0] == 0,
        ni == le_value(b.subrange(1, 5)),
        no == le_value(b.subrange(5, 9)),
        b.len() != 9 + (ni + no) * FORMAT_WIRE_LEN,
    ensures
        !spec_server_wire_valid(b),
{
}


/// Every client message's encoding is a valid client wire datagram, so
/// decoding is owed success on it.
pub proof fn lemma_encode_client_valid(m: Client)
    ensures
        spec_client_wire_valid(spec_encode_client(m)),
{
    let b = spec_encode_client(m);
    match spec_flatten_client(m) {
        ClientMessageFlat::Audio(a) => {
            super::codec::lemma_le_bytes_len(a.stream_idx as nat, 8);
            super::codec::lemma_le_bytes_len(a.data.byte_index as nat, 8);
            assert(b[0] == 6);
            assert(b.len() >= 17);
            assert(b.subrange(1, 9) =~= le_bytes(a.stream_idx as nat, 8));
            super::codec::lemma_le_value_of_le_bytes(a.stream_idx as nat, 8);
            super::codec::lemma_pow256_8();
            vstd::arithmetic::div_mod::lemma_small_mod(
                a.stream_idx as nat,
                super::codec::pow256(8),
            );
        },
        ClientMessageFlat::Discovery => {
            assert(b =~= seq![0u8]);
        },
        ClientMessageFlat::ConnectionOk => {
            assert(b =~= seq![1u8]);
        },
        ClientMessageFlat::ConnectionFailed => {
            assert(b =~= seq![2u8]);
        },
        ClientMessageFlat::ConnectionRefused => {
            assert(b =~= seq![3u8]);
        },
        ClientMessageFlat::StartIO => {
            assert(b =~= seq![4u8]);
        },
        ClientMessageFlat::StopIO => {
            assert(b =~= seq![5u8]);
        },
        ClientMessageFlat::Disconnect => {
            assert(b =~= seq![7u8]);
        },
    }
}

/// Every well-formed server message's encoding is a valid server wire
/// datagram, so decoding is owed success on it. An offer must advertise
/// well-formed formats, and fewer than the wire's four-byte counts can
/// name.
pub proof fn lemma_encode_server_valid(m: Server)
    requires
        m matches Server::Connect(fmts) ==> {
            &&& fmts.wf()
            &&& fmts.inputs@.len() < 0x100000000
            &&& fmts.outputs@.len() < 0x100000000
        },
    ensures
        spec_server_wire_valid(spec_encode_server(m)),
{
    let b = spec_encode_server(m);
    match spec_flatten_server(m) {
        ServerMessageFlat::Connect(fmts) => {
            let ni = fmts.inputs@.len();
            let no = fmts.outputs@.len();
            let ein = spec_encode_format_seq(fmts.inputs@);
            let eout = spec_encode_format_seq(fmts.outputs@);
            super::codec::lemma_le_bytes_len(ni, 4);
            super::codec::lemma_le_bytes_len(no, 4);
            lemma_encode_format_seq_len(fmts.inputs@);
            lemma_encode_format_seq_len(fmts.outputs@);
            assert(b.len() == 9 + ni * FORMAT_WIRE_LEN + no * FORMAT_WIRE_LEN);
            assert(b[0] == 0);
            assert(b.subrange(1, 5) =~= le_bytes(ni, 4));
            assert(b.subrange(5, 9) =~= le_bytes(no, 4));
            super::codec::lemma_le_value_of_le_bytes(ni, 4);
            super::codec::lemma_le_value_of_le_bytes(no, 4);
            super::codec::lemma_pow256_values();
            vstd::arithmetic::div_mod::lemma_small_mod(ni, super::codec::pow256(4));
            vstd::arithmetic::div_mod::lemma_small_mod(no, super::codec::pow256(4));
            assert(b.subrange(9, 9 + ni * FORMAT_WIRE_LEN) =~= ein);
            assert(b.skip(9 + ni * FORMAT_WIRE_LEN) =~= eout);
            lemma_encode_format_seq_valid(fmts.inputs@);
            lemma_encode_format_seq_valid(fmts.outputs@);
            assert((ni + no) * FORMAT_WIRE_LEN == ni * FORMAT_WIRE_LEN + no
                * FORMAT_WIRE_LEN) by (nonlinear_arith);
        },
        ServerMessageFlat::Audio(a) => {
            super::codec::lemma_le_bytes_len(a.stream_idx as nat, 8);
            super::codec::lemma_le_bytes_len(a.data.byte_index as nat, 8);
            assert(b[0] == 8);
            assert(b.len() >= 17);
            assert(b.subrange(1, 9) =~= le_bytes(a.stream_idx as nat, 8));
            super::codec::lemma_le_value_of_le_bytes(a.stream_idx as nat, 8);
            super::codec::lemma_pow256_8();
            vstd::arithmetic::div_mod::lemma_small_mod(
                a.stream_idx as nat,
                super::codec::pow256(8),
            );
        },
        ServerMessageFlat::StartIOSuccess => {
            assert(b =~= seq![1u8]);
        },
        ServerMessageFlat::StartIOFailed => {
            assert(b =~= seq![2u8]);
        },
        ServerMessageFlat::StartIORefused => {
            assert(b =~= seq![3u8]);
        },
        ServerMessageFlat::StopIOSuccess => {
            assert(b =~= seq![4u8]);
        },
        ServerMessageFlat::StopIOFailed => {
            assert(b =~= seq![5u8]);
        },
        ServerMessageFlat::StopIORefused => {
            assert(b =~= seq![6u8]);
        },
        ServerMessageFlat::Heartbeat => {
            assert(b =~= seq![7u8]);
        },
        ServerMessageFlat::Disconnect => {
            assert(b =~= seq![9u8]);
        },
    }
}

} // verus!
