//! End-to-end flows: samples through the framer, the batching sender,
//! the wire, and back.

use syfala::encoding::{decode_server, encode_client, encode_server};
use syfala::machine::{Effect, ServerIOState};
use syfala::message::{server, Error, IOState, Server};
use syfala::registry::GenericClient;
use syfala::consumer::{
    AudioPacketConsumer, AudioPacketSamplePadder, IndexedAudioByteStreamSender, SampleSink,
};
use syfala::format::{
    BufferSize, ChannelCount, Format, SampleRate, SampleType, StreamFormats,
};
use syfala::network::{parse_audio_packet, Sender};
use syfala::producer::{AudioPacketProducer, IndexedAudioSampleStreamReceiver, SampleSource};

struct VecSource {
    pending: Vec<u64>,
}

impl SampleSource for VecSource {
    fn get_samples(&mut self) -> Vec<u64> {
        std::mem::take(&mut self.pending)
    }
}

struct VecSink {
    got: std::rc::Rc<std::cell::RefCell<Vec<u64>>>,
}

impl SampleSink for VecSink {
    fn consume_samples(&mut self, spls: Vec<u64>) {
        self.got.borrow_mut().extend(spls);
    }
}

#[test]
fn adapters_carry_samples_end_to_end() {
    // Producer adapter: pull samples, frame them into an indexed
    // packet; consumer adapter: reconstruct and sink them.
    let source = VecSource { pending: vec![11, 22, 33] };
    let mut producer = IndexedAudioSampleStreamReceiver::new(source, SampleType::U16);
    let (idx, bytes) = producer.produce_packet();
    assert_eq!(idx, 0);
    assert_eq!(bytes.len(), 6);

    let got = std::rc::Rc::new(std::cell::RefCell::new(Vec::new()));
    let sink = VecSink { got: got.clone() };
    let mut consumer = IndexedAudioByteStreamSender::new(sink, SampleType::U16);
    consumer.consume_packet(idx, &bytes);
    assert_eq!(&*got.borrow(), &vec![11, 22, 33]);

    // A second packet continues the stream.
    let source = VecSource { pending: vec![44] };
    let mut producer2 = IndexedAudioSampleStreamReceiver::new(source, SampleType::U16);
    let _ = producer2;
    consumer.consume_packet(6, &vec![0x2C, 0x00]);
    assert_eq!(&*got.borrow(), &vec![11, 22, 33, 44]);
}

#[test]
fn adapter_drops_reordered_packets_silently() {
    let got = std::rc::Rc::new(std::cell::RefCell::new(Vec::new()));
    let sink = VecSink { got: got.clone() };
    let mut consumer = IndexedAudioByteStreamSender::new(sink, SampleType::U16);
    consumer.consume_packet(0, &vec![1, 0, 2, 0]);
    consumer.consume_packet(0, &vec![9, 9]);
    assert_eq!(&*got.borrow(), &vec![1, 2]);
}

#[test]
fn batched_packets_reassemble_through_the_padder() {
    // Samples flow through the batching sender, across the wire as
    // datagrams, and back through the consumer framer, byte-for-byte.
    let mut sender = Sender::new(4);
    let samples: Vec<u32> = (0..8).map(|i| 0x1000 + i).collect();
    let (packets, _) = sender.send(&samples);
    assert_eq!(packets.len(), 2);

    let mut padder = AudioPacketSamplePadder::new(SampleType::U32);
    let mut out: Vec<u32> = Vec::new();
    for p in &packets {
        let (ts, spls) = parse_audio_packet(p).unwrap();
        // Sample timestamps and byte indices differ by the sample size.
        let byte_idx = ts * 4;
        let payload: Vec<u8> = p[8..].to_vec();
        let got = padder.feed_bytes(byte_idx, &payload, 0);
        assert_eq!(got.len(), spls.len());
        out.extend(got.iter().map(|&s| s as u32));
    }
    assert_eq!(out, samples);
}

#[test]
fn lost_datagram_is_concealed_with_silence() {
    let mut sender = Sender::new(4);
    let samples: Vec<u32> = (100..112).collect();
    let (packets, _) = sender.send(&samples);
    assert_eq!(packets.len(), 3);

    // The middle datagram is lost in transit.
    let mut padder = AudioPacketSamplePadder::new(SampleType::U32);
    let mut out: Vec<u32> = Vec::new();
    for p in [&packets[0], &packets[2]] {
        let (ts, _) = parse_audio_packet(p).unwrap();
        let payload: Vec<u8> = p[8..].to_vec();
        let got = padder.feed_bytes(ts * 4, &payload, 0);
        out.extend(got.iter().map(|&s| s as u32));
    }
    assert_eq!(
        out,
        vec![100, 101, 102, 103, 0, 0, 0, 0, 108, 109, 110, 111],
    );
}

#[test]
fn wire_level_handshake_reaches_active() {
    // A server's offer and start acknowledgement arrive as datagrams;
    // the client decodes them, drives the registry, and answers on the
    // wire.
    let mut client = GenericClient::new();
    let peer: u64 = 0x0A000002_0000 | 4451;

    let offer = encode_server(Server::Connect(StreamFormats {
        inputs: vec![],
        outputs: vec![Format {
            sample_rate: SampleRate::new(48000.0f64.to_bits()).unwrap(),
            channel_count: ChannelCount(2),
            buffer_size: BufferSize(32),
            sample_type: SampleType::IEEF32,
        }],
    }));
    let decoded = decode_server(&offer).expect("the offer must decode");
    let formats = match decoded {
        Server::Connect(f) => f,
        other => panic!("wrong variant: {:?}", other),
    };
    assert!(formats.outputs.iter().all(|f| f.sample_type == SampleType::IEEF32));
    let reply = client.on_connect_offer(peer, 0, Ok(())).unwrap();
    assert_eq!(reply, Ok(()));
    let reply_bytes = encode_client(syfala::message::Client::ConnectionResult(reply));
    assert_eq!(reply_bytes, vec![1]);
    assert_eq!(client.state_of(peer), Some(ServerIOState::Inactive));

    // The application asks to start; the server acknowledges over the
    // wire.
    assert_eq!(client.poll_peer(peer, true, false), Effect::SendStartRequest);
    let ack = encode_server(Server::Connected(server::Connected::Control(
        server::Control::IOStateChangeResult(IOState::Start(Ok(()))),
    )));
    let ctrl = match decode_server(&ack).unwrap() {
        Server::Connected(server::Connected::Control(c)) => c,
        other => panic!("wrong variant: {:?}", other),
    };
    assert_eq!(client.on_connected_control(peer, 5, ctrl), Effect::NotifyStarted);
    assert_eq!(client.state_of(peer), Some(ServerIOState::Active));

    // A refusal on the wire would have been reported instead.
    let refusal = Error::Refusal;
    let refusal_bytes = encode_client(syfala::message::Client::ConnectionResult(Err(refusal)));
    assert_eq!(refusal_bytes, vec![3]);
}
