//! Wire encoding of the protocol messages: round trips and rejection
//! of foreign or truncated datagrams.

use syfala::encoding::{decode_client, decode_server, encode_client, encode_server};
use syfala::format::{BufferSize, ChannelCount, Format, SampleRate, SampleType, StreamFormats};
use syfala::flat::{flatten_client, flatten_server, unflatten_client, unflatten_server};
use syfala::message::{client, server, AudioData, AudioStreamData, Client, Error, IOState, Server};

fn format_48k_stereo() -> Format {
    Format {
        sample_rate: SampleRate::new(48000.0f64.to_bits()).unwrap(),
        channel_count: ChannelCount(2),
        buffer_size: BufferSize(32),
        sample_type: SampleType::IEEF32,
    }
}

#[test]
fn client_control_messages_round_trip() {
    let msgs = [
        Client::Discovery,
        Client::ConnectionResult(Ok(())),
        Client::ConnectionResult(Err(Error::Failure)),
        Client::ConnectionResult(Err(Error::Refusal)),
        Client::Connected(client::Connected::Control(
            client::Control::RequestIOStateChange(IOState::Start(())),
        )),
        Client::Connected(client::Connected::Control(
            client::Control::RequestIOStateChange(IOState::Stop(())),
        )),
        Client::Disconnect,
    ];
    for m in msgs {
        let bytes = encode_client(m);
        assert_eq!(bytes.len(), 1, "control messages use one byte");
        let back = decode_client(&bytes).expect("own encoding must decode");
        let again = encode_client(back);
        assert_eq!(again, bytes);
    }
}

#[test]
fn client_audio_round_trip() {
    let m = Client::Connected(client::Connected::Audio(AudioData {
        stream_idx: 3,
        data: AudioStreamData { byte_index: 4096, bytes: vec![1, 2, 3, 4, 5] },
    }));
    let bytes = encode_client(m);
    assert_eq!(bytes[0], 6);
    assert_eq!(bytes.len(), 17 + 5);
    match decode_client(&bytes).unwrap() {
        Client::Connected(client::Connected::Audio(a)) => {
            assert_eq!(a.stream_idx, 3);
            assert_eq!(a.data.byte_index, 4096);
            assert_eq!(a.data.bytes, vec![1, 2, 3, 4, 5]);
        },
        other => panic!("wrong variant: {:?}", other),
    }
}

#[test]
fn server_control_messages_round_trip() {
    let results = [
        IOState::Start(Ok(())),
        IOState::Start(Err(Error::Failure)),
        IOState::Start(Err(Error::Refusal)),
        IOState::Stop(Ok(())),
        IOState::Stop(Err(Error::Failure)),
        IOState::Stop(Err(Error::Refusal)),
    ];
    for r in results {
        let m = Server::Connected(server::Connected::Control(
            server::Control::IOStateChangeResult(r),
        ));
        let bytes = encode_server(m);
        assert_eq!(bytes.len(), 1);
        let back = decode_server(&bytes).unwrap();
        assert_eq!(encode_server(back), bytes);
    }
    let hb = encode_server(Server::Connected(server::Connected::Control(
        server::Control::Heartbeat,
    )));
    assert_eq!(hb, vec![7]);
    let bye = encode_server(Server::Disconnect);
    assert_eq!(bye, vec![9]);
}

#[test]
fn server_connect_round_trip() {
    // The S1 offer: no inputs, one IEEF32 stereo output.
    let m = Server::Connect(StreamFormats {
        inputs: vec![],
        outputs: vec![format_48k_stereo()],
    });
    let bytes = encode_server(m);
    assert_eq!(bytes[0], 0);
    assert_eq!(bytes.len(), 9 + 17);
    match decode_server(&bytes).unwrap() {
        Server::Connect(f) => {
            assert!(f.inputs.is_empty());
            assert_eq!(f.outputs.len(), 1);
            let out = &f.outputs[0];
            assert_eq!(out.sample_rate.get(), 48000.0f64.to_bits());
            assert_eq!(out.channel_count, ChannelCount(2));
            assert_eq!(out.buffer_size, BufferSize(32));
            assert_eq!(out.sample_type, SampleType::IEEF32);
        },
        other => panic!("wrong variant: {:?}", other),
    }
}

#[test]
fn server_connect_many_formats_round_trip() {
    let mut f2 = format_48k_stereo();
    f2.channel_count = ChannelCount(8);
    f2.sample_type = SampleType::I24;
    let m = Server::Connect(StreamFormats {
        inputs: vec![format_48k_stereo(), f2],
        outputs: vec![f2],
    });
    let bytes = encode_server(m);
    let back = decode_server(&bytes).unwrap();
    assert_eq!(encode_server(back), bytes);
}

#[test]
fn server_audio_round_trip() {
    let m = Server::Connected(server::Connected::Audio(AudioData {
        stream_idx: 0,
        data: AudioStreamData { byte_index: 0, bytes: vec![0xAB; 16] },
    }));
    let bytes = encode_server(m);
    assert_eq!(bytes[0], 8);
    match decode_server(&bytes).unwrap() {
        Server::Connected(server::Connected::Audio(a)) => {
            assert_eq!(a.data.bytes.len(), 16);
        },
        other => panic!("wrong variant: {:?}", other),
    }
}

#[test]
fn foreign_datagrams_are_unknown_messages() {
    assert!(decode_client(&vec![]).is_none());
    assert!(decode_server(&vec![]).is_none());
    // Unknown discriminants.
    assert!(decode_client(&vec![42]).is_none());
    assert!(decode_server(&vec![200]).is_none());
    // Control tags with trailing garbage.
    assert!(decode_client(&vec![0, 0]).is_none());
    assert!(decode_server(&vec![7, 7]).is_none());
    // Audio too short for its header.
    assert!(decode_client(&vec![6, 1, 2, 3]).is_none());
    assert!(decode_server(&vec![8, 1, 2, 3]).is_none());
}

#[test]
fn invalid_offer_fields_are_rejected() {
    // A valid one-output offer, then corrupted copies of it.
    let m = Server::Connect(StreamFormats { inputs: vec![], outputs: vec![format_48k_stereo()] });
    let good = encode_server(m);

    // Zero channel count.
    let mut bad = good.clone();
    bad[9 + 8] = 0;
    bad[9 + 9] = 0;
    bad[9 + 10] = 0;
    bad[9 + 11] = 0;
    assert!(decode_server(&bad).is_none());

    // A rate that is not a positive normal number (all-zero bits).
    let mut bad = good.clone();
    for i in 0..8 {
        bad[9 + i] = 0;
    }
    assert!(decode_server(&bad).is_none());

    // An unknown sample type code.
    let mut bad = good.clone();
    bad[9 + 16] = 99;
    assert!(decode_server(&bad).is_none());

    // A length that does not match the counts.
    let mut bad = good.clone();
    bad.push(0);
    assert!(decode_server(&bad).is_none());
    let mut bad = good.clone();
    bad.pop();
    assert!(decode_server(&bad).is_none());
}

#[test]
fn flatten_round_trip_concrete() {
    let m = Client::ConnectionResult(Err(Error::Refusal));
    match unflatten_client(flatten_client(m)) {
        Client::ConnectionResult(Err(Error::Refusal)) => {},
        other => panic!("wrong variant: {:?}", other),
    }
    let m = Server::Connected(server::Connected::Control(server::Control::Heartbeat));
    match unflatten_server(flatten_server(m)) {
        Server::Connected(server::Connected::Control(server::Control::Heartbeat)) => {},
        other => panic!("wrong variant: {:?}", other),
    }
}
