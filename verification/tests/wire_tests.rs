//! The compact magic-prefix datagram format and discovery packets.

use syfala::config::AudioConfig;
use syfala::network::{
    build_config_packet, build_discovery_packet, parse_audio_packet, parse_config,
    parse_discovery_packet, Sender,
};
use syfala::wire::{build_audio_packet, build_connection_packet, parse_message, Message};

#[test]
fn connection_packet_round_trip() {
    let cfg = AudioConfig::new(8, 16);
    let packet = build_connection_packet(Some(cfg));
    assert_eq!(&packet[..4], b"SyFc");
    match parse_message(&packet).unwrap() {
        Message::RequestConnection(Some(got)) => {
            assert_eq!(got.n_channels(), 8);
            assert_eq!(got.chunk_size_frames(), 16);
        },
        other => panic!("wrong message: {:?}", other),
    }
}

#[test]
fn bare_connection_packet_has_no_config() {
    let packet = build_connection_packet(None);
    assert_eq!(packet, b"SyFc".to_vec());
    match parse_message(&packet).unwrap() {
        Message::RequestConnection(None) => {},
        other => panic!("wrong message: {:?}", other),
    }
}

#[test]
fn audio_message_round_trip() {
    let payload = vec![1u8, 2, 3, 4, 5, 6, 7, 8];
    let packet = build_audio_packet(77, &payload);
    assert_eq!(&packet[..4], b"SyFa");
    match parse_message(&packet).unwrap() {
        Message::Audio { timestamp, sample_bytes } => {
            assert_eq!(timestamp, 77);
            assert_eq!(sample_bytes, payload);
        },
        other => panic!("wrong message: {:?}", other),
    }
}

#[test]
fn foreign_prefix_is_rejected() {
    assert!(parse_message(&vec![]).is_none());
    assert!(parse_message(&b"Nope".to_vec()).is_none());
    // An audio prefix without a full timestamp is rejected too.
    assert!(parse_message(&b"SyFa123".to_vec()).is_none());
}

#[test]
fn discovery_packet_round_trip() {
    let ip = u32::from_be_bytes([192, 168, 1, 7]);
    let packet = build_discovery_packet(ip, 6910);
    assert_eq!(&packet[..16], b"SYFALACLIENTADDR");
    assert_eq!(parse_discovery_packet(&packet), Some((ip, 6910)));
    assert!(parse_discovery_packet(&b"SYFALACLIENTADDR".to_vec()).is_none());
    assert!(parse_discovery_packet(&b"SYFALASERVERCONF123456".to_vec()).is_none());
}

#[test]
fn config_packet_round_trip() {
    let ip = u32::from_be_bytes([10, 0, 0, 2]);
    let cfg = AudioConfig::new(2, 32);
    let packet = build_config_packet(ip, 6910, cfg);
    assert_eq!(&packet[..16], b"SYFALASERVERCONF");
    let ((got_ip, got_port), got_cfg) = parse_config(&packet).unwrap();
    assert_eq!(got_ip, ip);
    assert_eq!(got_port, 6910);
    assert_eq!(got_cfg.n_channels(), 2);
    assert_eq!(got_cfg.chunk_size_frames(), 32);
}

#[test]
fn zero_channel_config_is_rejected() {
    // A zero channel count never denotes a usable server.
    let ip = u32::from_be_bytes([10, 0, 0, 2]);
    let cfg = AudioConfig::new(2, 32);
    let mut packet = build_config_packet(ip, 6910, cfg);
    for i in 22..26 {
        packet[i] = 0;
    }
    assert!(parse_config(&packet).is_none());
}

#[test]
fn audio_config_chunk_sizes() {
    let cfg = AudioConfig::new(8, 16);
    assert_eq!(cfg.n_channels(), 8);
    assert_eq!(cfg.chunk_size_frames(), 16);
    assert_eq!(cfg.chunk_size_samples(), 128);
}

#[test]
fn sender_flushes_at_chunk_boundaries() {
    // Chunk size 4: feeding 10 samples flushes twice and leaves 2
    // samples pending; the packet timestamps chain 0, then 4.
    let mut sender = Sender::new(4);
    let samples: Vec<u32> = (100..110).collect();
    let (packets, used) = sender.send(&samples);
    assert!(used);
    assert_eq!(packets.len(), 2);

    let (ts0, spls0) = parse_audio_packet(&packets[0]).unwrap();
    assert_eq!(ts0, 0);
    assert_eq!(spls0, vec![100, 101, 102, 103]);
    let (ts1, spls1) = parse_audio_packet(&packets[1]).unwrap();
    assert_eq!(ts1, 4);
    assert_eq!(spls1, vec![104, 105, 106, 107]);

    // The two pending samples flush on demand with the right stamp.
    let packet = sender.flush();
    let (ts2, spls2) = parse_audio_packet(&packet).unwrap();
    assert_eq!(ts2, 8);
    assert_eq!(spls2, vec![108, 109]);
}

#[test]
fn sender_without_boundary_keeps_pending() {
    let mut sender = Sender::new(64);
    let (packets, used) = sender.send(&vec![1, 2, 3]);
    assert!(!used);
    assert!(packets.is_empty());
    assert_eq!(sender.n_stored_samples(), 3);
    assert_eq!(sender.current_timestamp_samples(), 3);
}

#[test]
fn parse_audio_packet_ignores_partial_sample() {
    let mut bytes = vec![0u8; 8];
    bytes.extend([0x01, 0x00, 0x00, 0x00, 0xFF, 0xEE]);
    let (ts, spls) = parse_audio_packet(&bytes).unwrap();
    assert_eq!(ts, 0);
    assert_eq!(spls, vec![1]);
    assert!(parse_audio_packet(&vec![1, 2, 3]).is_none());
}
