//! Indexed byte framing: emission, reconstruction, loss, and reorder.

use syfala::codec::to_bytes;
use syfala::consumer::AudioPacketSamplePadder;
use syfala::format::SampleType;
use syfala::producer::SampleByteStream;

fn f32_sample(v: f32) -> u64 {
    v.to_bits() as u64
}

#[test]
fn producer_advances_by_sample_size() {
    // Emitting k samples advances the byte index by exactly k * size.
    let mut s = SampleByteStream::new(SampleType::IEEF32);
    assert_eq!(s.current_byte_idx(), 0);
    let samples = vec![f32_sample(0.25), f32_sample(-1.0), f32_sample(3.5)];
    let bytes = s.feed_samples(&samples);
    assert_eq!(bytes.len(), 12);
    assert_eq!(s.current_byte_idx(), 12);
    let more = vec![f32_sample(0.0)];
    s.feed_samples(&more);
    assert_eq!(s.current_byte_idx(), 16);
}

#[test]
fn producer_emits_little_endian_stream() {
    let mut s = SampleByteStream::new(SampleType::U16);
    let bytes = s.feed_samples(&vec![0x1234, 0xBEEF]);
    assert_eq!(bytes, vec![0x34, 0x12, 0xEF, 0xBE]);
}

#[test]
fn consumer_reconstructs_in_order_stream() {
    // Any in-order, gapless partition of the byte stream reconstructs
    // the original samples, even cutting inside a sample.
    let samples = vec![
        f32_sample(1.0),
        f32_sample(2.0),
        f32_sample(3.0),
        f32_sample(4.0),
    ];
    let mut producer = SampleByteStream::new(SampleType::IEEF32);
    let bytes = producer.feed_samples(&samples);
    assert_eq!(bytes.len(), 16);

    // Cut at 0..5, 5..6, 6..16: boundaries fall inside samples.
    let cuts = [(0usize, 5usize), (5, 6), (6, 16)];
    let mut padder = AudioPacketSamplePadder::new(SampleType::IEEF32);
    let mut out: Vec<u64> = Vec::new();
    for &(a, b) in cuts.iter() {
        let piece: Vec<u8> = bytes[a..b].to_vec();
        let got = padder.feed_bytes(a as u64, &piece, 0);
        out.extend(got);
    }
    assert_eq!(out, samples);
    assert_eq!(padder.current_byte_idx(), 16);
}

#[test]
fn consumer_pads_lost_region() {
    // S4-shaped loss: 4 real samples, then the gap 16..24 is concealed
    // by two silence samples, then 2 real samples; 8 samples in all.
    let ty = SampleType::IEEF32;
    let silence = ty.silence();
    let mut padder = AudioPacketSamplePadder::new(ty);

    let mut first = Vec::new();
    for v in [1.0f32, 2.0, 3.0, 4.0] {
        first.extend(to_bytes(ty, f32_sample(v)));
    }
    assert_eq!(first.len(), 16);
    let got = padder.feed_bytes(0, &first, silence);
    assert_eq!(got.len(), 4);
    assert_eq!(got[0], f32_sample(1.0));

    let mut second = Vec::new();
    for v in [7.0f32, 8.0] {
        second.extend(to_bytes(ty, f32_sample(v)));
    }
    let got = padder.feed_bytes(24, &second, silence);
    assert_eq!(got.len(), 4);
    assert_eq!(&got[..2], &[silence, silence]);
    assert_eq!(&got[2..], &[f32_sample(7.0), f32_sample(8.0)]);
    assert_eq!(padder.current_byte_idx(), 32);
}

#[test]
fn consumer_pad_count_covers_gap_samples() {
    // A gap [16, 32) touches four samples: exactly
    // ceil(32/4) - floor(16/4) = 4 padding samples appear before the
    // packet's own samples.
    let ty = SampleType::IEEF32;
    let mut padder = AudioPacketSamplePadder::new(ty);
    let mut first = Vec::new();
    for v in [1.0f32, 2.0, 3.0, 4.0] {
        first.extend(to_bytes(ty, f32_sample(v)));
    }
    padder.feed_bytes(0, &first, 0);

    let mut second = Vec::new();
    for v in [9.0f32, 10.0] {
        second.extend(to_bytes(ty, f32_sample(v)));
    }
    let got = padder.feed_bytes(32, &second, 0);
    assert_eq!(got.len(), 6);
    assert_eq!(&got[..4], &[0, 0, 0, 0]);
    assert_eq!(&got[4..], &[f32_sample(9.0), f32_sample(10.0)]);
}

#[test]
fn consumer_drops_reordered_packet() {
    // S6: with the expected index at 64, a packet at 32 is dropped
    // whole and the expected index stays 64; a packet at 64 is taken.
    let ty = SampleType::IEEF32;
    let mut padder = AudioPacketSamplePadder::new(ty);
    let warmup: Vec<u8> = (0..64).map(|i| i as u8).collect();
    let got = padder.feed_bytes(0, &warmup, 0);
    assert_eq!(got.len(), 16);
    assert_eq!(padder.current_byte_idx(), 64);

    let stale: Vec<u8> = vec![0xAA; 8];
    let got = padder.feed_bytes(32, &stale, 0);
    assert!(got.is_empty());
    assert_eq!(padder.current_byte_idx(), 64);

    let fresh = to_bytes(ty, f32_sample(5.0));
    let got = padder.feed_bytes(64, &fresh, 0);
    assert_eq!(got, vec![f32_sample(5.0)]);
    assert_eq!(padder.current_byte_idx(), 68);
}

#[test]
fn consumer_misaligned_gap_resumes_at_boundary() {
    // A packet that starts inside a sample after a gap: input bytes up
    // to the next sample boundary are skipped.
    let ty = SampleType::U16;
    let mut padder = AudioPacketSamplePadder::new(ty);
    // Gap [0, 3): the packet starts at byte 3, one byte into sample 1.
    // Next boundary is 4, so one input byte is skipped, and
    // ceil(3/2) - 0 = 2 padding samples cover samples 0 and 1.
    let packet = vec![0xAA, 0x34, 0x12];
    let got = padder.feed_bytes(3, &packet, 7);
    assert_eq!(got, vec![7, 7, 0x1234]);
    assert_eq!(padder.current_byte_idx(), 6);
}

#[test]
fn consumer_buffers_partial_sample_across_calls() {
    let ty = SampleType::U32;
    let mut padder = AudioPacketSamplePadder::new(ty);
    let got = padder.feed_bytes(0, &vec![0xDD, 0xCC], 0);
    assert!(got.is_empty());
    assert_eq!(padder.current_byte_idx(), 2);
    let got = padder.feed_bytes(2, &vec![0xBB, 0xAA], 0);
    assert_eq!(got, vec![0xAABBCCDD]);
}

#[test]
fn twenty_four_bit_samples_use_three_bytes() {
    let mut producer = SampleByteStream::new(SampleType::I24);
    let bytes = producer.feed_samples(&vec![0x123456, 0x654321]);
    assert_eq!(bytes, vec![0x56, 0x34, 0x12, 0x21, 0x43, 0x65]);
    let mut padder = AudioPacketSamplePadder::new(SampleType::I24);
    let got = padder.feed_bytes(0, &bytes, 0);
    assert_eq!(got, vec![0x123456, 0x654321]);
}
