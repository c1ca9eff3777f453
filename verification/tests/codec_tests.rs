//! Sample codec behaviour: sizes, flags, silence, and byte round trips.

use syfala::codec::{from_bytes, read_le_bytes, to_bytes};
use syfala::format::{SampleRate, SampleType};

fn all_types() -> Vec<SampleType> {
    vec![
        SampleType::U8,
        SampleType::U16,
        SampleType::U24,
        SampleType::U32,
        SampleType::U64,
        SampleType::I8,
        SampleType::I16,
        SampleType::I24,
        SampleType::I32,
        SampleType::I64,
        SampleType::IEEF32,
        SampleType::IEEF64,
    ]
}

#[test]
fn sample_sizes() {
    assert_eq!(SampleType::U8.sample_size(), 1);
    assert_eq!(SampleType::I16.sample_size(), 2);
    assert_eq!(SampleType::U24.sample_size(), 3);
    assert_eq!(SampleType::I24.sample_size(), 3);
    assert_eq!(SampleType::IEEF32.sample_size(), 4);
    assert_eq!(SampleType::U64.sample_size(), 8);
    assert_eq!(SampleType::IEEF64.sample_size(), 8);
}

#[test]
fn signed_and_float_flags() {
    assert!(!SampleType::U8.is_signed());
    assert!(SampleType::I8.is_signed());
    assert!(SampleType::I64.is_signed());
    assert!(SampleType::IEEF32.is_signed());
    assert!(!SampleType::U64.is_signed());
    assert!(SampleType::IEEF32.is_float());
    assert!(SampleType::IEEF64.is_float());
    assert!(!SampleType::I32.is_float());
}

#[test]
fn silence_values() {
    assert_eq!(SampleType::U8.silence(), 0x80);
    assert_eq!(SampleType::U16.silence(), 0x8000);
    assert_eq!(SampleType::I16.silence(), 0);
    assert_eq!(SampleType::IEEF32.silence(), 0);
}

#[test]
fn to_bytes_little_endian() {
    let b = to_bytes(SampleType::U24, 0x00C0FFEE);
    assert_eq!(b, vec![0xEE, 0xFF, 0xC0]);
    let b = to_bytes(SampleType::U16, 0x1234);
    assert_eq!(b, vec![0x34, 0x12]);
}

#[test]
fn bytes_round_trip_every_type() {
    // Bit patterns re-encode to the same bytes for every sample type.
    for ty in all_types() {
        let size = ty.sample_size() as usize;
        let pattern: Vec<u8> = (0..size).map(|i| (0xA7 + 31 * i as u32) as u8).collect();
        let sample = from_bytes(ty, &pattern);
        let back = to_bytes(ty, sample);
        assert_eq!(back, pattern, "round trip failed for {:?}", ty);
    }
}

#[test]
fn float_sample_round_trip() {
    let bits = 0.5f32.to_bits() as u64;
    let b = to_bytes(SampleType::IEEF32, bits);
    assert_eq!(from_bytes(SampleType::IEEF32, &b), bits);
    assert_eq!(f32::from_bits(bits as u32), 0.5f32);
}

#[test]
fn read_le_bytes_window() {
    let data = vec![9u8, 0x78, 0x56, 0x34, 0x12, 9];
    assert_eq!(read_le_bytes(&data, 1, 4), 0x12345678);
}

#[test]
fn sample_rate_validation() {
    let ok = SampleRate::new(48000.0f64.to_bits());
    assert!(ok.is_some());
    assert_eq!(ok.unwrap().get(), 48000.0f64.to_bits());
    assert!(SampleRate::new(0.0f64.to_bits()).is_none());
    assert!(SampleRate::new((-1.0f64).to_bits()).is_none());
    assert!(SampleRate::new(f64::NAN.to_bits()).is_none());
    assert!(SampleRate::new(f64::INFINITY.to_bits()).is_none());
    assert!(SampleRate::try_new(f64::NAN.to_bits()).is_err());
    assert!(SampleRate::try_new(44100.0f64.to_bits()).is_ok());
    assert_eq!(SampleRate::standard().get(), 48000.0f64.to_bits());
}
