use stt_server::audio::{bytes_to_i16_le, i16_to_bytes_le, window_starts, AudioConfig, Resampler};

#[test]
fn bytes_to_i16_le_decodes_pairs() {
    assert_eq!(bytes_to_i16_le(&[0x01, 0x00, 0xff, 0x7f, 0x00, 0x80, 0xff, 0xff]), vec![1, i16::MAX, i16::MIN, -1]);
}

#[test]
fn bytes_to_i16_le_ignores_trailing_odd_byte() {
    assert_eq!(bytes_to_i16_le(&[0x34, 0x12, 0x56]), vec![0x1234]);
    assert_eq!(bytes_to_i16_le(&[0x56]), Vec::<i16>::new());
    assert_eq!(bytes_to_i16_le(&[]), Vec::<i16>::new());
}

#[test]
fn i16_to_bytes_le_encodes_low_byte_first() {
    assert_eq!(i16_to_bytes_le(&[0x1234, -2, i16::MIN]), vec![0x34, 0x12, 0xfe, 0xff, 0x00, 0x80]);
    assert_eq!(i16_to_bytes_le(&[]), Vec::<u8>::new());
}

#[test]
fn pcm_round_trip_samples() {
    let samples = vec![0i16, 1, -1, 300, -300, i16::MAX, i16::MIN, 12345];
    assert_eq!(bytes_to_i16_le(&i16_to_bytes_le(&samples)), samples);
}

#[test]
fn pcm_round_trip_bytes() {
    let bytes: Vec<u8> = (0..=255u8).collect();
    assert_eq!(i16_to_bytes_le(&bytes_to_i16_le(&bytes)), bytes);
    let odd: Vec<u8> = vec![9, 8, 7];
    assert_eq!(i16_to_bytes_le(&bytes_to_i16_le(&odd)), vec![9, 8]);
}

#[test]
fn pcm_matches_std_conversions() {
    for s in [-32768i16, -129, -128, -1, 0, 1, 127, 128, 255, 256, 32767] {
        assert_eq!(i16_to_bytes_le(&[s]), s.to_le_bytes().to_vec());
        assert_eq!(bytes_to_i16_le(&s.to_le_bytes()), vec![s]);
    }
}

#[test]
fn window_starts_stop_before_last_full_window() {
    // 25 ms windows every 10 ms at 16 kHz over 1000 samples.
    assert_eq!(window_starts(1000, 400, 160), vec![0, 160, 320, 480]);
    // a window that would end exactly at the end is not taken
    assert_eq!(window_starts(560, 400, 160), vec![0]);
    assert_eq!(window_starts(400, 400, 160), Vec::<usize>::new());
    assert_eq!(window_starts(100, 400, 160), Vec::<usize>::new());
    assert_eq!(window_starts(16000, 400, 160).len(), 98);
}

#[test]
fn audio_config_defaults() {
    let config = AudioConfig::default();
    assert_eq!(config.sample_rate, 16000);
    assert_eq!(config.channels, 1);
    assert_eq!(config.bits_per_sample, 16);
}

#[test]
fn resampler_keeps_rates() {
    let r = Resampler::new(48000, 16000);
    assert_eq!(r.from_rate(), 48000);
    assert_eq!(r.to_rate(), 16000);
    assert!(!r.is_identity());
    assert!(Resampler::new(16000, 16000).is_identity());
}
