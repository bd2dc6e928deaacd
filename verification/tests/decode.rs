//! Decoding of stereo PCM into mono samples.

use chronicle_worker::decode::decode_stereo_to_mono_i16;

fn frame(l: i16, r: i16) -> Vec<u8> {
    let mut bytes = l.to_le_bytes().to_vec();
    bytes.extend_from_slice(&r.to_le_bytes());
    bytes
}

#[test]
fn empty_input_produces_empty_output() {
    assert!(decode_stereo_to_mono_i16(&[]).is_empty());
}

#[test]
fn single_stereo_frame_averages_channels() {
    // L = 16384, R = -16384. Average = 0.
    let raw = [0x00, 0x40, 0x00, 0xC0];
    let out = decode_stereo_to_mono_i16(&raw);
    assert_eq!(out, vec![0]);
}

#[test]
fn full_scale_positive_frame_near_peak() {
    let hi = i16::MAX.to_le_bytes();
    let raw = [hi[0], hi[1], hi[0], hi[1]];
    let out = decode_stereo_to_mono_i16(&raw);
    assert_eq!(out, vec![i16::MAX]);
}

#[test]
fn odd_length_input_truncates_trailing_partial_frame() {
    let raw = [0x00, 0x40, 0x00, 0xC0, 0xFF];
    assert_eq!(decode_stereo_to_mono_i16(&raw).len(), 1);
}

#[test]
fn three_bytes_yields_nothing() {
    assert!(decode_stereo_to_mono_i16(&[0x01, 0x02, 0x03]).is_empty());
}

#[test]
fn no_i16_overflow_near_saturation() {
    // Both channels at i16::MIN would overflow naive i16 sum; ensure safe.
    let lo = i16::MIN.to_le_bytes();
    let raw = [lo[0], lo[1], lo[0], lo[1]];
    let out = decode_stereo_to_mono_i16(&raw);
    assert_eq!(out, vec![i16::MIN]);
}

#[test]
fn averages_round_toward_zero() {
    assert_eq!(decode_stereo_to_mono_i16(&frame(1, 2)), vec![1]);
    assert_eq!(decode_stereo_to_mono_i16(&frame(-1, -2)), vec![-1]);
    assert_eq!(decode_stereo_to_mono_i16(&frame(-1, 0)), vec![0]);
    assert_eq!(decode_stereo_to_mono_i16(&frame(i16::MIN, i16::MAX)), vec![0]);
}

#[test]
fn whole_frames_decode_piecewise() {
    let mut a = frame(100, 300);
    a.extend(frame(-7, 9));
    let b = frame(12, -40);
    let mut both = a.clone();
    both.extend(b.clone());
    let mut parts = decode_stereo_to_mono_i16(&a);
    parts.extend(decode_stereo_to_mono_i16(&b));
    assert_eq!(decode_stereo_to_mono_i16(&both), parts);
    assert_eq!(parts, vec![200, 1, -14]);
}
