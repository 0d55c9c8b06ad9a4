use p25_httpd::lsm::ring::{sub_buffer_to_complex, sub_buffers_to_complex};
use p25_httpd::lsm::Complex16;

/// A part at full scale, as a fraction.
fn scaled(part: i16) -> f32 {
    part as f32 / 32768.0
}

#[test]
fn decode_single_pair() {
    let bytes = [0x34, 0x12, 0x88, 0xA9];
    let out = sub_buffer_to_complex(&bytes);
    assert_eq!(out.len(), 1);
    assert!((scaled(out[0].re) - 4660.0 / 32768.0).abs() < 1e-6);
    assert!((scaled(out[0].im) - (-22136.0_f32) / 32768.0).abs() < 1e-6);
}

#[test]
fn preserves_sample_order() {
    let bytes = [0x01, 0x00, 0x02, 0x00, 0x03, 0x00, 0x04, 0x00];
    let out = sub_buffer_to_complex(&bytes);
    assert_eq!(out.len(), 2);
    assert!((scaled(out[0].re) - 1.0 / 32768.0).abs() < 1e-9);
    assert!((scaled(out[0].im) - 2.0 / 32768.0).abs() < 1e-9);
    assert!((scaled(out[1].re) - 3.0 / 32768.0).abs() < 1e-9);
    assert!((scaled(out[1].im) - 4.0 / 32768.0).abs() < 1e-9);
}

#[test]
fn concatenate_two_subbuffers() {
    let a = [0x00, 0x00, 0x00, 0x00];
    let b = [0xFF, 0x7F, 0x00, 0x80];
    let bufs: [&[u8]; 2] = [&a, &b];
    let out = sub_buffers_to_complex(&bufs);
    assert_eq!(out.len(), 2);
    assert_eq!(out[0], Complex16 { re: 0, im: 0 });
    assert!((scaled(out[1].re) - 32767.0 / 32768.0).abs() < 1e-6);
    assert!((scaled(out[1].im) - (-32768.0_f32) / 32768.0).abs() < 1e-6);
}

#[test]
fn trailing_bytes_are_dropped() {
    assert_eq!(sub_buffer_to_complex(&[1, 0, 2, 0, 9, 9, 9]), vec![Complex16 { re: 1, im: 2 }]);
    assert!(sub_buffer_to_complex(&[1, 2, 3]).is_empty());
}
