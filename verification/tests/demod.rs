use std::f32::consts::PI;

use p25_httpd::lsm::demod::{
    dibit_phase, float_rank, hard_dibit, scan_end, to_dibit, HALF_PI_RANK, P25_SYMBOL_RATE,
};

fn slice(phase: f32) -> u8 {
    to_dibit(float_rank(phase.to_bits()))
}

#[test]
fn to_dibit_quadrants() {
    assert_eq!(slice(PI / 4.0), 0b00);
    assert_eq!(slice(3.0 * PI / 4.0), 0b01);
    assert_eq!(slice(-PI / 4.0), 0b10);
    assert_eq!(slice(-3.0 * PI / 4.0), 0b11);
}

#[test]
fn dibit_phase_inverse_of_to_dibit() {
    for d in 0..4u8 {
        assert_eq!(slice(dibit_phase(d) as f32 * PI / 4.0), d);
    }
}

#[test]
fn edges_of_the_quadrants() {
    assert_eq!(slice(PI / 2.0), 0b00);
    assert_eq!(slice(-PI / 2.0), 0b10);
    assert_eq!(slice(0.0), 0b10);
    assert_eq!(slice(-0.0), 0b10);
    assert_eq!(slice(f32::NAN), 0b10);
    assert_eq!(slice(f32::INFINITY), 0b01);
    assert_eq!(slice(f32::NEG_INFINITY), 0b11);
}

#[test]
fn zero_phase_is_dibit_zero() {
    assert_eq!(hard_dibit(float_rank(0.0_f32.to_bits())), 0);
    assert_eq!(hard_dibit(float_rank((-0.0_f32).to_bits())), 0);
    assert_eq!(hard_dibit(float_rank((-0.1_f32).to_bits())), 2);
    assert_eq!(hard_dibit(None), 2);
}

#[test]
fn ranks_order_as_numbers_do() {
    let values = [f32::NEG_INFINITY, -60.0, -1.0e-30, 0.0, 1.0e-40, 0.5, 60.0, f32::INFINITY];
    for pair in values.windows(2) {
        assert!(float_rank(pair[0].to_bits()) < float_rank(pair[1].to_bits()));
    }
    assert_eq!(float_rank(f32::NAN.to_bits()), None);
    assert_eq!(float_rank((PI / 2.0).to_bits()), Some(HALF_PI_RANK));
}

#[test]
fn phases_of_what_is_no_dibit() {
    assert_eq!(dibit_phase(4), 0);
    assert_eq!(P25_SYMBOL_RATE, 4800);
}

#[test]
fn scan_ends_before_the_last_period() {
    assert_eq!(scan_end(4096, 7), 4087);
    assert_eq!(scan_end(9, 7), 0);
    assert_eq!(scan_end(10, 7), 1);
}
