use p25_httpd::lsm::filters::{
    decimate_by_2, StreamingDecimator2, StreamingFir, LPF_TAPS_31250, POST_DECIMATION_RATE_HZ,
    RRC_TAPS_31250, TAP_SCALE,
};
use std::f32::consts::PI;

fn tap(t: i64) -> f32 {
    (t as f64 / TAP_SCALE as f64) as f32
}

/// Filter one chunk: the dot product of the taps with the samples up to each.
fn fir(filter: &mut StreamingFir<(f32, f32)>, taps: &[i64], input: &[(f32, f32)]) -> Vec<(f32, f32)> {
    let extended = filter.process(input);
    let mut out = Vec::new();
    for n in 0..input.len() {
        let mut acc = (0.0_f32, 0.0_f32);
        for (k, &t) in taps.iter().enumerate() {
            let s = extended[n + taps.len() - 1 - k];
            acc.0 += tap(t) * s.0;
            acc.1 += tap(t) * s.1;
        }
        out.push(acc);
    }
    out
}

#[test]
fn fir_impulse_response_matches_taps() {
    let mut input = vec![(0.0_f32, 0.0_f32); 200];
    input[0] = (1.0, 0.0);

    let mut filter = StreamingFir::new(LPF_TAPS_31250.len(), (0.0, 0.0));
    let out = fir(&mut filter, &LPF_TAPS_31250, &input);
    for (i, &h) in LPF_TAPS_31250.iter().enumerate() {
        let h = tap(h);
        assert!(
            (out[i].0 - h).abs() < 1e-6,
            "LPF impulse response mismatch at tap {i}: got {}, expected {h}",
            out[i].0
        );
        assert!(out[i].1.abs() < 1e-6);
    }
    for sample in &out[LPF_TAPS_31250.len()..] {
        assert!(sample.0.abs() < 1e-6);
        assert!(sample.1.abs() < 1e-6);
    }
}

#[test]
fn rrc_impulse_response_matches_taps() {
    let mut input = vec![(0.0_f32, 0.0_f32); 200];
    input[0] = (0.0, 1.0);

    let mut filter = StreamingFir::new(RRC_TAPS_31250.len(), (0.0, 0.0));
    let out = fir(&mut filter, &RRC_TAPS_31250, &input);
    for (i, &h) in RRC_TAPS_31250.iter().enumerate() {
        let h = tap(h);
        assert!((out[i].0).abs() < 1e-6);
        assert!(
            (out[i].1 - h).abs() < 1e-6,
            "RRC impulse response mismatch at tap {i}: got {}, expected {h}",
            out[i].1
        );
    }
}

#[test]
fn decimate_by_2_takes_evens() {
    let input: Vec<(f32, f32)> = (0..10).map(|i| (i as f32, -(i as f32))).collect();
    let out = decimate_by_2(&input);
    assert_eq!(out.len(), 5);
    for (i, c) in out.iter().enumerate() {
        assert_eq!(c.0, (2 * i) as f32);
        assert_eq!(c.1, -((2 * i) as f32));
    }
}

#[test]
fn lpf_dc_gain_close_to_unity() {
    let dc_gain: f32 = LPF_TAPS_31250.iter().map(|&t| tap(t)).sum();
    assert!(
        (dc_gain - 0.9899).abs() < 1e-3,
        "LPF DC gain {dc_gain} drifted from frozen value 0.9899; tap export may be wrong"
    );
}

#[test]
fn streaming_fir_matches_batch_across_chunks() {
    let n = 400;
    let input: Vec<(f32, f32)> = (0..n)
        .map(|i| {
            let phi = 0.07 * i as f32 + 0.001 * (i as f32) * (i as f32);
            (phi.cos(), phi.sin())
        })
        .collect();
    let mut whole = StreamingFir::new(LPF_TAPS_31250.len(), (0.0, 0.0));
    let batch = fir(&mut whole, &LPF_TAPS_31250, &input);

    let mut sf = StreamingFir::new(LPF_TAPS_31250.len(), (0.0, 0.0));
    let split = 137;
    let a = fir(&mut sf, &LPF_TAPS_31250, &input[..split]);
    let b = fir(&mut sf, &LPF_TAPS_31250, &input[split..]);
    let mut streamed: Vec<(f32, f32)> = Vec::with_capacity(n);
    streamed.extend(a);
    streamed.extend(b);

    assert_eq!(streamed.len(), batch.len());
    for i in 0..n {
        let dr = (streamed[i].0 - batch[i].0).abs();
        let di = (streamed[i].1 - batch[i].1).abs();
        assert!(
            dr < 1e-5 && di < 1e-5,
            "streaming vs batch mismatch at sample {i}: streamed=({:.6},{:.6}) batch=({:.6},{:.6})",
            streamed[i].0,
            streamed[i].1,
            batch[i].0,
            batch[i].1
        );
    }
}

#[test]
fn streaming_decimator_preserves_phase_across_odd_chunks() {
    let input: Vec<(f32, f32)> = (0..23).map(|i| (i as f32, 0.0)).collect();
    let batch = decimate_by_2(&input);

    let mut dec = StreamingDecimator2::new();
    let mut streamed: Vec<(f32, f32)> = Vec::new();
    streamed.extend(dec.process(&input[0..7]));
    streamed.extend(dec.process(&input[7..15]));
    streamed.extend(dec.process(&input[15..23]));

    assert_eq!(streamed, batch);
}

#[test]
fn empty_chunk_keeps_history_and_phase() {
    let mut dec = StreamingDecimator2::default();
    assert_eq!(dec.process(&[1, 2, 3]), vec![1, 3]);
    assert!(dec.process::<i32>(&[]).is_empty());
    assert_eq!(dec.process(&[4, 5]), vec![5]);

    let mut filter = StreamingFir::new(3, 0);
    assert_eq!(filter.process(&[7]), vec![0, 0, 7]);
    assert!(filter.process(&[]).is_empty());
    assert_eq!(filter.process(&[8, 9]), vec![0, 7, 8, 9]);
}

#[test]
fn taps_have_their_lengths_and_are_symmetric() {
    assert_eq!(LPF_TAPS_31250.len(), 83);
    assert_eq!(RRC_TAPS_31250.len(), 105);
    for i in 0..105 {
        assert!((tap(RRC_TAPS_31250[i]) - tap(RRC_TAPS_31250[104 - i])).abs() < 1e-6);
    }
}

#[test]
fn decimator_takes_chunks_of_any_length() {
    let input: Vec<u32> = (0..12).collect();
    let mut dec = StreamingDecimator2::new();
    let mut streamed: Vec<u32> = Vec::new();
    for (from, to) in [(0, 1), (1, 1), (1, 2), (2, 7), (7, 7), (7, 12)] {
        streamed.extend(dec.process(&input[from..to]));
    }
    assert_eq!(streamed, vec![0, 2, 4, 6, 8, 10]);
}

/// Filter a whole stream from silence, without a history.
fn batch_fir(taps: &[i64], input: &[(f32, f32)]) -> Vec<(f32, f32)> {
    (0..input.len())
        .map(|i| {
            let mut acc = (0.0_f32, 0.0_f32);
            for k in 0..(i + 1).min(taps.len()) {
                acc.0 += tap(taps[k]) * input[i - k].0;
                acc.1 += tap(taps[k]) * input[i - k].1;
            }
            acc
        })
        .collect()
}

/// A sweep from zero to half the sample rate.
fn frequency_sweep(n: usize, sample_rate_hz: f32) -> Vec<(f32, f32)> {
    let dt = 1.0 / sample_rate_hz;
    let total_t = n as f32 * dt;
    let f1 = sample_rate_hz / 2.0;
    let k = f1 / total_t;
    (0..n)
        .map(|i| {
            let t = i as f32 * dt;
            let phi = 2.0 * PI * (0.5 * k * t * t);
            (phi.cos(), phi.sin())
        })
        .collect()
}

#[test]
fn emit_decimator_62k5_to_31k25() {
    let input = frequency_sweep(4096, 62_500.0);
    let mut dec = StreamingDecimator2::new();
    let output = dec.process(&input);
    assert_eq!(output, decimate_by_2(&input));
    assert_eq!(output.len(), 2048);
}

#[test]
fn emit_lpf_31250() {
    let input = frequency_sweep(2048, POST_DECIMATION_RATE_HZ as f32);
    let mut filter = StreamingFir::new(LPF_TAPS_31250.len(), (0.0, 0.0));
    let output = fir(&mut filter, &LPF_TAPS_31250, &input);
    assert_eq!(output, batch_fir(&LPF_TAPS_31250, &input));
}

#[test]
fn emit_rrc_31250() {
    let input = frequency_sweep(2048, POST_DECIMATION_RATE_HZ as f32);
    let mut filter = StreamingFir::new(RRC_TAPS_31250.len(), (0.0, 0.0));
    let output = fir(&mut filter, &RRC_TAPS_31250, &input);
    assert_eq!(output, batch_fir(&RRC_TAPS_31250, &input));
}

#[test]
fn filter_takes_chunks_of_any_length() {
    let input: Vec<i32> = (1..=12).collect();
    let mut whole = StreamingFir::new(4, 0);
    let stream = whole.process(&input);
    let mut filter = StreamingFir::new(4, 0);
    let mut place = 0;
    for (from, to) in [(0, 1), (1, 1), (1, 2), (2, 9), (9, 9), (9, 12)] {
        let extended = filter.process(&input[from..to]);
        assert_eq!(extended.is_empty(), from == to);
        for i in 0..to - from {
            assert_eq!(extended[i..i + 4], stream[place..place + 4]);
            place += 1;
        }
    }
    assert_eq!(place, 12);
    assert_eq!(filter.process(&[0])[..3], [10, 11, 12]);
}
