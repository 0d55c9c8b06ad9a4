use std::f32::consts::PI;

use p25_httpd::lsm::demod::float_rank;
use p25_httpd::lsm::nid_fec::encode_nid;
use p25_httpd::lsm::sync::{
    build_sync_pattern_symbols, extract_nid_skipping_status, find_sync_events_hard,
    find_sync_events_soft, FRAME_SYNC_DIBITS, FRAME_SYNC_DIBIT_PATTERN, NID_STATUS_DIBIT_INDEX,
    NID_TRANSMITTED_DIBITS, SYNC_SCORE_THRESHOLD,
};

fn sync_dibits() -> Vec<u8> {
    let mut dibits: Vec<u8> = Vec::new();
    for x in 0..FRAME_SYNC_DIBITS {
        let shift = (FRAME_SYNC_DIBITS - 1 - x) * 2;
        dibits.push(((FRAME_SYNC_DIBIT_PATTERN >> shift) & 0x3) as u8);
    }
    dibits
}

fn push_nid(dibits: &mut Vec<u8>, nid: u64, status: u8) {
    let mut payload: [u8; 32] = [0; 32];
    for (j, p) in payload.iter_mut().enumerate() {
        *p = ((nid >> ((31 - j) * 2)) & 0x3) as u8;
    }
    for j in 0..NID_TRANSMITTED_DIBITS {
        if j == NID_STATUS_DIBIT_INDEX {
            dibits.push(status);
        } else {
            let at = if j < NID_STATUS_DIBIT_INDEX { j } else { j - 1 };
            dibits.push(payload[at]);
        }
    }
}

/// The correlation of phases with the sync pattern, at every position.
fn scores(phases: &[f32]) -> Vec<f32> {
    let pattern: Vec<f32> = build_sync_pattern_symbols()
        .iter()
        .map(|&s| s as f32 * PI / 4.0)
        .collect();
    let mut out = Vec::new();
    for k in 0..phases.len() - FRAME_SYNC_DIBITS + 1 {
        let mut s = 0.0_f32;
        for x in 0..FRAME_SYNC_DIBITS {
            s += pattern[x] * phases[k + x];
        }
        out.push(s);
    }
    out
}

fn ranks(values: &[f32]) -> Vec<Option<i32>> {
    values.iter().map(|v| float_rank(v.to_bits())).collect()
}

#[test]
fn hard_detector_finds_clean_sync_and_decodes_nid() {
    let mut dibits = sync_dibits();
    let nid = encode_nid(0x8A1, 7);
    push_nid(&mut dibits, nid, 0);

    let events = find_sync_events_hard(&dibits);
    assert_eq!(events.len(), 1, "expected exactly one sync hit");
    let e = events[0];
    assert_eq!(e.distance, 0);
    assert_eq!(e.nid_raw, nid);
    assert_eq!(e.nac, 0x8A1);
    assert_eq!(e.duid, 7);
    let fec = e.fec.expect("clean NID must decode");
    assert_eq!(fec.nac, 0x8A1);
    assert_eq!(fec.duid, 7);
    assert_eq!(fec.n_errors, 0);
}

#[test]
fn hard_detector_tolerates_one_dibit_error_in_sync() {
    let mut dibits = sync_dibits();
    dibits[1] ^= 0b10;
    for _ in 0..NID_TRANSMITTED_DIBITS {
        dibits.push(0);
    }
    let events = find_sync_events_hard(&dibits);
    assert_eq!(events.len(), 1, "expected one sync hit despite 1-bit error");
    assert!(events[0].distance >= 1 && events[0].distance <= 2);
}

#[test]
fn soft_detector_finds_clean_sync() {
    let pattern: Vec<f32> = build_sync_pattern_symbols()
        .iter()
        .map(|&s| s as f32 * PI / 4.0)
        .collect();
    let mut soft_phases: Vec<f32> = pattern
        .iter()
        .copied()
        .chain(std::iter::repeat(0.0).take(NID_TRANSMITTED_DIBITS))
        .collect();
    soft_phases.extend(std::iter::repeat(0.0).take(8));

    let mut hard_dibits = sync_dibits();
    let nid = encode_nid(1, 0);
    push_nid(&mut hard_dibits, nid, 0);
    while hard_dibits.len() < soft_phases.len() {
        hard_dibits.push(0);
    }

    let scores = scores(&soft_phases);
    let events = find_sync_events_soft(&ranks(&scores), &hard_dibits);
    assert_eq!(events.len(), 1, "expected one soft sync hit");
    let e = events[0];
    let score = scores[e.symbol_idx - FRAME_SYNC_DIBITS];
    assert!(score > 130.0, "expected near-max correlation score, got {}", score);
    assert_eq!(e.nac, 1);
    assert_eq!(e.duid, 0);
    let fec = e.fec.expect("clean NID must decode");
    assert_eq!(fec.nac, 1);
    assert_eq!(fec.duid, 0);
    assert_eq!(fec.n_errors, 0);
}

#[test]
fn status_dibit_is_skipped() {
    let nid = encode_nid(0x8A1, 7);
    let make_stream = |status: u8| -> Vec<u8> {
        let mut d = Vec::new();
        push_nid(&mut d, nid, status);
        d
    };
    let a = extract_nid_skipping_status(&make_stream(0), 0).unwrap();
    let b = extract_nid_skipping_status(&make_stream(3), 0).unwrap();
    assert_eq!(a, b);
    assert_eq!(a.0, 0x8A1);
    assert_eq!(a.1, 7);
    assert_eq!(a.2, nid);
}

#[test]
fn nid_needs_all_its_dibits() {
    let mut d = Vec::new();
    push_nid(&mut d, encode_nid(1, 0), 0);
    assert!(extract_nid_skipping_status(&d, 1).is_none());
    d.pop();
    assert!(extract_nid_skipping_status(&d, 0).is_none());
}

#[test]
fn sync_cut_off_ends_the_search() {
    let mut dibits = sync_dibits();
    assert!(find_sync_events_hard(&dibits).is_empty());
    dibits.truncate(23);
    assert!(find_sync_events_hard(&dibits).is_empty());
}

#[test]
fn sync_inside_the_nid_is_passed_over() {
    // The NID window of the first frame holds a second sync pattern.
    let mut dibits = sync_dibits();
    dibits.extend(sync_dibits());
    dibits.extend(std::iter::repeat(0).take(60));
    let events = find_sync_events_hard(&dibits);
    assert_eq!(events.len(), 1);
    assert_eq!(events[0].symbol_idx, 24);
}

#[test]
fn too_many_sync_errors_are_refused() {
    let mut dibits = sync_dibits();
    for d in dibits.iter_mut().take(5) {
        *d ^= 0b10;
    }
    push_nid(&mut dibits, encode_nid(1, 0), 0);
    assert!(find_sync_events_hard(&dibits).is_empty());
    dibits[0] ^= 0b10;
    let events = find_sync_events_hard(&dibits);
    assert_eq!(events.len(), 1);
    assert_eq!(events[0].distance, 4);
}

#[test]
fn corrected_fields_come_first() {
    let mut dibits = sync_dibits();
    let nid = encode_nid(0x8A1, 7);
    push_nid(&mut dibits, nid ^ (1 << 63), 2);
    let e = find_sync_events_hard(&dibits)[0];
    assert_eq!(e.nac, 0x0A1);
    assert_eq!(e.best_nac(), 0x8A1);
    assert_eq!(e.best_duid(), 7);
    assert_eq!(e.fec.unwrap().n_errors, 1);
}

#[test]
fn sync_symbols_are_outer_ones() {
    let symbols = build_sync_pattern_symbols();
    assert_eq!(symbols.len(), 24);
    assert_eq!(&symbols[..8], &[3, 3, 3, 3, 3, -3, 3, 3]);
    assert!(symbols.iter().all(|&s| s == 3 || s == -3));
}

#[test]
fn score_threshold_is_sixty() {
    assert_eq!(float_rank(60.0_f32.to_bits()), Some(SYNC_SCORE_THRESHOLD));
}

#[test]
fn soft_detector_takes_local_maxima_only() {
    let mut hard = vec![0u8; 120];
    let mut values = vec![0.0_f32; 60];
    values[3] = 70.0;
    values[4] = 90.0;
    values[5] = 80.0;
    let events = find_sync_events_soft(&ranks(&values), &hard);
    assert_eq!(events.len(), 1);
    assert_eq!(events[0].symbol_idx, 4 + 24);
    assert_eq!(events[0].distance, -1);
    // A score of exactly the threshold does not count.
    let mut flat = vec![0.0_f32; 60];
    flat[10] = 60.0;
    assert!(find_sync_events_soft(&ranks(&flat), &hard).is_empty());
    // Without the dibits of the NID the search ends.
    hard.truncate(30);
    assert!(find_sync_events_soft(&ranks(&values), &hard).is_empty());
}
