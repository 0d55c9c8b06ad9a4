use p25_httpd::lsm::nid_fec::{
    codebook, count_ones, decode_nid, decode_with_codebook, encode_nid, CODE_BITS, N_CODEWORDS,
};

/// Xorshift generator, so that the error patterns are the same on every run.
struct XorShift64(u64);

impl XorShift64 {
    fn new(seed: u64) -> Self {
        XorShift64(if seed == 0 { 1 } else { seed })
    }

    fn next_u64(&mut self) -> u64 {
        let mut x = self.0;
        x ^= x << 13;
        x ^= x >> 7;
        x ^= x << 17;
        self.0 = x;
        x
    }

    fn next_u32(&mut self) -> u32 {
        self.next_u64() as u32
    }
}

#[test]
fn encoder_matches_sdrtrunk_vector() {
    let cw = encode_nid(1, 0);
    assert_eq!(cw, 0x0010_3185_B7E9_E224);
}

#[test]
fn encode_decode_roundtrip_clean() {
    let pairs: &[(u16, u8)] = &[
        (0x000, 0),
        (0x001, 0),
        (0x8A1, 7),
        (0xFFF, 0xF),
        (0x534, 2),
        (0x123, 5),
    ];
    for &(nac, duid) in pairs {
        let cw = encode_nid(nac, duid);
        let decoded = decode_nid(cw).expect("clean codeword must decode");
        assert_eq!(decoded.nac, nac);
        assert_eq!(decoded.duid, duid);
        assert_eq!(decoded.n_errors, 0);
    }
}

#[test]
fn error_correction_sweep_up_to_t11() {
    let base = encode_nid(0x8A1, 7);
    let mut rng = XorShift64::new(0xDEAD_BEEF_CAFE_BABE);
    const TRIALS_PER_LEVEL: usize = 50;
    for n_errors in 1..=11u32 {
        for _ in 0..TRIALS_PER_LEVEL {
            let mut positions: [u8; 11] = [0xFF; 11];
            let mut filled = 0;
            while filled < n_errors as usize {
                let p = (rng.next_u32() % 63) as u8;
                if !positions[..filled].contains(&p) {
                    positions[filled] = p;
                    filled += 1;
                }
            }
            let mut corrupted = base;
            for &p in &positions[..filled] {
                corrupted ^= 1u64 << (CODE_BITS - 1 - p as u32);
            }
            let decoded = decode_nid(corrupted).expect("within sphere -> must decode");
            assert_eq!(decoded.nac, 0x8A1);
            assert_eq!(decoded.duid, 7);
            assert_eq!(decoded.n_errors as u32, n_errors);
        }
    }
}

#[test]
fn errors_beyond_sphere_dont_silently_corrupt() {
    let base = encode_nid(0x8A1, 7);
    let mut rng = XorShift64::new(0xC0FFEE);
    let mut wrong_or_uncorrectable = 0;
    const TRIALS: usize = 100;
    for _ in 0..TRIALS {
        let mut positions: [u8; 12] = [0xFF; 12];
        let mut filled = 0;
        while filled < 12 {
            let p = (rng.next_u32() % 63) as u8;
            if !positions[..filled].contains(&p) {
                positions[filled] = p;
                filled += 1;
            }
        }
        let mut corrupted = base;
        for &p in &positions[..filled] {
            corrupted ^= 1u64 << (CODE_BITS - 1 - p as u32);
        }
        match decode_nid(corrupted) {
            None => wrong_or_uncorrectable += 1,
            Some(d) if (d.nac, d.duid) != (0x8A1, 7) => wrong_or_uncorrectable += 1,
            Some(_) => {}
        }
    }
    assert!(
        wrong_or_uncorrectable > TRIALS / 4,
        "12-error words should mostly leave the sphere; only {wrong_or_uncorrectable}/{TRIALS} did"
    );
}

#[test]
fn code_words_are_far_apart() {
    let words = codebook();
    assert_eq!(words.len(), N_CODEWORDS);
    assert_eq!(words[0x8A17], encode_nid(0x8A1, 7));
    let base = words[0x8A17];
    for (i, w) in words.iter().enumerate() {
        if i != 0x8A17 {
            assert!(count_ones(w ^ base) >= 23);
        }
    }
}

#[test]
fn code_is_linear_on_samples() {
    let words = codebook();
    for (a, b) in [(0x1234usize, 0x0F0Fusize), (0xFFFF, 0x8001), (7, 0x8A10)] {
        assert_eq!(words[a] ^ words[b], words[a ^ b]);
    }
}

#[test]
fn one_codebook_serves_many_words() {
    let words = codebook();
    let received = encode_nid(0x2F0, 10) ^ 0x8000_0000_0000_0001;
    let nid = decode_with_codebook(&words, received).unwrap();
    assert_eq!((nid.nac, nid.duid, nid.n_errors), (0x2F0, 10, 2));
}

#[test]
fn ones_are_counted() {
    assert_eq!(count_ones(0), 0);
    assert_eq!(count_ones(u64::MAX), 64);
    assert_eq!(count_ones(0x8000_0000_0000_0001), 2);
    assert_eq!(count_ones(0x0123_4567_89AB_CDEF), 32);
}
