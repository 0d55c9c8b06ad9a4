//! BCH(63,16,23) forward error correction of the P25 network identifier.
//!
//! A network identifier (NID) is a 64-bit word:
//!
//! ```text
//! bit  0..11 : NAC  (12 bits, most significant bit first)
//! bit 12..15 : DUID (4 bits)
//! bit 16..63 : 48 parity bits
//! ```
//!
//! Two distinct code words differ in at least 23 bits, so a received word with
//! at most 11 bit errors has exactly one nearest code word. Decoding is by
//! maximum likelihood over all 65536 code words.

use vstd::prelude::*;

verus! {

/// Sixteen rows of the systematic generator matrix, one per data bit, most
/// significant data bit first. Each row is the 48-bit parity of that bit.
pub const P25_NID_GENERATOR_MATRIX: [u64; 16] = [
    0o6331141367235452,
    0o5265521614723276,
    0o4603711461164164,
    0o2301744630472072,
    0o7271623073000466,
    0o5605650752635660,
    0o2702724365316730,
    0o1341352172547354,
    0o0560565075263566,
    0o6141333751704220,
    0o3060555764742110,
    0o1430266772361044,
    0o0614133375170422,
    0o6037114611641642,
    0o5326507063515373,
    0o4662302756473127,
];

/// Bits in the full code word.
pub const CODE_BITS: u32 = 64;

/// Most bit errors that the code corrects.
pub const T_MAX_ERRORS: u32 = 11;

/// Number of code words.
pub const N_CODEWORDS: usize = 65536;

/// XOR of the generator rows that `data` selects among the first `k`.
pub open spec fn parity_of_rows(data: u64, k: nat) -> u64
    decreases k,
{
    if k == 0 {
        0
    } else {
        parity_of_rows(data, (k - 1) as nat) ^ (if data & (1u64 << ((16 - k) as u64)) != 0 {
            P25_NID_GENERATOR_MATRIX[k - 1]
        } else {
            0
        })
    }
}

/// The code word of a 16-bit data word: the data in the top 16 bits, its
/// parity in the low 48.
pub open spec fn codeword(data: u64) -> u64 {
    (data << 48) | parity_of_rows(data, 16)
}

/// The data word of a NAC and a DUID.
pub open spec fn data_word(nac: u16, duid: u8) -> u64 {
    ((nac as u64) << 4) | (duid as u64)
}

/// Number of one bits of `x` at positions `k` and above.
pub open spec fn ones_from(x: u64, k: nat) -> nat
    decreases 64 - k,
{
    if k >= 64 {
        0
    } else {
        ((x >> (k as u64)) & 1) as nat + ones_from(x, k + 1)
    }
}

/// Number of bits in which `a` and `b` differ.
pub open spec fn hamming(a: u64, b: u64) -> nat {
    ones_from(a ^ b, 0)
}

/// Whether `data` is the first of the data words whose code words are nearest
/// to `received`.
pub open spec fn is_nearest(received: u64, data: u64) -> bool {
    &&& data < 0x10000
    &&& forall|e: u64|
        #![trigger codeword(e)]
        e < 0x10000 ==> {
            &&& hamming(codeword(data), received) <= hamming(codeword(e), received)
            &&& e < data ==> hamming(codeword(data), received) < hamming(codeword(e), received)
        }
}

/// The first of the data words whose code words are nearest to `received`.
pub open spec fn nearest(received: u64) -> u64 {
    choose|data: u64| is_nearest(received, data)
}

/// What a received word decodes to: the nearest code word's fields, or nothing
/// when even that one is more than eleven bits away.
pub open spec fn decoded(received: u64) -> Option<DecodedNid> {
    let data = nearest(received);
    let errors = hamming(codeword(data), received);
    if errors <= T_MAX_ERRORS {
        Some(
            DecodedNid { nac: (data / 16) as u16, duid: (data % 16) as u8, n_errors: errors as u8 },
        )
    } else {
        None
    }
}

/// Result of a successful NID decode.
#[derive(Debug, Clone, Copy, PartialEq, Eq, Structural)]
pub struct DecodedNid {
    pub nac: u16,
    pub duid: u8,
    /// Number of bit errors corrected.
    pub n_errors: u8,
}

// ---------------------------------------------------------------------------
// Counting bits
// ---------------------------------------------------------------------------

/// The number of one bits, summed pairwise over lanes of doubling width.
spec fn weight(x: u64) -> u64 {
    let a = ((x & 0x5555555555555555) + ((x >> 1) & 0x5555555555555555)) as u64;
    let b = ((a & 0x3333333333333333) + ((a >> 2) & 0x3333333333333333)) as u64;
    let c = ((b & 0x0f0f0f0f0f0f0f0f) + ((b >> 4) & 0x0f0f0f0f0f0f0f0f)) as u64;
    let d = ((c & 0x00ff00ff00ff00ff) + ((c >> 8) & 0x00ff00ff00ff00ff)) as u64;
    let e = ((d & 0x0000ffff0000ffff) + ((d >> 16) & 0x0000ffff0000ffff)) as u64;
    ((e & 0xffffffff) + ((e >> 32) & 0xffffffff)) as u64
}

/// Eight consecutive bits of `x` starting at bit `k`, added up.
spec fn octet(x: u64, k: u64) -> u64 {
    ((((x >> k) & 1) + ((x >> (k + 1) as u64) & 1)) + (((x >> (k + 2) as u64) & 1) + ((x >> (k
        + 3) as u64) & 1)) + ((((x >> (k + 4) as u64) & 1) + ((x >> (k + 5) as u64) & 1)) + (((x
        >> (k + 6) as u64) & 1) + ((x >> (k + 7) as u64) & 1)))) as u64
}

proof fn lemma_ones_octet(x: u64, k: nat)
    requires
        k + 8 <= 64,
    ensures
        ones_from(x, k) == octet(x, k as u64) + ones_from(x, k + 8),
{
    reveal_with_fuel(ones_from, 9);
    assert(forall|j: u64| #![auto] (x >> j) & 1 <= 1) by (bit_vector);
}

proof fn lemma_ones_is_weight(x: u64)
    ensures
        ones_from(x, 0) == weight(x),
{
    lemma_ones_octet(x, 0);
    lemma_ones_octet(x, 8);
    lemma_ones_octet(x, 16);
    lemma_ones_octet(x, 24);
    lemma_ones_octet(x, 32);
    lemma_ones_octet(x, 40);
    lemma_ones_octet(x, 48);
    lemma_ones_octet(x, 56);
    assert(ones_from(x, 64) == 0);
    assert(weight(x) == octet(x, 0) + octet(x, 8) + octet(x, 16) + octet(x, 24) + octet(x, 32)
        + octet(x, 40) + octet(x, 48) + octet(x, 56)) by (bit_vector);
}

/// Masking keeps a value within the mask.
pub proof fn lemma_masked(x: u64, mask: u64)
    ensures
        x & mask <= mask,
{
    assert(x & mask <= mask) by (bit_vector);
}

/// The number of one bits of `x`.
pub fn count_ones(x: u64) -> (n: u32)
    ensures
        n == ones_from(x, 0),
        n <= 64,
{
    proof {
        lemma_masked(x, 0x5555555555555555);
        lemma_masked(x >> 1, 0x5555555555555555);
    }
    let a: u64 = (x & 0x5555555555555555) + ((x >> 1) & 0x5555555555555555);
    proof {
        lemma_masked(a, 0x3333333333333333);
        lemma_masked(a >> 2, 0x3333333333333333);
    }
    let b: u64 = (a & 0x3333333333333333) + ((a >> 2) & 0x3333333333333333);
    proof {
        lemma_masked(b, 0x0f0f0f0f0f0f0f0f);
        lemma_masked(b >> 4, 0x0f0f0f0f0f0f0f0f);
    }
    let c: u64 = (b & 0x0f0f0f0f0f0f0f0f) + ((b >> 4) & 0x0f0f0f0f0f0f0f0f);
    proof {
        lemma_masked(c, 0x00ff00ff00ff00ff);
        lemma_masked(c >> 8, 0x00ff00ff00ff00ff);
    }
    let d: u64 = (c & 0x00ff00ff00ff00ff) + ((c >> 8) & 0x00ff00ff00ff00ff);
    proof {
        lemma_masked(d, 0x0000ffff0000ffff);
        lemma_masked(d >> 16, 0x0000ffff0000ffff);
    }
    let e: u64 = (d & 0x0000ffff0000ffff) + ((d >> 16) & 0x0000ffff0000ffff);
    proof {
        lemma_masked(e, 0xffffffff);
        lemma_masked(e >> 32, 0xffffffff);
    }
    let f: u64 = (e & 0xffffffff) + ((e >> 32) & 0xffffffff);
    proof {
        lemma_ones_is_weight(x);
        assert(weight(x) <= 64) by (bit_vector);
    }
    f as u32
}

/// Differences add up at most: the triangle inequality, bit by bit.
proof fn lemma_ones_of_xor(a: u64, b: u64, k: nat)
    ensures
        ones_from(a ^ b, k) <= ones_from(a, k) + ones_from(b, k),
    decreases 64 - k,
{
    if k < 64 {
        let j = k as u64;
        assert(((a ^ b) >> j) & 1 <= ((a >> j) & 1) + ((b >> j) & 1)) by (bit_vector);
        lemma_ones_of_xor(a, b, k + 1);
    }
}

/// The Hamming distance is a metric: symmetric, and no shorter by a detour.
pub proof fn hamming_is_a_metric(a: u64, b: u64, c: u64)
    ensures
        hamming(a, b) == hamming(b, a),
        hamming(a, c) <= hamming(a, b) + hamming(b, c),
        hamming(a, b) == 0 <==> a == b,
{
    assert(a ^ b == b ^ a && a ^ c == (a ^ b) ^ (b ^ c)) by (bit_vector);
    lemma_ones_of_xor(a ^ b, b ^ c, 0);
    lemma_ones_is_weight(a ^ b);
    assert(weight(a ^ b) == 0 <==> a == b) by (bit_vector);
}

// ---------------------------------------------------------------------------
// The code
// ---------------------------------------------------------------------------

spec fn row(data: u64, bit: u64, parity: u64) -> u64 {
    if data & bit != 0 {
        parity
    } else {
        0
    }
}

/// `codeword` with the sixteen rows written out.
spec fn spread(d: u64) -> u64 {
    (d << 48) ^ row(d, 0x8000, 0xcd930bdd3b2a) ^ row(d, 0x4000, 0xab5a8e33a6be)
        ^ row(d, 0x2000, 0x983e4cc4e874) ^ row(d, 0x1000, 0x4c1f2662743a)
        ^ row(d, 0x800, 0xeb9c98ec0136) ^ row(d, 0x400, 0xb85d47ab3bb0)
        ^ row(d, 0x200, 0x5c2ea3d59dd8) ^ row(d, 0x100, 0x2e1751eaceec)
        ^ row(d, 0x80, 0x170ba8f56776) ^ row(d, 0x40, 0xc616dfa78890)
        ^ row(d, 0x20, 0x630b6fd3c448) ^ row(d, 0x10, 0x3185b7e9e224)
        ^ row(d, 0x8, 0x18c2dbf4f112) ^ row(d, 0x4, 0xc1f2662743a2)
        ^ row(d, 0x2, 0xad6a38ce9afb) ^ row(d, 0x1, 0x9b2617ba7657)
}

proof fn lemma_codeword_spread(d: u64)
    requires
        d < 0x10000,
    ensures
        codeword(d) == spread(d),
        codeword(d) == (d << 48) ^ parity_of_rows(d, 16),
{
    reveal_with_fuel(parity_of_rows, 17);
    let p = parity_of_rows(d, 16);
    assert(1u64 << 15 == 0x8000 && 1u64 << 14 == 0x4000 && 1u64 << 13 == 0x2000 && 1u64 << 12
        == 0x1000 && 1u64 << 11 == 0x800 && 1u64 << 10 == 0x400 && 1u64 << 9 == 0x200 && 1u64 << 8
        == 0x100 && 1u64 << 7 == 0x80 && 1u64 << 6 == 0x40 && 1u64 << 5 == 0x20 && 1u64 << 4
        == 0x10 && 1u64 << 3 == 0x8 && 1u64 << 2 == 0x4 && 1u64 << 1 == 0x2 && 1u64 << 0 == 0x1)
        by (bit_vector);
    let z = 0u64;
    assert(p == z ^ row(d, 0x8000, 0xcd930bdd3b2a) ^ row(d, 0x4000, 0xab5a8e33a6be)
        ^ row(d, 0x2000, 0x983e4cc4e874) ^ row(d, 0x1000, 0x4c1f2662743a)
        ^ row(d, 0x800, 0xeb9c98ec0136) ^ row(d, 0x400, 0xb85d47ab3bb0)
        ^ row(d, 0x200, 0x5c2ea3d59dd8) ^ row(d, 0x100, 0x2e1751eaceec)
        ^ row(d, 0x80, 0x170ba8f56776) ^ row(d, 0x40, 0xc616dfa78890)
        ^ row(d, 0x20, 0x630b6fd3c448) ^ row(d, 0x10, 0x3185b7e9e224)
        ^ row(d, 0x8, 0x18c2dbf4f112) ^ row(d, 0x4, 0xc1f2662743a2)
        ^ row(d, 0x2, 0xad6a38ce9afb) ^ row(d, 0x1, 0x9b2617ba7657));
    assert((d << 48) | p == spread(d) && (d << 48) | p == (d << 48) ^ p) by (bit_vector)
        requires
            p == z ^ row(d, 0x8000, 0xcd930bdd3b2a) ^ row(d, 0x4000, 0xab5a8e33a6be)
                ^ row(d, 0x2000, 0x983e4cc4e874) ^ row(d, 0x1000, 0x4c1f2662743a)
                ^ row(d, 0x800, 0xeb9c98ec0136) ^ row(d, 0x400, 0xb85d47ab3bb0)
                ^ row(d, 0x200, 0x5c2ea3d59dd8) ^ row(d, 0x100, 0x2e1751eaceec)
                ^ row(d, 0x80, 0x170ba8f56776) ^ row(d, 0x40, 0xc616dfa78890)
                ^ row(d, 0x20, 0x630b6fd3c448) ^ row(d, 0x10, 0x3185b7e9e224)
                ^ row(d, 0x8, 0x18c2dbf4f112) ^ row(d, 0x4, 0xc1f2662743a2)
                ^ row(d, 0x2, 0xad6a38ce9afb) ^ row(d, 0x1, 0x9b2617ba7657),
            z == 0,
    ;
}

proof fn lemma_parity_is_linear(a: u64, b: u64, k: nat)
    requires
        k <= 16,
    ensures
        parity_of_rows(a, k) ^ parity_of_rows(b, k) == parity_of_rows(a ^ b, k),
    decreases k,
{
    if k == 0 {
        assert(0u64 ^ 0u64 == 0u64) by (bit_vector);
    } else {
        lemma_parity_is_linear(a, b, (k - 1) as nat);
        let p = parity_of_rows(a, (k - 1) as nat);
        let q = parity_of_rows(b, (k - 1) as nat);
        let j = (16 - k) as u64;
        let r = P25_NID_GENERATOR_MATRIX[k - 1];
        assert((p ^ row(a, 1u64 << j, r)) ^ (q ^ row(b, 1u64 << j, r)) == (p ^ q) ^ row(
            a ^ b,
            1u64 << j,
            r,
        )) by (bit_vector)
            requires
                j < 16,
        ;
    }
}

/// The code is linear: the XOR of two code words is the code word of the XOR
/// of their data words.
pub proof fn code_is_linear(a: u64, b: u64)
    requires
        a < 0x10000,
        b < 0x10000,
    ensures
        a ^ b < 0x10000,
        codeword(a) ^ codeword(b) == codeword(a ^ b),
{
    let p = parity_of_rows(a, 16);
    let q = parity_of_rows(b, 16);
    assert(a ^ b < 0x10000 && ((a << 48) ^ p) ^ ((b << 48) ^ q) == ((a ^ b) << 48) ^ (p ^ q))
        by (bit_vector)
        requires
            a < 0x10000,
            b < 0x10000,
    ;
    lemma_parity_is_linear(a, b, 16);
    lemma_codeword_spread(a);
    lemma_codeword_spread(b);
    lemma_codeword_spread(a ^ b);
}

#[verifier::rlimit(100)]
proof fn lemma_weight_at_least_23(d: u64)
    requires
        0 < d < 0x10000,
    ensures
        weight(spread(d)) >= 23,
{
    assert(weight(spread(d)) >= 23) by (bit_vector)
        requires
            0 < d < 0x10000,
    ;
}

/// Distinct code words differ in at least 23 bits.
pub proof fn code_has_minimum_distance_23(a: u64, b: u64)
    requires
        a < 0x10000,
        b < 0x10000,
        a != b,
    ensures
        hamming(codeword(a), codeword(b)) >= 23,
{
    code_is_linear(a, b);
    assert(a ^ b != 0) by (bit_vector)
        requires
            a != b,
    ;
    lemma_weight_at_least_23(a ^ b);
    lemma_codeword_spread(a ^ b);
    lemma_ones_is_weight(codeword(a ^ b));
}

proof fn lemma_data_word(nac: u16, duid: u8)
    requires
        nac < 4096,
        duid < 16,
    ensures
        data_word(nac, duid) == nac * 16 + duid,
        data_word(nac, duid) == data_word(nac, 0) ^ data_word(0, duid),
{
    assert(((nac as u64) << 4) | (duid as u64) == (nac as u64) * 16 + (duid as u64) && ((nac
        as u64) << 4) | (duid as u64) == (((nac as u64) << 4) | 0u64) ^ ((0u64 << 4) | (
    duid as u64))) by (bit_vector)
        requires
            nac < 4096,
            duid < 16,
    ;
}

/// Encode a NAC and a DUID into their 64-bit code word.
pub fn encode_nid(nac: u16, duid: u8) -> (word: u64)
    requires
        nac < 4096,
        duid < 16,
    ensures
        word == codeword(data_word(nac, duid)),
{
    let data: u64 = ((nac as u64) << 4) | (duid as u64);
    let mut parity: u64 = 0;
    let mut bit_idx: usize = 0;
    while bit_idx < 16
        invariant
            bit_idx <= 16,
            parity == parity_of_rows(data, bit_idx as nat),
        decreases 16 - bit_idx,
    {
        let ghost before = parity;
        if data & (1u64 << ((15 - bit_idx) as u64)) != 0 {
            parity = parity ^ P25_NID_GENERATOR_MATRIX[bit_idx];
        }
        proof {
            assert(before ^ 0 == before) by (bit_vector);
        }
        bit_idx = bit_idx + 1;
    }
    (data << 48) | parity
}

/// All code words, indexed by data word.
pub fn codebook() -> (words: Vec<u64>)
    ensures
        words@ == Seq::new(65536, |data: int| codeword(data as u64)),
{
    let mut low: Vec<u64> = Vec::new();
    let mut duid: u8 = 0;
    while duid < 16
        invariant
            duid <= 16,
            low.len() == duid,
            forall|i: int| 0 <= i < duid ==> low[i] == codeword(data_word(0, i as u8)),
        decreases 16 - duid,
    {
        low.push(encode_nid(0, duid));
        duid = duid + 1;
    }
    let mut words: Vec<u64> = Vec::new();
    let mut nac: u16 = 0;
    while nac < 4096
        invariant
            nac <= 4096,
            low.len() == 16,
            forall|i: int| 0 <= i < 16 ==> low[i] == codeword(data_word(0, i as u8)),
            words.len() == nac * 16,
            forall|i: int| 0 <= i < words.len() ==> words[i] == codeword(i as u64),
        decreases 4096 - nac,
    {
        let high: u64 = encode_nid(nac, 0);
        let mut d: u8 = 0;
        while d < 16
            invariant
                d <= 16,
                nac < 4096,
                high == codeword(data_word(nac, 0)),
                low.len() == 16,
                forall|i: int| 0 <= i < 16 ==> low[i] == codeword(data_word(0, i as u8)),
                words.len() == nac * 16 + d,
                forall|i: int| 0 <= i < words.len() ==> words[i] == codeword(i as u64),
            decreases 16 - d,
        {
            proof {
                lemma_data_word(nac, d);
                lemma_data_word(nac, 0);
                lemma_data_word(0, d);
                code_is_linear(data_word(nac, 0), data_word(0, d));
            }
            words.push(high ^ low[d as usize]);
            d = d + 1;
        }
        nac = nac + 1;
    }
    words
}

/// Decode a received word against the code book. The first of the nearest
/// code words wins; `None` when that one is more than eleven bits away.
pub fn decode_with_codebook(words: &[u64], received: u64) -> (nid: Option<DecodedNid>)
    requires
        words@ == Seq::new(65536, |data: int| codeword(data as u64)),
    ensures
        nid == decoded(received),
{
    let mut best: usize = 0;
    let mut best_distance: u32 = count_ones(words[0] ^ received);
    let mut i: usize = 1;
    while i < 65536 && best_distance > 0
        invariant
            words@ == Seq::new(65536, |data: int| codeword(data as u64)),
            best < i <= 65536,
            best_distance == hamming(codeword(best as u64), received),
            best_distance <= 64,
            forall|e: u64|
                #![trigger codeword(e)]
                e < i ==> {
                    &&& best_distance <= hamming(codeword(e), received)
                    &&& e < best ==> best_distance < hamming(codeword(e), received)
                },
        decreases 65536 - i,
    {
        let distance: u32 = count_ones(words[i] ^ received);
        if distance < best_distance {
            best_distance = distance;
            best = i;
        }
        i = i + 1;
    }
    proof {
        assert(is_nearest(received, best as u64));
        lemma_nearest_is_unique(received, best as u64);
    }
    if best_distance > T_MAX_ERRORS {
        return None;
    }
    Some(
        DecodedNid {
            nac: (best / 16) as u16,
            duid: (best % 16) as u8,
            n_errors: best_distance as u8,
        },
    )
}

/// Decode a received 64-bit NID by maximum likelihood.
pub fn decode_nid(received_nid: u64) -> (nid: Option<DecodedNid>)
    ensures
        nid == decoded(received_nid),
{
    let words: Vec<u64> = codebook();
    decode_with_codebook(words.as_slice(), received_nid)
}

proof fn lemma_nearest_is_unique(received: u64, data: u64)
    requires
        is_nearest(received, data),
    ensures
        nearest(received) == data,
{
    let other = nearest(received);
    assert(is_nearest(received, other));
    assert(codeword(other) == codeword(other) && codeword(data) == codeword(data));
}

/// Every word within eleven bit errors of a code word decodes to that code
/// word's fields, with the number of errors counted exactly.
pub proof fn nid_corrects_up_to_eleven_errors(nac: u16, duid: u8, received: u64)
    requires
        nac < 4096,
        duid < 16,
        hamming(codeword(data_word(nac, duid)), received) <= 11,
    ensures
        decoded(received) == Some(
            DecodedNid {
                nac,
                duid,
                n_errors: hamming(codeword(data_word(nac, duid)), received) as u8,
            },
        ),
{
    lemma_data_word(nac, duid);
    let data = data_word(nac, duid);
    assert forall|e: u64| #![trigger codeword(e)] e < 0x10000 && e != data implies hamming(
        codeword(data),
        received,
    ) < hamming(codeword(e), received) by {
        code_has_minimum_distance_23(data, e);
        hamming_is_a_metric(codeword(data), received, codeword(e));
        hamming_is_a_metric(codeword(e), received, codeword(data));
    }
    assert(is_nearest(received, data));
    lemma_nearest_is_unique(received, data);
}

/// Encoding then decoding gives the fields back, with no error counted.
pub proof fn nid_round_trip(nac: u16, duid: u8)
    requires
        nac < 4096,
        duid < 16,
    ensures
        decoded(codeword(data_word(nac, duid))) == Some(DecodedNid { nac, duid, n_errors: 0 }),
{
    let word = codeword(data_word(nac, duid));
    hamming_is_a_metric(word, word, word);
    nid_corrects_up_to_eleven_errors(nac, duid, word);
}

/// The data word of least distance to `received` among the first `n`.
proof fn lemma_nearest_among(received: u64, n: u64) -> (best: u64)
    requires
        0 < n <= 0x10000,
    ensures
        best < n,
        forall|e: u64|
            #![trigger codeword(e)]
            e < n ==> {
                &&& hamming(codeword(best), received) <= hamming(codeword(e), received)
                &&& e < best ==> hamming(codeword(best), received) < hamming(codeword(e), received)
            },
    decreases n,
{
    if n == 1 {
        0
    } else {
        let previous = lemma_nearest_among(received, (n - 1) as u64);
        let last = (n - 1) as u64;
        if hamming(codeword(last), received) < hamming(codeword(previous), received) {
            last
        } else {
            previous
        }
    }
}

/// Whatever a word decodes to lies within eleven bits of it, and no other code
/// word does: a decode never picks a code word over a nearer one, and a word
/// decodes to nothing only when every code word is more than eleven bits away.
pub proof fn nid_decodes_to_the_only_codeword_in_the_sphere(received: u64, data: u64)
    requires
        data < 0x10000,
    ensures
        decoded(received) is None ==> hamming(codeword(data), received) > 11,
        decoded(received) matches Some(nid) ==> {
            &&& nid.nac < 4096
            &&& nid.duid < 16
            &&& nid.n_errors == hamming(codeword(data_word(nid.nac, nid.duid)), received)
            &&& nid.n_errors <= 11
            &&& data != data_word(nid.nac, nid.duid) ==> hamming(codeword(data), received)
                > 11
        },
{
    let best = lemma_nearest_among(received, 0x10000);
    assert(is_nearest(received, best));
    lemma_nearest_is_unique(received, best);
    assert(codeword(data) == codeword(data));
    if let Some(nid) = decoded(received) {
        lemma_data_word(nid.nac, nid.duid);
        if data != best {
            code_has_minimum_distance_23(data, best);
            hamming_is_a_metric(codeword(data), received, codeword(best));
            hamming_is_a_metric(codeword(best), received, codeword(data));
        }
    }
}

/// A code word carries its NAC in the top twelve bits and its DUID in the next
/// four.
pub proof fn codeword_fields(nac: u16, duid: u8)
    requires
        nac < 4096,
        duid < 16,
    ensures
        ((codeword(data_word(nac, duid)) >> 52) & 0xFFF) as u16 == nac,
        ((codeword(data_word(nac, duid)) >> 48) & 0xF) as u8 == duid,
{
    lemma_data_word(nac, duid);
    let data = data_word(nac, duid);
    lemma_codeword_spread(data);
    assert(((spread(data) >> 52) & 0xFFF) as u16 == nac && ((spread(data) >> 48) & 0xF) as u8
        == duid) by (bit_vector)
        requires
            nac < 4096,
            duid < 16,
            data == ((nac as u64) << 4) | (duid as u64),
    ;
}

/// Every wrong bit counts once: one bit turned over is one error, and errors in
/// different bits add up.
pub proof fn every_wrong_bit_counts_once(word: u64, k: u64, a: u64, b: u64)
    requires
        k < 64,
        a & b == 0,
    ensures
        hamming(word, word ^ (1u64 << k)) == 1,
        hamming(word, word ^ (a | b)) == hamming(word, word ^ a) + hamming(word, word ^ b),
{
    assert(word ^ (word ^ (1u64 << k)) == 1u64 << k && word ^ (word ^ (a | b)) == a | b && word ^ (
    word ^ a) == a && word ^ (word ^ b) == b && weight(1u64 << k) == 1) by (bit_vector)
        requires
            k < 64,
    ;
    lemma_ones_is_weight(1u64 << k);
    lemma_ones_of_disjoint(a, b, 0);
}

proof fn lemma_ones_of_disjoint(a: u64, b: u64, k: nat)
    requires
        a & b == 0,
    ensures
        ones_from(a | b, k) == ones_from(a, k) + ones_from(b, k),
    decreases 64 - k,
{
    if k < 64 {
        let j = k as u64;
        assert(((a | b) >> j) & 1 == ((a >> j) & 1) + ((b >> j) & 1)) by (bit_vector)
            requires
                a & b == 0,
        ;
        lemma_ones_of_disjoint(a, b, k + 1);
    }
}

/// The code is cyclic: the first 63 bits of a code word, turned by one place, are
/// those of a code word again. The code word of the lowest data bit is the
/// generator polynomial.
pub proof fn code_is_cyclic(data: u64)
    requires
        data < 0x10000,
    ensures
        ({
            let word = codeword(data) >> 1;
            let turned = ((word << 1) | (word >> 62)) & 0x7FFF_FFFF_FFFF_FFFF;
            codeword(turned >> 47) >> 1 == turned
        }),
        codeword(1) >> 1 == 0o6331141367235453,
{
    lemma_codeword_spread(data);
    lemma_codeword_spread(1);
    let word = codeword(data) >> 1;
    let turned = ((word << 1) | (word >> 62)) & 0x7FFF_FFFF_FFFF_FFFF;
    assert(turned >> 47 < 0x10000) by (bit_vector)
        requires
            turned == ((word << 1) | (word >> 62)) & 0x7FFF_FFFF_FFFF_FFFF,
    ;
    lemma_codeword_spread(turned >> 47);
    assert(spread(turned >> 47) >> 1 == turned && spread(1) >> 1 == 0o6331141367235453)
        by (bit_vector)
        requires
            data < 0x10000,
            word == spread(data) >> 1,
            turned == ((word << 1) | (word >> 62)) & 0x7FFF_FFFF_FFFF_FFFF,
    ;
}

/// The last bit of a code word is the parity of the two lowest data bits.
pub proof fn last_bit_is_a_parity(data: u64)
    requires
        data < 0x10000,
    ensures
        codeword(data) & 1 == (data ^ (data >> 1)) & 1,
{
    lemma_codeword_spread(data);
    assert(spread(data) & 1 == (data ^ (data >> 1)) & 1) by (bit_vector);
}

} // verus!
