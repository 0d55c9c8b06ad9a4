//! Frame-sync detectors and extraction of the network identifier (NID).
//!
//! The hard detector slides a 48-bit register over the dibit stream and
//! compares it with the sync pattern. The soft detector picks the local maxima
//! of a correlation score. Both read the NID from the 33 dibits after the sync
//! and leave out the status dibit among them.

use vstd::prelude::*;
use crate::lsm::nid_fec;
use crate::lsm::nid_fec::{count_ones, decode_nid, DecodedNid};

verus! {

/// 48-bit frame sync, 24 dibits, most significant dibit first.
pub const FRAME_SYNC_DIBIT_PATTERN: u64 = 0x5575_F5FF_77FF;

/// Mask of the 48 sync bits inside the register.
pub const FRAME_SYNC_MASK: u64 = 0xFFFF_FFFF_FFFF;

/// Number of dibits in the sync pattern.
pub const FRAME_SYNC_DIBITS: usize = 24;

/// Dibits transmitted for the NID, one status dibit among them.
pub const NID_TRANSMITTED_DIBITS: usize = 33;

/// Position of the status dibit among the 33.
pub const NID_STATUS_DIBIT_INDEX: usize = 11;

/// Most differing bits that the hard detector accepts as a sync.
pub const SYNC_THRESHOLD: u32 = 4;

/// Rank of the correlation score 60, above which the soft detector accepts a
/// sync. A perfect match scores about 133.
pub const SYNC_SCORE_THRESHOLD: i32 = 0x4270_0000;

/// One frame-sync match with the NID that follows it.
#[derive(Debug, Clone, Copy, PartialEq, Eq, Structural)]
pub struct SyncEvent {
    /// Index of the dibit right after the sync.
    pub symbol_idx: usize,
    /// Bits in which the sync differs (hard detector), or -1 (soft detector).
    pub distance: i32,
    /// 12-bit NAC as received.
    pub nac: u16,
    /// 4-bit DUID as received.
    pub duid: u8,
    /// The 64-bit NID word as received, without the status dibit.
    pub nid_raw: u64,
    /// The NID after error correction; `None` if it is uncorrectable.
    pub fec: Option<DecodedNid>,
}

impl SyncEvent {
    /// The corrected NAC, or the received one where correction failed.
    pub fn best_nac(&self) -> (nac: u16)
        ensures
            nac == match self.fec {
                Some(d) => d.nac,
                None => self.nac,
            },
    {
        match self.fec {
            Some(d) => d.nac,
            None => self.nac,
        }
    }

    /// The corrected DUID, or the received one where correction failed.
    pub fn best_duid(&self) -> (duid: u8)
        ensures
            duid == match self.fec {
                Some(d) => d.duid,
                None => self.duid,
            },
    {
        match self.fec {
            Some(d) => d.duid,
            None => self.duid,
        }
    }
}

// ---------------------------------------------------------------------------
// NID extraction
// ---------------------------------------------------------------------------

/// The dibits at `start..start + k` packed most significant first, without the
/// status dibit.
pub open spec fn nid_prefix(dibits: Seq<u8>, start: int, k: nat) -> u64
    decreases k,
{
    if k == 0 {
        0
    } else if k - 1 == NID_STATUS_DIBIT_INDEX {
        nid_prefix(dibits, start, (k - 1) as nat)
    } else {
        (nid_prefix(dibits, start, (k - 1) as nat) << 2) | ((dibits[start + k - 1] as u64) & 3)
    }
}

/// The 64-bit NID word whose 33 transmitted dibits begin at `start`.
pub open spec fn nid_at(dibits: Seq<u8>, start: int) -> u64 {
    nid_prefix(dibits, start, 33)
}

/// The NAC field of a NID word: its top twelve bits.
pub open spec fn nac_field(word: u64) -> u16 {
    ((word >> 52) & 0xFFF) as u16
}

/// The DUID field of a NID word: the four bits below the NAC.
pub open spec fn duid_field(word: u64) -> u8 {
    ((word >> 48) & 0xF) as u8
}

/// Dibit `j` of a NID word, most significant first.
pub open spec fn nid_dibit(word: u64, j: int) -> u8 {
    ((word >> ((62 - 2 * j) as u64)) & 3) as u8
}

/// Whether the 33 dibits at `start` transmit `word`, whatever the status dibit.
pub open spec fn transmits(dibits: Seq<u8>, start: int, word: u64) -> bool {
    &&& 0 <= start
    &&& start + 33 <= dibits.len()
    &&& forall|j: int|
        #![trigger nid_dibit(word, j)]
        0 <= j < 32 ==> dibits[start + (if j < 11 {
            j
        } else {
            j + 1
        })] & 3 == nid_dibit(word, j)
}

/// Read 33 dibits from `start_idx` on, leave out the status dibit, and split
/// the NID word into NAC, DUID and the whole word. `None` when the stream ends
/// before the 33 dibits do.
pub fn extract_nid_skipping_status(dibits: &[u8], start_idx: usize) -> (r: Option<(u16, u8, u64)>)
    requires
        start_idx + NID_TRANSMITTED_DIBITS <= usize::MAX,
    ensures
        r == if start_idx + NID_TRANSMITTED_DIBITS > dibits@.len() {
            None
        } else {
            let word = nid_at(dibits@, start_idx as int);
            Some((nac_field(word), duid_field(word), word))
        },
{
    let end: usize = start_idx + NID_TRANSMITTED_DIBITS;
    if end > dibits.len() {
        return None;
    }
    let mut nid_bits: u64 = 0;
    let mut j: usize = 0;
    while j < NID_TRANSMITTED_DIBITS
        invariant
            j <= NID_TRANSMITTED_DIBITS,
            start_idx + NID_TRANSMITTED_DIBITS <= dibits@.len(),
            dibits@.len() <= usize::MAX,
            nid_bits == nid_prefix(dibits@, start_idx as int, j as nat),
        decreases NID_TRANSMITTED_DIBITS - j,
    {
        if j != NID_STATUS_DIBIT_INDEX {
            nid_bits = (nid_bits << 2) | ((dibits[start_idx + j] as u64) & 3);
        }
        j = j + 1;
    }
    let nac: u16 = ((nid_bits >> 52) & 0xFFF) as u16;
    let duid: u8 = ((nid_bits >> 48) & 0xF) as u8;
    Some((nac, duid, nid_bits))
}

/// The status dibit has no say: two streams that agree on the other 32 dibits
/// carry the same NID.
pub proof fn status_dibit_is_ignored(a: Seq<u8>, b: Seq<u8>, start: int)
    requires
        forall|j: int|
            0 <= j < 33 && j != 11 ==> #[trigger] a[start
                + j] == b[start + j],
    ensures
        nid_at(a, start) == nid_at(b, start),
{
    lemma_prefix_ignores_status(a, b, start, 33);
}

proof fn lemma_prefix_ignores_status(a: Seq<u8>, b: Seq<u8>, start: int, k: nat)
    requires
        k <= 33,
        forall|j: int|
            0 <= j < NID_TRANSMITTED_DIBITS && j != NID_STATUS_DIBIT_INDEX ==> #[trigger] a[start
                + j] == b[start + j],
    ensures
        nid_prefix(a, start, k) == nid_prefix(b, start, k),
    decreases k,
{
    if k > 0 {
        lemma_prefix_ignores_status(a, b, start, (k - 1) as nat);
        assert(k - 1 != NID_STATUS_DIBIT_INDEX ==> a[start + (k - 1)] == b[start + (k - 1)]);
    }
}

proof fn lemma_prefix_of_transmitted(dibits: Seq<u8>, start: int, word: u64, k: nat)
    requires
        transmits(dibits, start, word),
        0 < k <= 33,
    ensures
        nid_prefix(dibits, start, k) == word >> (if k <= NID_STATUS_DIBIT_INDEX {
            64 - 2 * k
        } else {
            66 - 2 * k
        }) as u64,
    decreases k,
{
    reveal_with_fuel(nid_prefix, 2);
    let j = if k - 1 < NID_STATUS_DIBIT_INDEX {
        k - 1
    } else {
        k - 2
    };
    let d = dibits[start + k - 1];
    if k - 1 != NID_STATUS_DIBIT_INDEX {
        assert(d & 3 == nid_dibit(word, j));
    }
    if k > 1 {
        lemma_prefix_of_transmitted(dibits, start, word, (k - 1) as nat);
    }
    let s = (62 - 2 * j) as u64;
    let before = nid_prefix(dibits, start, (k - 1) as nat);
    if k - 1 != NID_STATUS_DIBIT_INDEX {
        assert((before << 2) | ((d as u64) & 3) == word >> s) by (bit_vector)
            requires
                s <= 62,
                s == 62 ==> before == 0,
                s < 62 ==> before == word >> ((s + 2) as u64),
                d & 3 == ((word >> s) & 3) as u8,
        ;
    }
}

/// Extraction gives back the word that the 33 dibits transmit.
pub proof fn nid_of_transmitted_word(dibits: Seq<u8>, start: int, word: u64)
    requires
        transmits(dibits, start, word),
    ensures
        nid_at(dibits, start) == word,
{
    lemma_prefix_of_transmitted(dibits, start, word, 33);
    assert(word >> 0u64 == word) by (bit_vector);
}

// ---------------------------------------------------------------------------
// Hard detector
// ---------------------------------------------------------------------------

/// The sync register after it was cleared at `from` and the dibits at
/// `from..to` were shifted in.
pub open spec fn register(dibits: Seq<u8>, from: int, to: int) -> u64
    decreases to - from,
{
    if to <= from {
        0
    } else {
        ((register(dibits, from, to - 1) << 2) | ((dibits[to - 1] as u64) & 3)) & FRAME_SYNC_MASK
    }
}

/// Bits in which the register, cleared at `from`, differs from the sync
/// pattern once the dibit before `to` is in.
pub open spec fn sync_distance(dibits: Seq<u8>, from: int, to: int) -> nat {
    nid_fec::hamming(register(dibits, from, to), FRAME_SYNC_DIBIT_PATTERN)
}

/// The event for a sync that ends right before `at`.
pub open spec fn event_at(dibits: Seq<u8>, at: int, distance: int) -> SyncEvent {
    let word = nid_at(dibits, at);
    SyncEvent {
        symbol_idx: at as usize,
        distance: distance as i32,
        nac: nac_field(word),
        duid: duid_field(word),
        nid_raw: word,
        fec: nid_fec::decoded(word),
    }
}

/// Whether the hard detector accepts a sync that ends right before `to`.
pub open spec fn is_hard_sync(dibits: Seq<u8>, from: int, to: int) -> bool {
    to >= FRAME_SYNC_DIBITS && sync_distance(dibits, from, to) <= SYNC_THRESHOLD
}

/// The events of the hard detector from position `at` on, with the register
/// cleared at `from`. After a sync the search resumes, with a cleared
/// register, behind the 33 NID dibits; it ends at a sync with fewer than 33
/// dibits behind it.
pub open spec fn hard_events(dibits: Seq<u8>, from: int, at: int) -> Seq<SyncEvent>
    decreases dibits.len() - at,
{
    if at >= dibits.len() {
        seq![]
    } else if !is_hard_sync(dibits, from, at + 1) {
        hard_events(dibits, from, at + 1)
    } else if at + 1 + NID_TRANSMITTED_DIBITS > dibits.len() {
        seq![]
    } else {
        seq![event_at(dibits, at + 1, sync_distance(dibits, from, at + 1) as int)] + hard_events(
            dibits,
            at + 1 + NID_TRANSMITTED_DIBITS,
            at + 1 + NID_TRANSMITTED_DIBITS,
        )
    }
}

/// Hard-decision sync detector: an event wherever the last dibits differ from
/// the sync pattern in at most four bits.
pub fn find_sync_events_hard(dibits: &[u8]) -> (events: Vec<SyncEvent>)
    requires
        dibits@.len() + NID_TRANSMITTED_DIBITS <= usize::MAX,
    ensures
        events@ == hard_events(dibits@, 0, 0),
{
    let mut sync_register: u64 = 0;
    let mut out: Vec<SyncEvent> = Vec::new();
    let mut i: usize = 0;
    let ghost mut from: int = 0;
    while i < dibits.len()
        invariant
            dibits@.len() + NID_TRANSMITTED_DIBITS <= usize::MAX,
            0 <= from <= i <= dibits@.len(),
            sync_register == register(dibits@, from, i as int),
            out@ + hard_events(dibits@, from, i as int) == hard_events(dibits@, 0, 0),
        decreases dibits.len() - i,
    {
        sync_register = ((sync_register << 2) | ((dibits[i] as u64) & 3)) & FRAME_SYNC_MASK;
        i = i + 1;
        if i >= FRAME_SYNC_DIBITS {
            let distance: u32 = count_ones(sync_register ^ FRAME_SYNC_DIBIT_PATTERN);
            if distance <= SYNC_THRESHOLD {
                match extract_nid_skipping_status(dibits, i) {
                    None => {
                        return out;
                    },
                    Some((nac, duid, nid_bits)) => {
                        let ghost before = out@;
                        let fec = decode_nid(nid_bits);
                        out.push(
                            SyncEvent {
                                symbol_idx: i,
                                distance: distance as i32,
                                nac,
                                duid,
                                nid_raw: nid_bits,
                                fec,
                            },
                        );
                        i = i + NID_TRANSMITTED_DIBITS;
                        sync_register = 0;
                        proof {
                            from = i as int;
                            assert(out@ + hard_events(dibits@, i as int, i as int) == before + (
                            seq![out@.last()] + hard_events(dibits@, i as int, i as int)));
                        }
                    },
                }
            }
        }
    }
    assert(out@ + hard_events(dibits@, from, i as int) == out@);
    out
}

proof fn lemma_register_tail(dibits: Seq<u8>, from: int, later: int, k: nat)
    requires
        from <= later,
        k <= 24,
    ensures
        register(dibits, later, later + k) == register(dibits, from, later + k) & (((1u64 << (2
            * k) as u64) - 1) as u64),
    decreases k,
{
    let n = (2 * k) as u64;
    if k == 0 {
        let r = register(dibits, from, later);
        assert(r & (((1u64 << 0u64) - 1) as u64) == 0) by (bit_vector);
    } else {
        lemma_register_tail(dibits, from, later, (k - 1) as nat);
        let a = register(dibits, from, later + k - 1);
        let b = register(dibits, later, later + k - 1);
        let m = (n - 2) as u64;
        let d = (dibits[later + k - 1] as u64) & 3;
        nid_fec::lemma_masked(dibits[later + k - 1] as u64, 3);
        assert((((b << 2) | d) & 0xFFFF_FFFF_FFFF) == (((a << 2) | d) & 0xFFFF_FFFF_FFFF) & (((
        1u64 << n) - 1) as u64)) by (bit_vector)
            requires
                2 <= n <= 48,
                m == n - 2,
                d <= 3,
                b == a & (((1u64 << m) - 1) as u64),
        ;
        assert(later + k - 1 == later + (k - 1) as nat);
    }
}

/// The register holds the last 24 dibits and nothing of what came before.
pub proof fn register_holds_the_last_24_dibits(dibits: Seq<u8>, from: int, to: int)
    requires
        from + FRAME_SYNC_DIBITS <= to,
    ensures
        register(dibits, from, to) == register(dibits, to - FRAME_SYNC_DIBITS, to),
{
    lemma_register_tail(dibits, from, to - 24, 24);
    let a = register(dibits, from, to - 1);
    let d = (dibits[to - 1] as u64) & 3;
    assert(((a << 2) | d) & 0xFFFF_FFFF_FFFF == (((a << 2) | d) & 0xFFFF_FFFF_FFFF) & (((1u64
        << 48u64) - 1) as u64)) by (bit_vector);
}

/// Dibit `x` of the sync pattern.
pub open spec fn sync_dibit(x: int) -> u8 {
    ((FRAME_SYNC_DIBIT_PATTERN >> ((46 - 2 * x) as u64)) & 3) as u8
}

/// Whether the 24 dibits at `start` are the sync pattern without an error.
pub open spec fn carries_sync(dibits: Seq<u8>, start: int) -> bool {
    &&& 0 <= start
    &&& start + FRAME_SYNC_DIBITS <= dibits.len()
    &&& forall|x: int|
        #![trigger sync_dibit(x)]
        0 <= x < FRAME_SYNC_DIBITS ==> dibits[start + x] & 3 == sync_dibit(x)
}

proof fn lemma_register_of_sync(dibits: Seq<u8>, start: int, k: nat)
    requires
        carries_sync(dibits, start),
        k <= 24,
    ensures
        register(dibits, start, start + k) == FRAME_SYNC_DIBIT_PATTERN >> (48 - 2 * k) as u64,
    decreases k,
{
    if k == 0 {
        assert(0x5575_F5FF_77FFu64 >> 48u64 == 0) by (bit_vector);
    } else {
        lemma_register_of_sync(dibits, start, (k - 1) as nat);
        let b = register(dibits, start, start + k - 1);
        let d = dibits[start + k - 1];
        assert(d & 3 == sync_dibit(k - 1));
        let s = (48 - 2 * k) as u64;
        assert((((b << 2) | ((d as u64) & 3)) & 0xFFFF_FFFF_FFFF) == 0x5575_F5FF_77FFu64 >> s)
            by (bit_vector)
            requires
                s <= 46,
                b == 0x5575_F5FF_77FFu64 >> ((s + 2) as u64),
                d & 3 == ((0x5575_F5FF_77FFu64 >> s) & 3) as u8,
        ;
        assert(start + k - 1 == start + (k - 1) as nat);
    }
}

/// A sync pattern without an error is at distance zero, whatever precedes it.
pub proof fn clean_sync_has_distance_zero(dibits: Seq<u8>, from: int, start: int)
    requires
        carries_sync(dibits, start),
        from <= start,
    ensures
        sync_distance(dibits, from, start + FRAME_SYNC_DIBITS) == 0,
{
    let to = start + FRAME_SYNC_DIBITS;
    register_holds_the_last_24_dibits(dibits, from, to);
    lemma_register_of_sync(dibits, start, 24);
    let p = FRAME_SYNC_DIBIT_PATTERN;
    assert(p >> 0u64 == p) by (bit_vector);
    nid_fec::hamming_is_a_metric(p, p, p);
}

/// Where no earlier position passes for a sync, the first one that does is
/// reported, and the search goes on behind its NID.
pub proof fn first_hard_sync_is_reported(dibits: Seq<u8>, from: int, at: int, p: int)
    requires
        at < p,
        p + NID_TRANSMITTED_DIBITS <= dibits.len(),
        forall|to: int| at < to < p ==> !#[trigger] is_hard_sync(dibits, from, to),
        is_hard_sync(dibits, from, p),
    ensures
        hard_events(dibits, from, at) == seq![
            event_at(dibits, p, sync_distance(dibits, from, p) as int),
        ] + hard_events(dibits, p + NID_TRANSMITTED_DIBITS, p + NID_TRANSMITTED_DIBITS),
    decreases p - at,
{
    if at + 1 < p {
        assert(!is_hard_sync(dibits, from, at + 1));
        first_hard_sync_is_reported(dibits, from, at + 1, p);
    }
}

/// A stream that holds one frame, a clean sync and then the NID of any NAC and
/// DUID with any status dibit, gives exactly one event, with nothing to
/// correct in it.
pub proof fn clean_frame_gives_one_exact_event(dibits: Seq<u8>, nac: u16, duid: u8)
    requires
        nac < 4096,
        duid < 16,
        dibits.len() == FRAME_SYNC_DIBITS + NID_TRANSMITTED_DIBITS,
        carries_sync(dibits, 0),
        transmits(
            dibits,
            FRAME_SYNC_DIBITS as int,
            nid_fec::codeword(nid_fec::data_word(nac, duid)),
        ),
    ensures
        hard_events(dibits, 0, 0) == seq![
            SyncEvent {
                symbol_idx: FRAME_SYNC_DIBITS,
                distance: 0,
                nac,
                duid,
                nid_raw: nid_fec::codeword(nid_fec::data_word(nac, duid)),
                fec: Some(DecodedNid { nac, duid, n_errors: 0 }),
            },
        ],
{
    clean_sync_has_distance_zero(dibits, 0, 0);
    first_hard_sync_is_reported(dibits, 0, 0, 24);
    let word = nid_fec::codeword(nid_fec::data_word(nac, duid));
    nid_of_transmitted_word(dibits, 24, word);
    nid_fec::nid_round_trip(nac, duid);
    nid_fec::codeword_fields(nac, duid);
    assert(hard_events(dibits, 57, 57) == Seq::<SyncEvent>::empty());
}

/// Whether `e` reports a sync that ends before dibit `e.symbol_idx`, with the
/// 33 NID dibits behind it, read without the status dibit and corrected.
pub open spec fn reads_its_nid(dibits: Seq<u8>, e: SyncEvent) -> bool {
    &&& FRAME_SYNC_DIBITS <= e.symbol_idx
    &&& e.symbol_idx + NID_TRANSMITTED_DIBITS <= dibits.len()
    &&& e.nid_raw == nid_at(dibits, e.symbol_idx as int)
    &&& e.nac == nac_field(e.nid_raw)
    &&& e.duid == duid_field(e.nid_raw)
    &&& e.fec == nid_fec::decoded(e.nid_raw)
}

/// Every hard event differs from the sync pattern in at most four bits and
/// reads its NID from the 33 dibits behind it; no event begins inside the NID
/// of an earlier one.
pub proof fn hard_events_are_sound(dibits: Seq<u8>, from: int, at: int, i: int)
    requires
        0 <= at,
        dibits.len() <= usize::MAX,
        0 <= i < hard_events(dibits, from, at).len(),
    ensures
        hard_events(dibits, from, at)[i].symbol_idx > at,
        reads_its_nid(dibits, hard_events(dibits, from, at)[i]),
        0 <= hard_events(dibits, from, at)[i].distance <= SYNC_THRESHOLD,
        i > 0 ==> hard_events(dibits, from, at)[i].symbol_idx > hard_events(dibits, from, at)[i
            - 1].symbol_idx + NID_TRANSMITTED_DIBITS,
    decreases dibits.len() - at,
{
    if is_hard_sync(dibits, from, at + 1) {
        let next = at + 1 + NID_TRANSMITTED_DIBITS;
        if i > 0 {
            hard_events_are_sound(dibits, next, next, i - 1);
        }
    } else {
        hard_events_are_sound(dibits, from, at + 1, i);
    }
}

// ---------------------------------------------------------------------------
// Soft detector
// ---------------------------------------------------------------------------

/// The symbol of a sync dibit, in units of a quarter turn over two: the sync
/// pattern is made of outer symbols only.
pub open spec fn sync_symbol(x: int) -> i32 {
    if sync_dibit(x) == 1 {
        3
    } else {
        (-3) as i32
    }
}

proof fn lemma_sync_dibit_is_outer(x: int)
    requires
        0 <= x < FRAME_SYNC_DIBITS,
    ensures
        sync_dibit(x) == 1 || sync_dibit(x) == 3,
{
    let s = (46 - 2 * x) as u64;
    assert(((0x5575_F5FF_77FFu64 >> s) & 3) as u8 == 1 || ((0x5575_F5FF_77FFu64 >> s) & 3) as u8
        == 3) by (bit_vector)
        requires
            s <= 46,
            s % 2 == 0,
    ;
}

/// The 24 symbols that the soft detector correlates with, +3 for the dibit 01
/// and -3 for the dibit 11. A symbol is a phase in units of pi/4.
pub fn build_sync_pattern_symbols() -> (symbols: Vec<i32>)
    ensures
        symbols@ == Seq::new(24, |x: int| sync_symbol(x)),
        forall|x: int|
            #![trigger sync_dibit(x)]
            0 <= x < FRAME_SYNC_DIBITS ==> sync_dibit(x) == 1 || sync_dibit(x) == 3,
{
    let mut symbols: Vec<i32> = Vec::new();
    let mut x: usize = 0;
    while x < FRAME_SYNC_DIBITS
        invariant
            x <= FRAME_SYNC_DIBITS,
            symbols@ == Seq::new(x as nat, |i: int| sync_symbol(i)),
        decreases FRAME_SYNC_DIBITS - x,
    {
        let dibit: u8 = ((FRAME_SYNC_DIBIT_PATTERN >> ((46 - 2 * x) as u64)) & 3) as u8;
        symbols.push(
            if dibit == 1 {
                3
            } else {
                -3
            },
        );
        x = x + 1;
    }
    proof {
        assert forall|x: int|
            #![trigger sync_dibit(x)]
            0 <= x < FRAME_SYNC_DIBITS implies sync_dibit(x) == 1 || sync_dibit(x) == 3 by {
            lemma_sync_dibit_is_outer(x);
        }
    }
    symbols
}

/// Whether a score is at least another. A score that is not a number compares
/// with nothing.
pub open spec fn at_least(a: Option<i32>, b: Option<i32>) -> bool {
    a is Some && b is Some && a->0 >= b->0
}

/// Whether score `k` is above the threshold and no neighbour exceeds it.
pub open spec fn is_peak(scores: Seq<Option<i32>>, k: int) -> bool {
    &&& scores[k] is Some
    &&& scores[k]->0 > SYNC_SCORE_THRESHOLD
    &&& k > 0 ==> at_least(scores[k], scores[k - 1])
    &&& k + 1 < scores.len() ==> at_least(scores[k], scores[k + 1])
}

/// The events of the soft detector from score `k` on, with the scores before
/// `resume` passed over. After an event the 24 + 33 scores of its frame are
/// passed over; the search ends at a peak with fewer than 33 dibits behind it.
pub open spec fn soft_events(
    scores: Seq<Option<i32>>,
    dibits: Seq<u8>,
    k: int,
    resume: int,
) -> Seq<SyncEvent>
    decreases scores.len() - k,
{
    if k >= scores.len() {
        seq![]
    } else if k < resume || !is_peak(scores, k) {
        soft_events(scores, dibits, k + 1, resume)
    } else if k + FRAME_SYNC_DIBITS + NID_TRANSMITTED_DIBITS > dibits.len() {
        seq![]
    } else {
        seq![event_at(dibits, k + FRAME_SYNC_DIBITS, -1)] + soft_events(
            scores,
            dibits,
            k + 1,
            k + FRAME_SYNC_DIBITS + NID_TRANSMITTED_DIBITS,
        )
    }
}

fn not_below(a: i32, b: Option<i32>) -> (r: bool)
    ensures
        r == at_least(Some(a), b),
{
    match b {
        Some(b) => a >= b,
        None => false,
    }
}

/// Soft sync detector: local maxima of the correlation score above the
/// threshold, the NID read from the hard dibits. A score is given by its rank
/// among all scores, `None` for one that is not a number; score `k` is the
/// correlation over the symbols `k..k + 24`. With a single score nothing is
/// reported.
pub fn find_sync_events_soft(
    scores: &[Option<i32>],
    hard_dibits: &[u8],
) -> (events: Vec<SyncEvent>)
    requires
        scores@.len() + FRAME_SYNC_DIBITS + NID_TRANSMITTED_DIBITS <= usize::MAX,
    ensures
        events@ == if scores@.len() < 2 {
            seq![]
        } else {
            soft_events(scores@, hard_dibits@, 0, 0)
        },
{
    let mut out: Vec<SyncEvent> = Vec::new();
    let n: usize = scores.len();
    if n < 2 {
        return out;
    }
    let mut resume: usize = 0;
    let mut k: usize = 0;
    while k < n
        invariant
            n == scores@.len(),
            n + FRAME_SYNC_DIBITS + NID_TRANSMITTED_DIBITS <= usize::MAX,
            k <= n,
            out@ + soft_events(scores@, hard_dibits@, k as int, resume as int)
                == soft_events(scores@, hard_dibits@, 0, 0),
        decreases n - k,
    {
        let peak: bool = match scores[k] {
            None => false,
            Some(score) => {
                score > SYNC_SCORE_THRESHOLD && (k == 0 || not_below(score, scores[k - 1])) && (k + 1 >= n
                    || not_below(score, scores[k + 1]))
            },
        };
        if k >= resume && peak {
            let first_nid_idx: usize = k + FRAME_SYNC_DIBITS;
            match extract_nid_skipping_status(hard_dibits, first_nid_idx) {
                None => {
                    return out;
                },
                Some((nac, duid, nid_bits)) => {
                    let ghost before = out@;
                    let fec = decode_nid(nid_bits);
                    out.push(
                        SyncEvent {
                            symbol_idx: first_nid_idx,
                            distance: -1,
                            nac,
                            duid,
                            nid_raw: nid_bits,
                            fec,
                        },
                    );
                    resume = first_nid_idx + NID_TRANSMITTED_DIBITS;
                    proof {
                        let rest = soft_events(
                            scores@,
                            hard_dibits@,
                            k + 1,
                            resume as int,
                        );
                        assert(out@ + rest == before + (seq![out@.last()] + rest));
                    }
                },
            }
        }
        k = k + 1;
    }
    assert(out@ + soft_events(scores@, hard_dibits@, k as int, resume as int) == out@);
    out
}

/// Every soft event sits at a peak above the threshold and reads its NID from
/// the 33 dibits behind the sync; two events are at least a sync and a NID
/// apart.
pub proof fn soft_events_are_sound(
    scores: Seq<Option<i32>>,
    dibits: Seq<u8>,
    k: int,
    resume: int,
    i: int,
)
    requires
        0 <= k,
        dibits.len() <= usize::MAX,
        0 <= i < soft_events(scores, dibits, k, resume).len(),
    ensures
        ({
            let e = soft_events(scores, dibits, k, resume)[i];
            &&& e.symbol_idx - FRAME_SYNC_DIBITS >= k
            &&& e.symbol_idx - FRAME_SYNC_DIBITS >= resume
            &&& is_peak(scores, e.symbol_idx - FRAME_SYNC_DIBITS)
            &&& reads_its_nid(dibits, e)
            &&& e.distance == -1
            &&& i > 0 ==> e.symbol_idx >= soft_events(scores, dibits, k, resume)[i
                - 1].symbol_idx + FRAME_SYNC_DIBITS + NID_TRANSMITTED_DIBITS
        }),
    decreases scores.len() - k,
{
    if k < resume || !is_peak(scores, k) {
        soft_events_are_sound(scores, dibits, k + 1, resume, i);
    } else if i > 0 {
        let next = k + FRAME_SYNC_DIBITS + NID_TRANSMITTED_DIBITS;
        soft_events_are_sound(scores, dibits, k + 1, next, i - 1);
    }
}

} // verus!
