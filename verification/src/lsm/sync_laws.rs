//! What the sync detectors owe, stated on the dibits and scores themselves.

use vstd::prelude::*;
use crate::lsm::nid_fec;
use crate::lsm::nid_fec::DecodedNid;
use crate::lsm::sync;
use crate::lsm::sync::SyncEvent;

verus! {

/// The 24 dibits of the frame sync.
pub open spec fn frame_sync() -> Seq<u8> {
    seq![1u8, 1, 1, 1, 1, 3, 1, 1, 3, 3, 1, 1, 3, 3, 3, 3, 1, 3, 1, 3, 3, 3, 3, 3]
}

/// Bits in which two dibits differ.
pub open spec fn dibit_errors(a: u8, b: u8) -> nat {
    (if a % 2 != b % 2 {
        1nat
    } else {
        0
    }) + (if a / 2 % 2 != b / 2 % 2 {
        1nat
    } else {
        0
    })
}

/// The dibit at `i`, or zero where it came before the search began at `from`.
pub open spec fn heard(dibits: Seq<u8>, from: int, i: int) -> u8 {
    if i < from {
        0
    } else {
        dibits[i] % 4
    }
}

/// Bits in which the first `k` of the 24 dibits before `p` differ from the
/// frame sync, in a search that began at `from`.
pub open spec fn errors_in_first(dibits: Seq<u8>, from: int, p: int, k: nat) -> nat
    decreases k,
{
    if k == 0 {
        0
    } else {
        errors_in_first(dibits, from, p, (k - 1) as nat) + dibit_errors(
            heard(dibits, from, p - 24 + (k - 1)),
            frame_sync()[k - 1],
        )
    }
}

/// Bits in which the 24 dibits before `p` differ from the frame sync, in a
/// search that began at `from`.
pub open spec fn sync_errors(dibits: Seq<u8>, from: int, p: int) -> nat {
    errors_in_first(dibits, from, p, 24)
}

/// Where the search for event `i` began: behind the NID of the event before.
pub open spec fn search_start(events: Seq<SyncEvent>, i: int) -> int {
    if i == 0 {
        0
    } else {
        events[i - 1].symbol_idx + 33
    }
}

proof fn lemma_frame_sync(x: int)
    requires
        0 <= x < 24,
    ensures
        frame_sync()[x] == sync::sync_dibit(x),
{
    let p = 0x5575_F5FF_77FFu64;
    assert((p >> 46) & 3 == 1 && (p >> 44) & 3 == 1 && (p >> 42) & 3 == 1 && (p >> 40) & 3 == 1 && (
    p >> 38) & 3 == 1 && (p >> 36) & 3 == 3 && (p >> 34) & 3 == 1 && (p >> 32) & 3 == 1 && (p >> 30)
        & 3 == 3 && (p >> 28) & 3 == 3 && (p >> 26) & 3 == 1 && (p >> 24) & 3 == 1 && (p >> 22) & 3
        == 3 && (p >> 20) & 3 == 3 && (p >> 18) & 3 == 3 && (p >> 16) & 3 == 3 && (p >> 14) & 3 == 1
        && (p >> 12) & 3 == 3 && (p >> 10) & 3 == 1 && (p >> 8) & 3 == 3 && (p >> 6) & 3 == 3 && (p
        >> 4) & 3 == 3 && (p >> 2) & 3 == 3 && (p >> 0) & 3 == 3) by (bit_vector)
        requires
            p == 0x5575_F5FF_77FFu64,
    ;
}

/// The ones of a word that is another one moved up by two bits.
proof fn lemma_ones_of_shifted(x: u64, y: u64, k: nat)
    requires
        y >> 2 == x,
        k <= 64,
    ensures
        nid_fec::ones_from(y, k + 2) == nid_fec::ones_from(x, k),
    decreases 64 - k,
{
    if k < 62 {
        lemma_ones_of_shifted(x, y, k + 1);
        let j = k as u64;
        let j2 = (k + 2) as u64;
        assert((y >> j2) & 1 == (x >> j) & 1) by (bit_vector)
            requires
                y >> 2 == x,
                j < 62,
                j2 == j + 2,
        ;
    } else {
        reveal_with_fuel(nid_fec::ones_from, 3);
        assert((x >> 62u64) & 1 == 0 && (x >> 63u64) & 1 == 0) by (bit_vector)
            requires
                y >> 2 == x,
        ;
    }
}

proof fn lemma_one_more_dibit(r: u64, q: u64, d: u64, e: u64)
    requires
        r < 0x4000_0000_0000,
        q < 0x4000_0000_0000,
        d < 4,
        e < 4,
    ensures
        nid_fec::hamming(((r << 2) | d) & 0xFFFF_FFFF_FFFF, (q << 2) | e) == nid_fec::hamming(r, q)
            + dibit_errors(d as u8, e as u8),
{
    let x = r ^ q;
    let y = (((r << 2) | d) & 0xFFFF_FFFF_FFFF) ^ ((q << 2) | e);
    assert(y >> 2 == x && (y >> 0u64) & 1 == (if d % 2 != e % 2 {
        1u64
    } else {
        0
    }) && (y >> 1u64) & 1 == (if d / 2 % 2 != e / 2 % 2 {
        1u64
    } else {
        0
    })) by (bit_vector)
        requires
            r < 0x4000_0000_0000,
            q < 0x4000_0000_0000,
            d < 4,
            e < 4,
            x == r ^ q,
            y == (((r << 2) | d) & 0xFFFF_FFFF_FFFF) ^ ((q << 2) | e),
    ;
    lemma_ones_of_shifted(x, y, 0);
    reveal_with_fuel(nid_fec::ones_from, 3);
}

proof fn lemma_register_errors(dibits: Seq<u8>, from: int, p: int, k: nat)
    requires
        0 <= from <= p,
        24 <= p <= dibits.len(),
        k <= 24,
    ensures
        ({
            let base = if from < p - 24 {
                p - 24
            } else {
                from
            };
            let r = sync::register(dibits, base, p - 24 + k);
            &&& r < 1u64 << ((2 * k) as u64)
            &&& nid_fec::hamming(r, 0x5575_F5FF_77FFu64 >> ((48 - 2 * k) as u64))
                == errors_in_first(dibits, from, p, k)
        }),
    decreases k,
{
    let base = if from < p - 24 {
        p - 24
    } else {
        from
    };
    let pattern = 0x5575_F5FF_77FFu64;
    if k == 0 {
        assert(0x5575_F5FF_77FFu64 >> 48u64 == 0 && 1u64 << 0u64 == 1 && 0u64 ^ 0u64 == 0)
            by (bit_vector);
        nid_fec::hamming_is_a_metric(0, 0, 0);
    } else {
        lemma_register_errors(dibits, from, p, (k - 1) as nat);
        lemma_frame_sync(k - 1);
        let i = p - 24 + (k - 1);
        let r = sync::register(dibits, base, i);
        let d8 = heard(dibits, from, i);
        let d = d8 as u64;
        let raw = dibits[i];
        let q = pattern >> ((50 - 2 * k) as u64);
        let next = pattern >> ((48 - 2 * k) as u64);
        let e = (pattern >> ((48 - 2 * k) as u64)) & 3;
        let s = (48 - 2 * k) as u64;
        let s2 = (50 - 2 * k) as u64;
        let w = (2 * k) as u64;
        let w2 = (2 * (k - 1)) as u64;
        assert(q < 0x4000_0000_0000 && e < 4 && next == (q << 2) | e && r < 0x4000_0000_0000 && ((r
            << 2) | d) & 0xFFFF_FFFF_FFFF < 1u64 << w && (raw as u64) & 3 == (raw % 4) as u64 && 0u64
            < 1u64 << w) by (bit_vector)
            requires
                s <= 46,
                s2 == s + 2,
                q == 0x5575_F5FF_77FFu64 >> s2,
                next == 0x5575_F5FF_77FFu64 >> s,
                e == (0x5575_F5FF_77FFu64 >> s) & 3,
                w <= 48,
                w == w2 + 2,
                r < 1u64 << w2,
                d < 4,
        ;
        lemma_one_more_dibit(r, q, d, e);
        assert(46 - 2 * (k - 1) == 48 - 2 * k);
        assert(e as u8 == frame_sync()[k - 1]);
        let after = sync::register(dibits, base, i + 1);
        if i >= base {
            assert(i >= from);
            assert(after == ((r << 2) | ((raw as u64) & 3)) & 0xFFFF_FFFF_FFFF);
        } else {
            assert(i < from);
            assert(r == 0 && after == 0 && d == 0);
            assert(((0u64 << 2) | 0u64) & 0xFFFF_FFFF_FFFF == 0) by (bit_vector);
        }
    }
}

/// The distance that the hard detector works with is the number of bits in
/// which the 24 dibits differ from the frame sync.
pub proof fn distance_is_the_bit_errors(dibits: Seq<u8>, from: int, p: int)
    requires
        0 <= from <= p,
        24 <= p <= dibits.len(),
    ensures
        sync::sync_distance(dibits, from, p) == sync_errors(dibits, from, p),
{
    lemma_register_errors(dibits, from, p, 24);
    if from < p - 24 {
        sync::register_holds_the_last_24_dibits(dibits, from, p);
    }
    assert(0x5575_F5FF_77FFu64 >> 0u64 == 0x5575_F5FF_77FFu64) by (bit_vector);
}

/// Dibits that a search passed before it began have no say where the 24 dibits
/// before `p` all came after.
pub proof fn early_dibits_have_no_say(dibits: Seq<u8>, from: int, p: int, k: nat)
    requires
        from + 24 <= p,
        k <= 24,
    ensures
        errors_in_first(dibits, from, p, k) == errors_in_first(dibits, p - 24, p, k),
    decreases k,
{
    if k > 0 {
        early_dibits_have_no_say(dibits, from, p, (k - 1) as nat);
    }
}

proof fn lemma_sync_is_in_events(dibits: Seq<u8>, from: int, at: int, p: int)
    requires
        0 <= from <= at < p,
        from + 24 <= p,
        p + 33 <= dibits.len() <= usize::MAX,
        sync_errors(dibits, p - 24, p) <= 4,
        forall|i: int|
            0 <= i < sync::hard_events(dibits, from, at).len() ==> !((#[trigger] sync::hard_events(
                dibits,
                from,
                at,
            )[i]).symbol_idx < p < sync::hard_events(dibits, from, at)[i].symbol_idx + 57),
    ensures
        exists|i: int|
            0 <= i < sync::hard_events(dibits, from, at).len() && (#[trigger] sync::hard_events(
                dibits,
                from,
                at,
            )[i]).symbol_idx == p,
    decreases p - at,
{
    let events = sync::hard_events(dibits, from, at);
    if at + 1 == p {
        early_dibits_have_no_say(dibits, from, p, 24);
        distance_is_the_bit_errors(dibits, from, p);
        assert(events[0].symbol_idx == p);
    } else if !sync::is_hard_sync(dibits, from, at + 1) {
        lemma_sync_is_in_events(dibits, from, at + 1, p);
    } else {
        let next = at + 34;
        let rest = sync::hard_events(dibits, next, next);
        assert(events[0].symbol_idx == at + 1);
        assert(at + 1 + 57 <= p);
        assert forall|i: int| 0 <= i < rest.len() implies !((#[trigger] rest[i]).symbol_idx < p
            < rest[i].symbol_idx + 57) by {
            assert(rest[i] == events[i + 1]);
        }
        lemma_sync_is_in_events(dibits, next, next, p);
        let i = choose|i: int| 0 <= i < rest.len() && (#[trigger] rest[i]).symbol_idx == p;
        assert(events[i + 1].symbol_idx == p);
    }
}

/// Every frame sync of the stream is reported: wherever 24 dibits differ from
/// the frame sync in at most four bits, with the 33 dibits of a NID behind them,
/// there is an event, unless the sync overlaps the sync or the NID of an event
/// before it.
pub proof fn every_sync_is_reported(dibits: Seq<u8>, p: int)
    requires
        24 <= p,
        p + 33 <= dibits.len() <= usize::MAX,
        sync_errors(dibits, p - 24, p) <= 4,
        forall|i: int|
            0 <= i < sync::hard_events(dibits, 0, 0).len() ==> !((#[trigger] sync::hard_events(
                dibits,
                0,
                0,
            )[i]).symbol_idx < p < sync::hard_events(dibits, 0, 0)[i].symbol_idx + 57),
    ensures
        exists|i: int|
            0 <= i < sync::hard_events(dibits, 0, 0).len() && (#[trigger] sync::hard_events(
                dibits,
                0,
                0,
            )[i]).symbol_idx == p,
{
    lemma_sync_is_in_events(dibits, 0, 0, p);
}

proof fn lemma_first_sync_after(dibits: Seq<u8>, from: int, at: int, p: int)
    requires
        0 <= from <= at < p,
        24 <= p,
        p + 33 <= dibits.len() <= usize::MAX,
        sync_errors(dibits, from, p) <= 4,
        forall|q: int| at < q < p && 24 <= q ==> #[trigger] sync_errors(dibits, from, q) > 4,
    ensures
        sync::hard_events(dibits, from, at).len() > 0,
        sync::hard_events(dibits, from, at)[0].symbol_idx == p,
        sync::hard_events(dibits, from, at)[0].distance == sync_errors(dibits, from, p),
        sync::hard_events(dibits, from, at).skip(1) == sync::hard_events(dibits, p + 33, p + 33),
    decreases p - at,
{
    if at + 1 == p {
        distance_is_the_bit_errors(dibits, from, p);
        assert(sync::hard_events(dibits, from, at).skip(1) =~= sync::hard_events(
            dibits,
            p + 33,
            p + 33,
        ));
    } else {
        if 24 <= at + 1 {
            distance_is_the_bit_errors(dibits, from, at + 1);
            assert(sync_errors(dibits, from, at + 1) > 4);
        }
        lemma_first_sync_after(dibits, from, at + 1, p);
    }
}

/// After the NID of an event the search begins anew: the first place from there
/// on at which the dibits since then pass for a sync is the next event.
pub proof fn search_goes_on_behind_the_nid(dibits: Seq<u8>, from: int, p: int)
    requires
        0 <= from < p,
        24 <= p,
        p + 33 <= dibits.len() <= usize::MAX,
        sync_errors(dibits, from, p) <= 4,
        forall|q: int| from < q < p && 24 <= q ==> #[trigger] sync_errors(dibits, from, q) > 4,
    ensures
        sync::hard_events(dibits, from, from).len() > 0,
        sync::hard_events(dibits, from, from)[0].symbol_idx == p,
        sync::hard_events(dibits, from, from)[0].distance == sync_errors(dibits, from, p),
        sync::hard_events(dibits, from, from).skip(1) == sync::hard_events(
            dibits,
            p + 33,
            p + 33,
        ),
{
    lemma_first_sync_after(dibits, from, from, p);
}

proof fn lemma_events_are_syncs(dibits: Seq<u8>, from: int, at: int, i: int)
    requires
        0 <= from <= at,
        dibits.len() <= usize::MAX,
        0 <= i < sync::hard_events(dibits, from, at).len(),
    ensures
        ({
            let events = sync::hard_events(dibits, from, at);
            let start = if i == 0 {
                from
            } else {
                events[i - 1].symbol_idx + 33
            };
            let e = events[i];
            &&& at < e.symbol_idx
            &&& start < e.symbol_idx
            &&& 24 <= e.symbol_idx
            &&& e.symbol_idx + 33 <= dibits.len()
            &&& e.distance == sync_errors(dibits, start, e.symbol_idx as int)
            &&& e.distance <= 4
        }),
    decreases dibits.len() - at,
{
    let events = sync::hard_events(dibits, from, at);
    if sync::is_hard_sync(dibits, from, at + 1) {
        distance_is_the_bit_errors(dibits, from, at + 1);
        if i > 0 {
            let rest = sync::hard_events(dibits, at + 34, at + 34);
            lemma_events_are_syncs(dibits, at + 34, at + 34, i - 1);
            assert(events[i] == rest[i - 1]);
            if i > 1 {
                assert(events[i - 1] == rest[i - 2]);
            }
        }
    } else {
        lemma_events_are_syncs(dibits, from, at + 1, i);
    }
}

/// Nothing but syncs is reported: the distance of every event is the number of
/// bits in which the dibits before it differ from the frame sync, at most four;
/// the NID is behind it; and it comes after the NID of the event before.
pub proof fn every_event_is_a_sync(dibits: Seq<u8>, i: int)
    requires
        dibits.len() <= usize::MAX,
        0 <= i < sync::hard_events(dibits, 0, 0).len(),
    ensures
        ({
            let events = sync::hard_events(dibits, 0, 0);
            let start = search_start(events, i);
            let e = events[i];
            &&& start < e.symbol_idx
            &&& 24 <= e.symbol_idx
            &&& e.symbol_idx + 33 <= dibits.len()
            &&& e.distance == sync_errors(dibits, start, e.symbol_idx as int)
            &&& e.distance <= 4
        }),
{
    lemma_events_are_syncs(dibits, 0, 0, i);
}

/// Whether the 57 dibits at `start` are a frame sync without an error and the
/// NID of a NAC and a DUID, whatever the status dibit.
pub open spec fn is_clean_frame(dibits: Seq<u8>, start: int, nac: u16, duid: u8) -> bool {
    &&& nac < 4096
    &&& duid < 16
    &&& 0 <= start
    &&& start + 57 <= dibits.len()
    &&& forall|x: int| 0 <= x < 24 ==> #[trigger] dibits[start + x] % 4 == frame_sync()[x]
    &&& sync::transmits(
        dibits,
        start + 24,
        nid_fec::codeword(nid_fec::data_word(nac, duid)),
    )
}

proof fn lemma_clean_errors(dibits: Seq<u8>, from: int, start: int, k: nat)
    requires
        0 <= from <= start,
        k <= 24,
        forall|x: int| 0 <= x < 24 ==> #[trigger] dibits[start + x] % 4 == frame_sync()[x],
    ensures
        errors_in_first(dibits, from, start + 24, k) == 0,
    decreases k,
{
    if k > 0 {
        lemma_clean_errors(dibits, from, start, (k - 1) as nat);
        assert(dibits[start + (k - 1)] % 4 == frame_sync()[k - 1]);
    }
}

/// Errors are found only where the pattern is whole: with fewer than 20 dibits
/// since the search began, more than four bits differ.
proof fn lemma_too_few_dibits(dibits: Seq<u8>, from: int, q: int)
    requires
        q - 20 < from <= q,
    ensures
        sync_errors(dibits, from, q) > 4,
{
    reveal_with_fuel(errors_in_first, 25);
    lemma_errors_grow(dibits, from, q, 5, 24);
}

proof fn lemma_errors_grow(dibits: Seq<u8>, from: int, q: int, j: nat, k: nat)
    requires
        j <= k,
    ensures
        errors_in_first(dibits, from, q, j) <= errors_in_first(dibits, from, q, k),
    decreases k,
{
    if j < k {
        lemma_errors_grow(dibits, from, q, j, (k - 1) as nat);
    }
}

/// One dibit more adds its errors.
proof fn lemma_next_errors(dibits: Seq<u8>, from: int, q: int, k: nat, d: u8, f: u8)
    requires
        heard(dibits, from, q - 24 + k) == d,
        frame_sync()[k as int] == f,
    ensures
        errors_in_first(dibits, from, q, k + 1) == errors_in_first(dibits, from, q, k)
            + dibit_errors(d, f),
{
}

/// Part of a sync behind nothing is no sync.
proof fn lemma_part_of_a_sync_is_none(dibits: Seq<u8>, start: int, m: int)
    requires
        20 <= m < 24,
        forall|x: int| 0 <= x < 24 ==> #[trigger] dibits[start + x] % 4 == frame_sync()[x],
    ensures
        sync_errors(dibits, start, start + m) > 4,
{
    let p = start + m;
    assert(dibits[start + 0] % 4 == 1 && dibits[start + 1] % 4 == 1 && dibits[start + 2] % 4 == 1
        && dibits[start + 3] % 4 == 1 && dibits[start + 4] % 4 == 1 && dibits[start + 5] % 4 == 3
        && dibits[start + 6] % 4 == 1 && dibits[start + 7] % 4 == 1 && dibits[start + 8] % 4 == 3
        && dibits[start + 9] % 4 == 3);
    let h = |x: int| heard(dibits, start, p - 24 + x);
    lemma_next_errors(dibits, start, p, 0, h(0), 1);
    lemma_next_errors(dibits, start, p, 1, h(1), 1);
    lemma_next_errors(dibits, start, p, 2, h(2), 1);
    lemma_next_errors(dibits, start, p, 3, h(3), 1);
    lemma_next_errors(dibits, start, p, 4, h(4), 1);
    lemma_next_errors(dibits, start, p, 5, h(5), 3);
    lemma_next_errors(dibits, start, p, 6, h(6), 1);
    lemma_next_errors(dibits, start, p, 7, h(7), 1);
    lemma_next_errors(dibits, start, p, 8, h(8), 3);
    lemma_next_errors(dibits, start, p, 9, h(9), 3);
    lemma_next_errors(dibits, start, p, 10, h(10), 1);
    lemma_errors_grow(dibits, start, p, 11, 24);
    if m == 23 {
        assert(h(0) == 0 && h(5) == 1 && h(6) == 3 && h(8) == 1 && h(10) == 3);
    } else if m == 22 {
        assert(h(0) == 0 && h(1) == 0 && h(5) == 1 && h(7) == 3 && h(8) == 1);
    } else if m == 21 {
        assert(h(0) == 0 && h(1) == 0 && h(2) == 0 && h(5) == 1 && h(9) == 1);
    } else {
        assert(h(0) == 0 && h(1) == 0 && h(2) == 0 && h(3) == 0 && h(5) == 1);
    }
}

proof fn lemma_no_sync_before(dibits: Seq<u8>, start: int, q: int)
    requires
        0 <= start < q < start + 24,
        forall|x: int| 0 <= x < 24 ==> #[trigger] dibits[start + x] % 4 == frame_sync()[x],
    ensures
        sync_errors(dibits, start, q) > 4,
{
    if q - start < 20 {
        lemma_too_few_dibits(dibits, start, q);
    } else {
        lemma_part_of_a_sync_is_none(dibits, start, q - start);
    }
}

proof fn lemma_clean_frames_from(dibits: Seq<u8>, ids: Seq<(u16, u8)>, i: int)
    requires
        dibits.len() == 57 * ids.len(),
        dibits.len() <= usize::MAX,
        0 <= i <= ids.len(),
        forall|j: int|
            0 <= j < ids.len() ==> is_clean_frame(
                dibits,
                57 * j,
                (#[trigger] ids[j]).0,
                ids[j].1,
            ),
    ensures
        ({
            let events = sync::hard_events(dibits, 57 * i, 57 * i);
            &&& events.len() == ids.len() - i
            &&& forall|j: int|
                i <= j < ids.len() ==> #[trigger] events[j - i] == clean_event(57 * j, ids[j])
        }),
    decreases ids.len() - i,
{
    let start = 57 * i;
    let events = sync::hard_events(dibits, start, start);
    if i < ids.len() {
        let (nac, duid) = ids[i];
        let p = start + 24;
        assert(is_clean_frame(dibits, 57 * i, ids[i].0, ids[i].1));
        lemma_clean_errors(dibits, start, start, 24);
        assert forall|q: int| start < q < p && 24 <= q implies #[trigger] sync_errors(
            dibits,
            start,
            q,
        ) > 4 by {
            lemma_no_sync_before(dibits, start, q);
        }
        search_goes_on_behind_the_nid(dibits, start, p);
        assert(p + 33 == 57 * (i + 1));
        lemma_clean_frames_from(dibits, ids, i + 1);
        let rest = sync::hard_events(dibits, 57 * (i + 1), 57 * (i + 1));
        assert(events.skip(1) == rest);
        sync::hard_events_are_sound(dibits, start, start, 0);
        let word = nid_fec::codeword(nid_fec::data_word(nac, duid));
        sync::nid_of_transmitted_word(dibits, p, word);
        nid_fec::nid_round_trip(nac, duid);
        nid_fec::codeword_fields(nac, duid);
        assert(events[0] == clean_event(57 * i, ids[i]));
        assert forall|j: int| i <= j < ids.len() implies #[trigger] events[j - i] == clean_event(
            57 * j,
            ids[j],
        ) by {
            if j > i {
                assert(events[j - i] == events.skip(1)[j - i - 1]);
                assert(rest[j - (i + 1)] == clean_event(57 * j, ids[j]));
            }
        }
    }
}

/// The event of a clean frame that begins at `start`.
pub open spec fn clean_event(start: int, id: (u16, u8)) -> SyncEvent {
    SyncEvent {
        symbol_idx: (start + 24) as usize,
        distance: 0,
        nac: id.0,
        duid: id.1,
        nid_raw: nid_fec::codeword(nid_fec::data_word(id.0, id.1)),
        fec: Some(DecodedNid { nac: id.0, duid: id.1, n_errors: 0 }),
    }
}

/// Clean frames one behind the other give one event each, with the NAC and the
/// DUID that were sent and nothing to correct.
pub proof fn clean_frames_give_one_event_each(dibits: Seq<u8>, ids: Seq<(u16, u8)>)
    requires
        dibits.len() == 57 * ids.len(),
        dibits.len() <= usize::MAX,
        forall|j: int|
            0 <= j < ids.len() ==> is_clean_frame(
                dibits,
                57 * j,
                (#[trigger] ids[j]).0,
                ids[j].1,
            ),
    ensures
        sync::hard_events(dibits, 0, 0) == Seq::new(
            ids.len(),
            |j: int| clean_event(57 * j, ids[j]),
        ),
{
    lemma_clean_frames_from(dibits, ids, 0);
    let events = sync::hard_events(dibits, 0, 0);
    assert forall|j: int| 0 <= j < ids.len() implies events[j] == clean_event(57 * j, ids[j]) by {
        assert(events[j - 0] == clean_event(57 * j, ids[j]));
    }
    assert(events =~= Seq::new(ids.len(), |j: int| clean_event(57 * j, ids[j])));
}

/// The NID of an event is the word that the 33 dibits behind it transmit, and
/// with up to eleven bits of it wrong the NAC and the DUID that were sent are
/// given all the same, with the number of wrong bits.
pub proof fn events_carry_the_nid_that_was_sent(
    dibits: Seq<u8>,
    i: int,
    received: u64,
    nac: u16,
    duid: u8,
)
    requires
        dibits.len() <= usize::MAX,
        0 <= i < sync::hard_events(dibits, 0, 0).len(),
        sync::transmits(
            dibits,
            sync::hard_events(dibits, 0, 0)[i].symbol_idx as int,
            received,
        ),
        nac < 4096,
        duid < 16,
        nid_fec::hamming(nid_fec::codeword(nid_fec::data_word(nac, duid)), received) <= 11,
    ensures
        ({
            let e = sync::hard_events(dibits, 0, 0)[i];
            &&& e.nid_raw == received
            &&& e.fec == Some(
                DecodedNid {
                    nac,
                    duid,
                    n_errors: nid_fec::hamming(
                        nid_fec::codeword(nid_fec::data_word(nac, duid)),
                        received,
                    ) as u8,
                },
            )
        }),
{
    let e = sync::hard_events(dibits, 0, 0)[i];
    sync::hard_events_are_sound(dibits, 0, 0, i);
    sync::nid_of_transmitted_word(dibits, e.symbol_idx as int, received);
    nid_fec::nid_corrects_up_to_eleven_errors(nac, duid, received);
}

/// Whether the score at `k` is above 60 and neither neighbour is above it, nor
/// without an order to it.
pub open spec fn stands_out(scores: Seq<Option<i32>>, k: int) -> bool {
    &&& scores[k] is Some
    &&& scores[k]->0 > 0x4270_0000
    &&& k > 0 ==> scores[k - 1] is Some && scores[k - 1]->0 <= scores[k]->0
    &&& k < scores.len() - 1 ==> scores[k + 1] is Some && scores[k + 1]->0 <= scores[k]->0
}

proof fn lemma_peak_is_in_events(
    scores: Seq<Option<i32>>,
    dibits: Seq<u8>,
    at: int,
    resume: int,
    k: int,
)
    requires
        0 <= at <= k < scores.len(),
        resume <= k,
        k + 57 <= dibits.len() <= usize::MAX,
        stands_out(scores, k),
        forall|i: int|
            0 <= i < sync::soft_events(scores, dibits, at, resume).len() ==> !((
            #[trigger] sync::soft_events(scores, dibits, at, resume)[i]).symbol_idx - 24 < k
                < sync::soft_events(scores, dibits, at, resume)[i].symbol_idx + 33),
    ensures
        exists|i: int|
            0 <= i < sync::soft_events(scores, dibits, at, resume).len() && (
            #[trigger] sync::soft_events(scores, dibits, at, resume)[i]).symbol_idx == k + 24,
    decreases k - at,
{
    let events = sync::soft_events(scores, dibits, at, resume);
    if at == k {
        assert(sync::is_peak(scores, k));
        assert(events[0].symbol_idx == k + 24);
    } else if at < resume || !sync::is_peak(scores, at) {
        lemma_peak_is_in_events(scores, dibits, at + 1, resume, k);
    } else {
        let rest = sync::soft_events(scores, dibits, at + 1, at + 57);
        assert(events[0].symbol_idx == at + 24);
        assert(at + 57 <= k);
        assert forall|i: int| 0 <= i < rest.len() implies !((#[trigger] rest[i]).symbol_idx - 24 < k
            < rest[i].symbol_idx + 33) by {
            assert(rest[i] == events[i + 1]);
        }
        lemma_peak_is_in_events(scores, dibits, at + 1, at + 57, k);
        let i = choose|i: int| 0 <= i < rest.len() && (#[trigger] rest[i]).symbol_idx == k + 24;
        assert(events[i + 1].symbol_idx == k + 24);
    }
}

/// Every peak of the correlation is reported: wherever a score stands out, with
/// the dibits of a NID behind the sync, there is an event, unless the peak falls
/// into the frame of an event before it.
pub proof fn every_peak_is_reported(scores: Seq<Option<i32>>, dibits: Seq<u8>, k: int)
    requires
        0 <= k < scores.len(),
        k + 57 <= dibits.len() <= usize::MAX,
        stands_out(scores, k),
        forall|i: int|
            0 <= i < sync::soft_events(scores, dibits, 0, 0).len() ==> !((
            #[trigger] sync::soft_events(scores, dibits, 0, 0)[i]).symbol_idx - 24 < k
                < sync::soft_events(scores, dibits, 0, 0)[i].symbol_idx + 33),
    ensures
        exists|i: int|
            0 <= i < sync::soft_events(scores, dibits, 0, 0).len() && (#[trigger] sync::soft_events(
                scores,
                dibits,
                0,
                0,
            )[i]).symbol_idx == k + 24,
{
    lemma_peak_is_in_events(scores, dibits, 0, 0, k);
}

/// Nothing but peaks is reported, each with its NID behind it and at least a
/// frame after the one before.
pub proof fn every_soft_event_is_a_peak(scores: Seq<Option<i32>>, dibits: Seq<u8>, i: int)
    requires
        dibits.len() <= usize::MAX,
        0 <= i < sync::soft_events(scores, dibits, 0, 0).len(),
    ensures
        ({
            let events = sync::soft_events(scores, dibits, 0, 0);
            let e = events[i];
            &&& 24 <= e.symbol_idx < scores.len() + 24
            &&& stands_out(scores, e.symbol_idx - 24)
            &&& e.symbol_idx + 33 <= dibits.len()
            &&& i > 0 ==> e.symbol_idx >= events[i - 1].symbol_idx + 57
        }),
{
    sync::soft_events_are_sound(scores, dibits, 0, 0, i);
    lemma_soft_event_has_a_score(scores, dibits, 0, 0, i);
}

proof fn lemma_soft_event_has_a_score(
    scores: Seq<Option<i32>>,
    dibits: Seq<u8>,
    k: int,
    resume: int,
    i: int,
)
    requires
        0 <= k,
        dibits.len() <= usize::MAX,
        0 <= i < sync::soft_events(scores, dibits, k, resume).len(),
    ensures
        sync::soft_events(scores, dibits, k, resume)[i].symbol_idx < scores.len() + 24,
    decreases scores.len() - k,
{
    if k < resume || !sync::is_peak(scores, k) {
        lemma_soft_event_has_a_score(scores, dibits, k + 1, resume, i);
    } else if i > 0 {
        lemma_soft_event_has_a_score(scores, dibits, k + 1, k + 57, i - 1);
    }
}

/// The soft detector correlates with the frame sync: an outer symbol for every
/// dibit, positive where the dibit's first bit is off.
pub proof fn sync_symbols_are_of_the_frame_sync(x: int)
    requires
        0 <= x < 24,
    ensures
        sync::sync_symbol(x) == crate::lsm::demod::symbol_of_dibit(frame_sync()[x]),
        frame_sync()[x] < 2 ==> sync::sync_symbol(x) == 3,
        frame_sync()[x] >= 2 ==> sync::sync_symbol(x) == -3,
{
    lemma_frame_sync(x);
}

/// A NID word is made of the NAC in its top twelve bits, the DUID in the next
/// four, and the parity.
pub proof fn fields_are_the_top_bits(word: u64)
    ensures
        sync::nac_field(word) == word / 0x10_0000_0000_0000,
        sync::duid_field(word) == word / 0x1_0000_0000_0000 % 16,
        sync::nac_field(word) < 4096,
        sync::duid_field(word) < 16,
{
    assert(((word >> 52) & 0xFFF) as u16 == word / 0x10_0000_0000_0000 && ((word >> 48) & 0xF) as u8
        == word / 0x1_0000_0000_0000 % 16) by (bit_vector);
}

} // verus!
