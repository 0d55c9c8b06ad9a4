//! What the LSM chain of the control channel has been doing: a poll every few
//! milliseconds, folded into live values, totals, a window of one second, the
//! last network identifiers, and a histogram of their NACs.

use vstd::prelude::*;
use crate::clock::{elapsed_ms, elapsed_ns, ms_ago, uptime_secs};
use crate::fpga::ip_core::LsmStatusSnapshot;
use crate::slices::push_bounded;
use crate::sorting::sorted_order;
use crate::text::prefixed_hex;
use std::collections::HashMap;
use vstd::std_specs::iter::IteratorSpec;

verus! {

broadcast use vstd::std_specs::hash::group_hash_axioms;

/// Network identifiers remembered.
pub const NID_RING_DEPTH: usize = 32;

/// A window is reported after this many nanoseconds.
pub const WINDOW_NS: u64 = 1_000_000_000;

/// Past the first ten, an event is logged this long after the last one logged.
pub const EVENT_LOG_NS: u64 = 200_000_000;

/// Best sync distance of a window without an observation.
pub const NO_SYNC_DISTANCE: u8 = 99;

/// One network identifier as it was received.
#[derive(Debug, Clone, Copy, PartialEq, Eq, Structural)]
pub struct HdlNidEntry {
    pub seq: u64,
    pub t_ms_since_boot: u64,
    pub nac: u16,
    pub duid: u8,
    pub valid: bool,
    pub n_errors: u8,
    pub sync_distance: u8,
    pub drop_count: u16,
    pub pll_dbg: i16,
    pub sp_dbg: i16,
}

/// What one poll reads.
#[derive(Debug, Clone, Copy, PartialEq, Eq, Structural)]
pub struct LsmTick {
    pub status: LsmStatusSnapshot,
    pub nac: u16,
    pub duid: u8,
    pub drop_count: u16,
    pub pll_dbg: i16,
    pub sp_dbg: i16,
    pub iq_overflow: bool,
    pub iq_last_buffer: u8,
    pub iq_next_addr: u32,
}

/// Values of the last poll.
#[derive(Debug, Clone, Copy, PartialEq, Eq, Structural)]
pub struct LiveValues {
    pub pll_dbg: i16,
    pub sp_dbg: i16,
    pub sync_distance: u8,
    pub bch_busy: bool,
    pub in_nid_window: bool,
    pub dibit_overflow_latched: bool,
    pub iq_overflow_latched: bool,
    pub last_nac: u16,
    pub last_duid: u8,
    pub last_drop_count: u16,
}

/// What a window of polls adds up to.
#[derive(Debug, Clone, Copy, PartialEq, Eq, Structural)]
pub struct Window {
    pub ticks: u32,
    pub pll_min: i16,
    pub pll_max: i16,
    pub sp_min: i16,
    pub sp_max: i16,
    pub sync_dist_best: u8,
    pub bch_busy_ticks: u32,
    pub in_window_ticks: u32,
    pub nid_event_ticks: u32,
    pub dibit_overflow_ticks: u32,
    pub iq_overflow_ticks: u32,
    pub iq_addr_advance: u64,
    pub iq_buf_rolls: u32,
    pub event_count: u32,
    pub valid_count: u32,
}

/// A finished window as it is shown.
#[derive(Debug, Clone, Copy, PartialEq, Eq, Structural)]
pub struct WindowReport {
    pub pll_min: i16,
    pub pll_max: i16,
    pub sp_min: i16,
    pub sp_max: i16,
    pub sync_dist_best: u8,
    pub bch_busy_ticks: u32,
    pub in_window_ticks: u32,
    pub nid_event_ticks: u32,
    pub dibit_overflow_ticks: u32,
    pub iq_overflow_ticks: u32,
    pub iq_kbps: u64,
    pub iq_buf_rolls: u32,
    pub valid_count: u32,
    pub event_count: u32,
}

/// The state that is shown. Times are nanoseconds on one clock.
#[derive(Debug, Clone)]
pub struct HdlLsmRuntime {
    pub started_at: Option<u64>,
    pub last_tick_at: Option<u64>,
    pub live: LiveValues,
    pub last_nid_at: Option<u64>,
    pub last_nid_valid: bool,
    pub last_nid_n_errors: u8,
    pub total_nid_events: u64,
    pub valid_nid_events: u64,
    pub dibit_overflow_ticks: u64,
    pub iq_overflow_ticks: u64,
    /// How many corrected identifiers carried each NAC.
    pub nac_hist: HashMap<u16, u64>,
    /// The last finished window.
    pub window: WindowReport,
    /// The last identifiers, oldest first.
    pub nid_ring: Vec<HdlNidEntry>,
}

/// The state that the polls fold into.
pub struct Heartbeat {
    pub task_start: u64,
    pub last_drop_count: u16,
    pub last_event_log: u64,
    pub last_overflow_log: u64,
    pub last_window_at: u64,
    pub last_iq_next_addr: u32,
    pub last_iq_last_buffer: u8,
    pub window: Window,
    /// Whether an identifier was ever received.
    pub crash_dump_armed: bool,
    /// Whether the dump was made. It is made once.
    pub crash_dump_fired: bool,
}

/// What a poll asks for beyond the bookkeeping.
#[derive(Debug, Clone, Copy, PartialEq, Eq)]
pub struct TickOutcome {
    /// Warn that the IQ ring stalled.
    pub warn_iq_overflow: bool,
    /// Warn that the drop count moved, from and to.
    pub drop_count_moved: Option<(u16, u16)>,
    /// Log the identifier.
    pub log_event: bool,
    /// The window that this poll finished.
    pub finished_window: Option<Window>,
    /// Dump the last identifiers: the chain went silent.
    pub crash_dump: bool,
}

/// The window before its first poll.
pub open spec fn empty_window() -> Window {
    Window {
        ticks: 0,
        pll_min: i16::MAX,
        pll_max: i16::MIN,
        sp_min: i16::MAX,
        sp_max: i16::MIN,
        sync_dist_best: NO_SYNC_DISTANCE,
        bch_busy_ticks: 0,
        in_window_ticks: 0,
        nid_event_ticks: 0,
        dibit_overflow_ticks: 0,
        iq_overflow_ticks: 0,
        iq_addr_advance: 0,
        iq_buf_rolls: 0,
        event_count: 0,
        valid_count: 0,
    }
}

pub open spec fn bumped(n: u32, by: bool) -> u32 {
    if by {
        (n + 1) as u32
    } else {
        n
    }
}

pub open spec fn lesser(a: i16, b: i16) -> i16 {
    if b < a {
        b
    } else {
        a
    }
}

pub open spec fn greater(a: i16, b: i16) -> i16 {
    if b > a {
        b
    } else {
        a
    }
}

/// How far the write address of the IQ ring moved on, modulo 2^32. A move of
/// 64 KiB or more, and the first reading, count for nothing.
pub open spec fn address_advance(previous: u32, current: u32) -> u64 {
    let moved = if current >= previous {
        current - previous
    } else {
        current - previous + 0x1_0000_0000
    };
    if previous != 0 && moved < 0x1_0000 {
        moved as u64
    } else {
        0
    }
}

/// The window with one more poll in it.
pub open spec fn window_after(w: Window, previous_addr: u32, previous_buffer: u8, t: LsmTick) -> Window {
    Window {
        ticks: (w.ticks + 1) as u32,
        pll_min: lesser(w.pll_min, t.pll_dbg),
        pll_max: greater(w.pll_max, t.pll_dbg),
        sp_min: lesser(w.sp_min, t.sp_dbg),
        sp_max: greater(w.sp_max, t.sp_dbg),
        sync_dist_best: if t.status.sync_distance < w.sync_dist_best {
            t.status.sync_distance
        } else {
            w.sync_dist_best
        },
        bch_busy_ticks: bumped(w.bch_busy_ticks, t.status.bch_busy),
        in_window_ticks: bumped(w.in_window_ticks, t.status.in_nid_window),
        nid_event_ticks: bumped(w.nid_event_ticks, t.status.nid_event),
        dibit_overflow_ticks: bumped(w.dibit_overflow_ticks, t.status.dibit_overflow),
        iq_overflow_ticks: bumped(w.iq_overflow_ticks, t.iq_overflow),
        iq_addr_advance: (w.iq_addr_advance + address_advance(previous_addr, t.iq_next_addr))
            as u64,
        iq_buf_rolls: bumped(
            w.iq_buf_rolls,
            t.iq_last_buffer != previous_buffer && previous_buffer != 0xFF,
        ),
        event_count: bumped(w.event_count, t.status.nid_event),
        valid_count: bumped(w.valid_count, t.status.nid_event && t.status.nid_valid),
    }
}

/// No count of a window exceeds its polls.
pub open spec fn window_wf(w: Window) -> bool {
    &&& w.bch_busy_ticks <= w.ticks
    &&& w.in_window_ticks <= w.ticks
    &&& w.nid_event_ticks <= w.ticks
    &&& w.dibit_overflow_ticks <= w.ticks
    &&& w.iq_overflow_ticks <= w.ticks
    &&& w.iq_buf_rolls <= w.ticks
    &&& w.event_count <= w.ticks
    &&& w.valid_count <= w.event_count
    &&& w.iq_addr_advance <= 0x1_0000 * w.ticks
}

/// A finished window as it is shown: an extreme without an observation is
/// zero, and the advance is in KiB.
pub open spec fn report_of(w: Window) -> WindowReport {
    WindowReport {
        pll_min: if w.pll_min == i16::MAX {
            0
        } else {
            w.pll_min
        },
        pll_max: if w.pll_max == i16::MIN {
            0
        } else {
            w.pll_max
        },
        sp_min: if w.sp_min == i16::MAX {
            0
        } else {
            w.sp_min
        },
        sp_max: if w.sp_max == i16::MIN {
            0
        } else {
            w.sp_max
        },
        sync_dist_best: w.sync_dist_best,
        bch_busy_ticks: w.bch_busy_ticks,
        in_window_ticks: w.in_window_ticks,
        nid_event_ticks: w.nid_event_ticks,
        dibit_overflow_ticks: w.dibit_overflow_ticks,
        iq_overflow_ticks: w.iq_overflow_ticks,
        iq_kbps: w.iq_addr_advance / 1024,
        iq_buf_rolls: w.iq_buf_rolls,
        valid_count: w.valid_count,
        event_count: w.event_count,
    }
}

fn fresh_window() -> (w: Window)
    ensures
        w == empty_window(),
        window_wf(w),
{
    Window {
        ticks: 0,
        pll_min: i16::MAX,
        pll_max: i16::MIN,
        sp_min: i16::MAX,
        sp_max: i16::MIN,
        sync_dist_best: NO_SYNC_DISTANCE,
        bch_busy_ticks: 0,
        in_window_ticks: 0,
        nid_event_ticks: 0,
        dibit_overflow_ticks: 0,
        iq_overflow_ticks: 0,
        iq_addr_advance: 0,
        iq_buf_rolls: 0,
        event_count: 0,
        valid_count: 0,
    }
}

fn bump(n: u32, by: bool) -> (r: u32)
    requires
        n < u32::MAX,
    ensures
        r == bumped(n, by),
{
    if by {
        n + 1
    } else {
        n
    }
}

/// The window with one more poll in it.
pub fn fold_tick(w: &Window, previous_addr: u32, previous_buffer: u8, t: &LsmTick) -> (r: Window)
    requires
        window_wf(*w),
        w.ticks < u32::MAX,
    ensures
        r == window_after(*w, previous_addr, previous_buffer, *t),
        window_wf(r),
{
    let moved: u32 = t.iq_next_addr.wrapping_sub(previous_addr);
    let advance: u64 = if previous_addr != 0 && moved < 0x1_0000 {
        moved as u64
    } else {
        0
    };
    assert(advance == address_advance(previous_addr, t.iq_next_addr));
    Window {
        ticks: w.ticks + 1,
        pll_min: if t.pll_dbg < w.pll_min {
            t.pll_dbg
        } else {
            w.pll_min
        },
        pll_max: if t.pll_dbg > w.pll_max {
            t.pll_dbg
        } else {
            w.pll_max
        },
        sp_min: if t.sp_dbg < w.sp_min {
            t.sp_dbg
        } else {
            w.sp_min
        },
        sp_max: if t.sp_dbg > w.sp_max {
            t.sp_dbg
        } else {
            w.sp_max
        },
        sync_dist_best: if t.status.sync_distance < w.sync_dist_best {
            t.status.sync_distance
        } else {
            w.sync_dist_best
        },
        bch_busy_ticks: bump(w.bch_busy_ticks, t.status.bch_busy),
        in_window_ticks: bump(w.in_window_ticks, t.status.in_nid_window),
        nid_event_ticks: bump(w.nid_event_ticks, t.status.nid_event),
        dibit_overflow_ticks: bump(w.dibit_overflow_ticks, t.status.dibit_overflow),
        iq_overflow_ticks: bump(w.iq_overflow_ticks, t.iq_overflow),
        iq_addr_advance: w.iq_addr_advance + advance,
        iq_buf_rolls: bump(
            w.iq_buf_rolls,
            t.iq_last_buffer != previous_buffer && previous_buffer != 0xFF,
        ),
        event_count: bump(w.event_count, t.status.nid_event),
        valid_count: bump(w.valid_count, t.status.nid_event && t.status.nid_valid),
    }
}

/// A finished window as it is shown.
pub fn window_report(w: &Window) -> (r: WindowReport)
    ensures
        r == report_of(*w),
{
    WindowReport {
        pll_min: if w.pll_min == i16::MAX {
            0
        } else {
            w.pll_min
        },
        pll_max: if w.pll_max == i16::MIN {
            0
        } else {
            w.pll_max
        },
        sp_min: if w.sp_min == i16::MAX {
            0
        } else {
            w.sp_min
        },
        sp_max: if w.sp_max == i16::MIN {
            0
        } else {
            w.sp_max
        },
        sync_dist_best: w.sync_dist_best,
        bch_busy_ticks: w.bch_busy_ticks,
        in_window_ticks: w.in_window_ticks,
        nid_event_ticks: w.nid_event_ticks,
        dibit_overflow_ticks: w.dibit_overflow_ticks,
        iq_overflow_ticks: w.iq_overflow_ticks,
        iq_kbps: w.iq_addr_advance / 1024,
        iq_buf_rolls: w.iq_buf_rolls,
        valid_count: w.valid_count,
        event_count: w.event_count,
    }
}

// ---------------------------------------------------------------------------
// The NAC histogram
// ---------------------------------------------------------------------------

/// Whether `a` ranks before `b`: by count, the higher first, then by NAC.
pub open spec fn ranks_before(a: (u16, u64), b: (u16, u64)) -> bool {
    a.1 > b.1 || (a.1 == b.1 && a.0 < b.0)
}

/// Whether `s` lists the entries of a histogram, each once.
pub open spec fn lists(s: Seq<(u16, u64)>, hist: Map<u16, u64>) -> bool {
    &&& s.len() == hist.dom().len()
    &&& forall|i: int|
        0 <= i < s.len() ==> hist.contains_key((#[trigger] s[i]).0) && hist[s[i].0] == s[i].1
    &&& forall|i: int, j: int|
        0 <= i < j < s.len() ==> (#[trigger] s[i]).0 != (#[trigger] s[j]).0
    &&& forall|k: u16| #[trigger] hist.contains_key(k) ==> s.contains((k, hist[k]))
}

/// The `n` entries of a histogram that rank first, in order.
pub open spec fn are_top(s: Seq<(u16, u64)>, hist: Map<u16, u64>, n: nat) -> bool {
    &&& s.len() == if n < hist.dom().len() {
        n
    } else {
        hist.dom().len()
    }
    &&& forall|i: int|
        0 <= i < s.len() ==> hist.contains_key((#[trigger] s[i]).0) && hist[s[i].0] == s[i].1
    &&& forall|i: int, j: int|
        0 <= i < j < s.len() ==> ranks_before(#[trigger] s[i], #[trigger] s[j])
    &&& forall|k: u16, i: int|
        hist.contains_key(k) && !s.contains((k, hist[k])) && 0 <= i < s.len() ==> ranks_before(
            #[trigger] s[i],
            (k, #[trigger] hist[k]),
        )
}

/// The entries of a histogram, each once, in no order in particular.
fn entries_of(hist: &HashMap<u16, u64>) -> (entries: Vec<(u16, u64)>)
    ensures
        lists(entries@, hist@),
{
    let mut entries: Vec<(u16, u64)> = Vec::new();
    let ghost all = vstd::std_specs::hash::spec_hash_map_iter(hist).remaining();
    for e in it: hist.iter()
        invariant
            it.seq() == all,
            all.no_duplicates(),
            entries@.len() == it.index(),
            forall|i: int|
                0 <= i < entries@.len() ==> (#[trigger] entries@[i]) == (*all[i].0, *all[i].1),
    {
        entries.push((*e.0, *e.1));
    }
    proof {
        assert forall|i: int, j: int| 0 <= i < j < entries@.len() implies (#[trigger] entries@[i]).0
            != (#[trigger] entries@[j]).0 by {
            assert(hist@.contains_key(*all[i].0) && hist@[*all[i].0] == *all[i].1);
            assert(hist@.contains_key(*all[j].0) && hist@[*all[j].0] == *all[j].1);
            assert(all[i] != all[j]);
        }
        assert forall|k: u16| #[trigger] hist@.contains_key(k) implies entries@.contains(
            (k, hist@[k]),
        ) by {
            assert(all.contains((&k, &hist@[k])));
            let i = all.index_of((&k, &hist@[k]));
            assert(entries@[i] == (k, hist@[k]));
        }
        assert forall|i: int| 0 <= i < entries@.len() implies hist@.contains_key(
            (#[trigger] entries@[i]).0,
        ) && hist@[entries@[i].0] == entries@[i].1 by {
            assert(hist@.contains_key(*all[i].0) && hist@[*all[i].0] == *all[i].1);
        }
    }
    entries
}

fn rank_key(e: (u16, u64)) -> (key: u128)
    ensures
        key == (u64::MAX - e.1) * 0x1_0000 + e.0,
{
    ((u64::MAX - e.1) as u128) * 0x1_0000 + e.0 as u128
}

/// The `n` entries of a histogram that rank first: by count, the higher first,
/// then by NAC.
pub fn top_entries(hist: &HashMap<u16, u64>, n: usize) -> (top: Vec<(u16, u64)>)
    ensures
        are_top(top@, hist@, n as nat),
{
    let entries: Vec<(u16, u64)> = entries_of(hist);
    let mut keys: Vec<u128> = Vec::new();
    let mut i: usize = 0;
    while i < entries.len()
        invariant
            i <= entries@.len(),
            keys@.len() == i,
            forall|k: int|
                0 <= k < i ==> (#[trigger] keys@[k]) == (u64::MAX - entries@[k].1) * 0x1_0000
                    + entries@[k].0,
        decreases entries@.len() - i,
    {
        keys.push(rank_key(entries[i]));
        i = i + 1;
    }
    let order: Vec<usize> = sorted_order(&keys);
    let mut top: Vec<(u16, u64)> = Vec::new();
    let mut j: usize = 0;
    while j < order.len() && j < n
        invariant
            j <= order@.len(),
            j <= n,
            order@.len() == entries@.len(),
            forall|k: int| 0 <= k < order@.len() ==> (#[trigger] order@[k]) < entries@.len(),
            top@.len() == j,
            forall|k: int| 0 <= k < j ==> (#[trigger] top@[k]) == entries@[order@[k] as int],
        decreases order@.len() - j,
    {
        top.push(entries[order[j]]);
        j = j + 1;
    }
    proof {
        assert forall|a: int, b: int| 0 <= a < b < order@.len() implies ranks_before(
            entries@[#[trigger] order@[a] as int],
            entries@[#[trigger] order@[b] as int],
        ) by {
            assert(crate::sorting::sorts_before(keys@, order@[a], order@[b]));
            let x = entries@[order@[a] as int];
            let y = entries@[order@[b] as int];
            assert(order@[a] != order@[b]);
            assert(x.0 != y.0);
        }
        assert forall|a: int, b: int| 0 <= a < b < top@.len() implies ranks_before(
            #[trigger] top@[a],
            #[trigger] top@[b],
        ) by {
            assert(top@[a] == entries@[order@[a] as int]);
            assert(top@[b] == entries@[order@[b] as int]);
        }
        assert forall|k: u16, a: int|
            hist@.contains_key(k) && !top@.contains((k, hist@[k])) && 0 <= a
                < top@.len() implies ranks_before(#[trigger] top@[a], (k, #[trigger] hist@[k])) by {
            let e = (k, hist@[k]);
            assert(entries@.contains(e));
            let at = entries@.index_of(e) as usize;
            assert(order@.contains(at));
            let b = order@.index_of(at);
            if b < top@.len() {
                assert(top@[b] == e);
            }
            assert(top@[a] == entries@[order@[a] as int]);
            assert(ranks_before(entries@[order@[a] as int], entries@[order@[b] as int]));
        }
        assert forall|a: int| 0 <= a < top@.len() implies hist@.contains_key(
            (#[trigger] top@[a]).0,
        ) && hist@[top@[a].0] == top@[a].1 by {
            assert(top@[a] == entries@[order@[a] as int]);
        }
    }
    top
}

/// The counts of listed entries, added up.
pub open spec fn count_sum(s: Seq<(u16, u64)>) -> nat
    decreases s.len(),
{
    if s.len() == 0 {
        0
    } else {
        count_sum(s.drop_last()) + s.last().1 as nat
    }
}

/// Whether the counts of a histogram add up to `total`.
pub open spec fn hits_add_up(hist: Map<u16, u64>, total: nat) -> bool {
    exists|s: Seq<(u16, u64)>| #[trigger] lists(s, hist) && total == count_sum(s)
}

/// All counts of a histogram added up.
pub fn total_hits(hist: &HashMap<u16, u64>) -> (total: u128)
    ensures
        hits_add_up(hist@, total as nat),
{
    let entries: Vec<(u16, u64)> = entries_of(hist);
    proof {
        lemma_few_nacs(entries@);
    }
    let mut total: u128 = 0;
    let mut i: usize = 0;
    assert(entries@.take(0) =~= Seq::<(u16, u64)>::empty());
    while i < entries.len()
        invariant
            i <= entries@.len(),
            entries@.len() <= 0x1_0000,
            total == count_sum(entries@.take(i as int)),
            total <= i * 0xFFFF_FFFF_FFFF_FFFF,
        decreases entries@.len() - i,
    {
        total = total + entries[i].1 as u128;
        assert(entries@.take(i + 1).drop_last() =~= entries@.take(i as int));
        i = i + 1;
    }
    assert(entries@.take(i as int) =~= entries@);
    total
}

/// There are no more entries than NACs.
proof fn lemma_few_nacs(s: Seq<(u16, u64)>)
    requires
        forall|i: int, j: int|
            0 <= i < j < s.len() ==> (#[trigger] s[i]).0 != (#[trigger] s[j]).0,
    ensures
        s.len() <= 0x1_0000,
{
    let nacs = s.map_values(|e: (u16, u64)| e.0 as int);
    assert(nacs.no_duplicates()) by {
        assert forall|i: int, j: int| 0 <= i < nacs.len() && 0 <= j < nacs.len() && i
            != j implies nacs[i] != nacs[j] by {
            if i < j {
                assert(s[i].0 != s[j].0);
            } else {
                assert(s[j].0 != s[i].0);
            }
        }
    }
    nacs.unique_seq_to_set();
    let range = vstd::set_lib::set_int_range(0, 0x1_0000);
    vstd::set_lib::lemma_int_range(0, 0x1_0000);
    assert(nacs.to_set().subset_of(range)) by {
        assert forall|x: int| nacs.to_set().contains(x) implies range.contains(x) by {
            let i = nacs.index_of(x);
            assert(nacs[i] == x);
        }
    }
    vstd::set_lib::lemma_len_subset(nacs.to_set(), range);
}

// ---------------------------------------------------------------------------
// The poll
// ---------------------------------------------------------------------------

/// The live values of a poll.
pub open spec fn live_of(t: LsmTick) -> LiveValues {
    LiveValues {
        pll_dbg: t.pll_dbg,
        sp_dbg: t.sp_dbg,
        sync_distance: t.status.sync_distance,
        bch_busy: t.status.bch_busy,
        in_nid_window: t.status.in_nid_window,
        dibit_overflow_latched: t.status.dibit_overflow,
        iq_overflow_latched: t.iq_overflow,
        last_nac: t.nac,
        last_duid: t.duid,
        last_drop_count: t.drop_count,
    }
}

/// The identifier that a poll found, as number `seq`.
pub open spec fn entry_of(t: LsmTick, seq: u64, t_ms: u64) -> HdlNidEntry {
    HdlNidEntry {
        seq,
        t_ms_since_boot: t_ms,
        nac: t.nac,
        duid: t.duid,
        valid: t.status.nid_valid,
        n_errors: t.status.n_errors,
        sync_distance: t.status.sync_distance,
        drop_count: t.drop_count,
        pll_dbg: t.pll_dbg,
        sp_dbg: t.sp_dbg,
    }
}

pub open spec fn hits(hist: Map<u16, u64>, nac: u16) -> u64 {
    if hist.contains_key(nac) {
        hist[nac]
    } else {
        0
    }
}

/// What holds between polls: the ring holds the last identifiers, numbered one
/// behind the other; no NAC has more hits than there were corrected
/// identifiers, and all hits together are as many; the dump is armed once an
/// identifier was received.
pub open spec fn tracks(hb: Heartbeat, rt: HdlLsmRuntime) -> bool {
    &&& window_wf(hb.window)
    &&& rt.valid_nid_events <= rt.total_nid_events
    &&& rt.nid_ring@.len() == if rt.total_nid_events < 32 {
        rt.total_nid_events as nat
    } else {
        32
    }
    &&& forall|i: int|
        0 <= i < rt.nid_ring@.len() ==> (#[trigger] rt.nid_ring@[i]).seq == rt.total_nid_events
            - rt.nid_ring@.len() + 1 + i
    &&& forall|k: u16| #[trigger]
        rt.nac_hist@.contains_key(k) ==> rt.nac_hist@[k] <= rt.valid_nid_events
    &&& hits_add_up(rt.nac_hist@, rt.valid_nid_events as nat)
    &&& hb.crash_dump_armed == (rt.total_nid_events > 0)
}

/// No count is at the end of its range.
pub open spec fn has_room(hb: Heartbeat, rt: HdlLsmRuntime) -> bool {
    &&& hb.window.ticks < u32::MAX
    &&& rt.total_nid_events < u64::MAX
    &&& rt.dibit_overflow_ticks < u64::MAX
    &&& rt.iq_overflow_ticks < u64::MAX
}

impl Heartbeat {
    /// A heartbeat that begins at `now`.
    pub fn new(now: u64) -> (hb: Heartbeat)
        ensures
            hb == begun(now),
    {
        Heartbeat {
            task_start: now,
            last_drop_count: 0,
            last_event_log: now,
            last_overflow_log: now,
            last_window_at: now,
            last_iq_next_addr: 0,
            last_iq_last_buffer: 0xFF,
            window: fresh_window(),
            crash_dump_armed: false,
            crash_dump_fired: false,
        }
    }

    /// Fold one poll, made at `now`, into the state.
    pub fn tick(&mut self, rt: &mut HdlLsmRuntime, t: &LsmTick, now: u64) -> (outcome: TickOutcome)
        requires
            tracks(*old(self), *old(rt)),
            has_room(*old(self), *old(rt)),
        ensures
            tracks(*final(self), *final(rt)),
            // The window, and what becomes of a finished one.
            ({
                let w = window_after(
                    old(self).window,
                    old(self).last_iq_next_addr,
                    old(self).last_iq_last_buffer,
                    *t,
                );
                let due = crate::clock::elapsed(old(self).last_window_at, now) >= 1_000_000_000;
                &&& outcome.finished_window == if due {
                    Some(w)
                } else {
                    None
                }
                &&& final(self).window == if due {
                    empty_window()
                } else {
                    w
                }
                &&& final(self).last_window_at == if due {
                    now
                } else {
                    old(self).last_window_at
                }
                &&& final(rt).window == if due {
                    report_of(w)
                } else {
                    old(rt).window
                }
                &&& outcome.crash_dump == (due && old(self).crash_dump_armed
                    && !old(self).crash_dump_fired && w.event_count == 0)
            }),
            final(self).crash_dump_fired == (old(self).crash_dump_fired || outcome.crash_dump),
            // What the poll read.
            final(rt).live == live_of(*t),
            final(rt).last_tick_at == Some(now),
            final(rt).started_at == old(rt).started_at,
            final(self).task_start == old(self).task_start,
            final(self).last_iq_next_addr == t.iq_next_addr,
            final(self).last_iq_last_buffer == t.iq_last_buffer,
            final(rt).dibit_overflow_ticks == old(rt).dibit_overflow_ticks + (if t.status.dibit_overflow {
                1int
            } else {
                0
            }),
            final(rt).iq_overflow_ticks == old(rt).iq_overflow_ticks + (if t.iq_overflow {
                1int
            } else {
                0
            }),
            outcome.warn_iq_overflow == (t.iq_overflow && crate::clock::elapsed(
                old(self).last_overflow_log,
                now,
            ) >= 1_000_000_000),
            final(self).last_overflow_log == if outcome.warn_iq_overflow {
                now
            } else {
                old(self).last_overflow_log
            },
            // The identifier, where there is one.
            t.status.nid_event ==> {
                let seq = (old(rt).total_nid_events + 1) as u64;
                &&& final(rt).total_nid_events == seq
                &&& final(rt).valid_nid_events == old(rt).valid_nid_events + (
                if t.status.nid_valid {
                    1int
                } else {
                    0
                })
                &&& final(rt).nid_ring@ == crate::slices::keep_last(
                    old(rt).nid_ring@.push(
                        entry_of(
                            *t,
                            seq,
                            crate::clock::elapsed(old(self).task_start, now) / 1_000_000,
                        ),
                    ),
                    32,
                )
                &&& final(rt).nac_hist@ == if t.status.nid_valid {
                    old(rt).nac_hist@.insert(t.nac, (hits(old(rt).nac_hist@, t.nac) + 1) as u64)
                } else {
                    old(rt).nac_hist@
                }
                &&& final(rt).last_nid_at == Some(now)
                &&& final(rt).last_nid_valid == t.status.nid_valid
                &&& final(rt).last_nid_n_errors == t.status.n_errors
                &&& final(self).last_drop_count == t.drop_count
                &&& outcome.drop_count_moved == if t.drop_count != old(self).last_drop_count {
                    Some((old(self).last_drop_count, t.drop_count))
                } else {
                    None
                }
                &&& outcome.log_event == (seq <= 10 || crate::clock::elapsed(
                    old(self).last_event_log,
                    now,
                ) >= 200_000_000)
                &&& final(self).last_event_log == if outcome.log_event {
                    now
                } else {
                    old(self).last_event_log
                }
            },
            !t.status.nid_event ==> {
                &&& final(rt).total_nid_events == old(rt).total_nid_events
                &&& final(rt).valid_nid_events == old(rt).valid_nid_events
                &&& final(rt).nid_ring@ == old(rt).nid_ring@
                &&& final(rt).nac_hist@ == old(rt).nac_hist@
                &&& final(rt).last_nid_at == old(rt).last_nid_at
                &&& final(rt).last_nid_valid == old(rt).last_nid_valid
                &&& final(rt).last_nid_n_errors == old(rt).last_nid_n_errors
                &&& final(self).last_drop_count == old(self).last_drop_count
                &&& outcome.drop_count_moved is None
                &&& !outcome.log_event
                &&& final(self).last_event_log == old(self).last_event_log
            },
    {
        self.window = fold_tick(
            &self.window,
            self.last_iq_next_addr,
            self.last_iq_last_buffer,
            t,
        );
        self.last_iq_next_addr = t.iq_next_addr;
        self.last_iq_last_buffer = t.iq_last_buffer;
        let warn_iq_overflow: bool = t.iq_overflow && elapsed_ns(self.last_overflow_log, now)
            >= WINDOW_NS;
        if warn_iq_overflow {
            self.last_overflow_log = now;
        }
        rt.last_tick_at = Some(now);
        rt.live = LiveValues {
            pll_dbg: t.pll_dbg,
            sp_dbg: t.sp_dbg,
            sync_distance: t.status.sync_distance,
            bch_busy: t.status.bch_busy,
            in_nid_window: t.status.in_nid_window,
            dibit_overflow_latched: t.status.dibit_overflow,
            iq_overflow_latched: t.iq_overflow,
            last_nac: t.nac,
            last_duid: t.duid,
            last_drop_count: t.drop_count,
        };
        if t.status.dibit_overflow {
            rt.dibit_overflow_ticks = rt.dibit_overflow_ticks + 1;
        }
        if t.iq_overflow {
            rt.iq_overflow_ticks = rt.iq_overflow_ticks + 1;
        }
        let mut drop_count_moved: Option<(u16, u16)> = None;
        let mut log_event: bool = false;
        if t.status.nid_event {
            let t_ms: u64 = elapsed_ms(self.task_start, now);
            record_nid(rt, t, t_ms, now);
            self.crash_dump_armed = true;
            if t.drop_count != self.last_drop_count {
                drop_count_moved = Some((self.last_drop_count, t.drop_count));
                self.last_drop_count = t.drop_count;
            }
            log_event = rt.total_nid_events <= 10 || elapsed_ns(self.last_event_log, now)
                >= EVENT_LOG_NS;
            if log_event {
                self.last_event_log = now;
            }
        }
        let mut finished_window: Option<Window> = None;
        let mut crash_dump: bool = false;
        if elapsed_ns(self.last_window_at, now) >= WINDOW_NS {
            finished_window = Some(self.window);
            if self.crash_dump_armed && !self.crash_dump_fired && self.window.event_count == 0 {
                self.crash_dump_fired = true;
                crash_dump = true;
            }
            rt.window = window_report(&self.window);
            self.window = fresh_window();
            self.last_window_at = now;
        }
        TickOutcome { warn_iq_overflow, drop_count_moved, log_event, finished_window, crash_dump }
    }
}

/// Record the identifier that a poll found.
fn record_nid(rt: &mut HdlLsmRuntime, t: &LsmTick, t_ms: u64, now: u64)
    requires
        old(rt).total_nid_events < u64::MAX,
        old(rt).valid_nid_events <= old(rt).total_nid_events,
        old(rt).nid_ring@.len() == if old(rt).total_nid_events < 32 {
            old(rt).total_nid_events as nat
        } else {
            32
        },
        forall|i: int|
            0 <= i < old(rt).nid_ring@.len() ==> (#[trigger] old(rt).nid_ring@[i]).seq == old(rt).total_nid_events - old(rt).nid_ring@.len() + 1 + i,
        forall|k: u16| #[trigger]
            old(rt).nac_hist@.contains_key(k) ==> old(rt).nac_hist@[k] <= old(rt).valid_nid_events,
        hits_add_up(old(rt).nac_hist@, old(rt).valid_nid_events as nat),
    ensures
        final(rt).total_nid_events == old(rt).total_nid_events + 1,
        final(rt).valid_nid_events == old(rt).valid_nid_events + (if t.status.nid_valid {
            1int
        } else {
            0
        }),
        final(rt).nid_ring@ == crate::slices::keep_last(
            old(rt).nid_ring@.push(entry_of(*t, final(rt).total_nid_events, t_ms)),
            32,
        ),
        final(rt).nac_hist@ == if t.status.nid_valid {
            old(rt).nac_hist@.insert(t.nac, (hits(old(rt).nac_hist@, t.nac) + 1) as u64)
        } else {
            old(rt).nac_hist@
        },
        forall|i: int|
            0 <= i < final(rt).nid_ring@.len() ==> (#[trigger] final(rt).nid_ring@[i]).seq == final(rt).total_nid_events - final(rt).nid_ring@.len() + 1 + i,
        forall|k: u16| #[trigger]
            final(rt).nac_hist@.contains_key(k) ==> final(rt).nac_hist@[k]
                <= final(rt).valid_nid_events,
        hits_add_up(final(rt).nac_hist@, final(rt).valid_nid_events as nat),
        final(rt).last_nid_at == Some(now),
        final(rt).last_nid_valid == t.status.nid_valid,
        final(rt).last_nid_n_errors == t.status.n_errors,
        final(rt).started_at == old(rt).started_at,
        final(rt).last_tick_at == old(rt).last_tick_at,
        final(rt).live == old(rt).live,
        final(rt).dibit_overflow_ticks == old(rt).dibit_overflow_ticks,
        final(rt).iq_overflow_ticks == old(rt).iq_overflow_ticks,
        final(rt).window == old(rt).window,
{
    rt.total_nid_events = rt.total_nid_events + 1;
    let entry = HdlNidEntry {
        seq: rt.total_nid_events,
        t_ms_since_boot: t_ms,
        nac: t.nac,
        duid: t.duid,
        valid: t.status.nid_valid,
        n_errors: t.status.n_errors,
        sync_distance: t.status.sync_distance,
        drop_count: t.drop_count,
        pll_dbg: t.pll_dbg,
        sp_dbg: t.sp_dbg,
    };
    let ghost ring = rt.nid_ring@;
    push_bounded(&mut rt.nid_ring, entry, NID_RING_DEPTH);
    rt.last_nid_at = Some(now);
    rt.last_nid_valid = t.status.nid_valid;
    rt.last_nid_n_errors = t.status.n_errors;
    if t.status.nid_valid {
        rt.valid_nid_events = rt.valid_nid_events + 1;
        let seen: u64 = match rt.nac_hist.get(&t.nac) {
            Some(n) => *n,
            None => 0,
        };
        proof {
            lemma_hit_adds_up(rt.nac_hist@, t.nac, (rt.valid_nid_events - 1) as nat);
        }
        rt.nac_hist.insert(t.nac, seen + 1);
    }
    proof {
        let n = rt.nid_ring@.len() as int;
        assert forall|i: int| 0 <= i < n implies (#[trigger] rt.nid_ring@[i]).seq
            == rt.total_nid_events - n + 1 + i by {
            if i < n - 1 {
                let k = if ring.len() < 32 {
                    i
                } else {
                    i + 1
                };
                assert(rt.nid_ring@[i] == ring[k]);
            }
        }
    }
}

/// One more hit of a NAC is one more in total.
proof fn lemma_hit_adds_up(hist: Map<u16, u64>, nac: u16, total: nat)
    requires
        hits_add_up(hist, total),
        hits(hist, nac) < u64::MAX,
    ensures
        hits_add_up(hist.insert(nac, (hits(hist, nac) + 1) as u64), total + 1),
{
    let before = choose|s: Seq<(u16, u64)>| #[trigger] lists(s, hist) && total == count_sum(s);
    lemma_listed_is_finite(before, hist);
    let grown = hist.insert(nac, (hits(hist, nac) + 1) as u64);
    let i = before.index_of((nac, hist[nac]));
    let after = if hist.contains_key(nac) {
        before.update(i, (nac, grown[nac]))
    } else {
        before.push((nac, grown[nac]))
    };
    if hist.contains_key(nac) {
        assert(before[i] == (nac, hist[nac]));
        assert(grown.dom() =~= hist.dom());
    } else {
        assert(grown.dom() =~= hist.dom().insert(nac));
    }
    assert forall|k: u16| #[trigger] grown.contains_key(k) implies after.contains(
        (k, grown[k]),
    ) by {
        if k == nac {
            assert(after[if hist.contains_key(nac) {
                i
            } else {
                after.len() - 1
            }] == (k, grown[k]));
        } else {
            assert(hist.contains_key(k));
            let at = before.index_of((k, hist[k]));
            assert(before[at] == (k, hist[k]));
            assert(after[at] == (k, grown[k]));
        }
    }
    assert(lists(after, grown));
    a_hit_adds_one(before, after, hist, nac);
}

impl HdlLsmRuntime {
    /// Nothing polled yet.
    pub fn new() -> (rt: HdlLsmRuntime)
        ensures
            rt.started_at is None,
            rt.last_tick_at is None,
            rt.last_nid_at is None,
            !rt.last_nid_valid,
            rt.last_nid_n_errors == 0,
            rt.total_nid_events == 0,
            rt.valid_nid_events == 0,
            rt.dibit_overflow_ticks == 0,
            rt.iq_overflow_ticks == 0,
            rt.nac_hist@ == Map::<u16, u64>::empty(),
            rt.nid_ring@ == Seq::<HdlNidEntry>::empty(),
            rt.live == (LiveValues {
                pll_dbg: 0,
                sp_dbg: 0,
                sync_distance: 0,
                bch_busy: false,
                in_nid_window: false,
                dibit_overflow_latched: false,
                iq_overflow_latched: false,
                last_nac: 0,
                last_duid: 0,
                last_drop_count: 0,
            }),
            rt.window == (WindowReport {
                pll_min: 0,
                pll_max: 0,
                sp_min: 0,
                sp_max: 0,
                sync_dist_best: 0,
                bch_busy_ticks: 0,
                in_window_ticks: 0,
                nid_event_ticks: 0,
                dibit_overflow_ticks: 0,
                iq_overflow_ticks: 0,
                iq_kbps: 0,
                iq_buf_rolls: 0,
                valid_count: 0,
                event_count: 0,
            }),
            forall|now: u64| tracks(#[trigger] begun(now), rt),
    {
        proof {
            assert(lists(Seq::empty(), Map::empty()));
        }
        HdlLsmRuntime {
            started_at: None,
            last_tick_at: None,
            live: LiveValues {
                pll_dbg: 0,
                sp_dbg: 0,
                sync_distance: 0,
                bch_busy: false,
                in_nid_window: false,
                dibit_overflow_latched: false,
                iq_overflow_latched: false,
                last_nac: 0,
                last_duid: 0,
                last_drop_count: 0,
            },
            last_nid_at: None,
            last_nid_valid: false,
            last_nid_n_errors: 0,
            total_nid_events: 0,
            valid_nid_events: 0,
            dibit_overflow_ticks: 0,
            iq_overflow_ticks: 0,
            nac_hist: HashMap::new(),
            window: WindowReport {
                pll_min: 0,
                pll_max: 0,
                sp_min: 0,
                sp_max: 0,
                sync_dist_best: 0,
                bch_busy_ticks: 0,
                in_window_ticks: 0,
                nid_event_ticks: 0,
                dibit_overflow_ticks: 0,
                iq_overflow_ticks: 0,
                iq_kbps: 0,
                iq_buf_rolls: 0,
                valid_count: 0,
                event_count: 0,
            },
            nid_ring: Vec::new(),
        }
    }

    /// The `n` NACs with the most hits: by count, the higher first, then by
    /// NAC.
    pub fn top_nacs(&self, n: usize) -> (top: Vec<(u16, u64)>)
        ensures
            are_top(top@, self.nac_hist@, n as nat),
    {
        top_entries(&self.nac_hist, n)
    }

    /// The NAC with the most hits, or dashes when there is none.
    pub fn winner_nac(&self) -> (nac: String)
        ensures
            self.nac_hist@.dom().len() == 0 ==> nac@ == "--"@,
            self.nac_hist@.dom().len() > 0 ==> exists|top: Seq<(u16, u64)>| #[trigger]
                are_top(top, self.nac_hist@, 1) && nac@ == nac_text(top[0].0),
    {
        let top: Vec<(u16, u64)> = self.top_nacs(1);
        if top.len() == 0 {
            "--".to_owned()
        } else {
            prefixed_hex(top[0].0 as u64, 3)
        }
    }

    /// The state as it is shown at `now`.
    pub fn report(&self, now: u64) -> (r: HdlLsmReport)
        ensures
            r.running == (self.started_at is Some),
            r.uptime_secs == match self.started_at {
                Some(t) => crate::clock::elapsed(t, now) / 1_000_000_000,
                None => 0,
            },
            r.last_tick_ms_ago == match self.last_tick_at {
                Some(t) => Some(crate::clock::elapsed(t, now) / 1_000_000),
                None => None,
            },
            r.last_nid_ms_ago == match self.last_nid_at {
                Some(t) => Some(crate::clock::elapsed(t, now) / 1_000_000),
                None => None,
            },
            r.last_nac@ == nac_text(self.live.last_nac),
            hits_add_up(self.nac_hist@, r.total_nac_hits as nat),
            exists|top: Seq<(u16, u64)>| #[trigger]
                are_top(top, self.nac_hist@, 10) && shows(r.top_nacs@, top),
    {
        let top: Vec<(u16, u64)> = self.top_nacs(10);
        let mut shown: Vec<NacCount> = Vec::new();
        let mut i: usize = 0;
        while i < top.len()
            invariant
                i <= top@.len(),
                shows(shown@, top@.take(i as int)),
            decreases top@.len() - i,
        {
            let ghost before = shown@;
            shown.push(NacCount { nac: prefixed_hex(top[i].0 as u64, 3), count: top[i].1 });
            i = i + 1;
            assert forall|k: int| 0 <= k < shown@.len() implies (#[trigger] shown@[k]).nac@
                == nac_text(top@.take(i as int)[k].0) && shown@[k].count == top@.take(
                i as int,
            )[k].1 by {
                if k < before.len() {
                    assert(shown@[k] == before[k]);
                }
            }
        }
        assert(top@.take(i as int) =~= top@);
        HdlLsmReport {
            running: self.started_at.is_some(),
            uptime_secs: uptime_secs(self.started_at, now),
            last_tick_ms_ago: ms_ago(self.last_tick_at, now),
            last_nid_ms_ago: ms_ago(self.last_nid_at, now),
            last_nac: prefixed_hex(self.live.last_nac as u64, 3),
            total_nac_hits: total_hits(&self.nac_hist),
            top_nacs: shown,
        }
    }
}

/// A heartbeat that begins at `now`.
pub open spec fn begun(now: u64) -> Heartbeat {
    Heartbeat {
        task_start: now,
        last_drop_count: 0,
        last_event_log: now,
        last_overflow_log: now,
        last_window_at: now,
        last_iq_next_addr: 0,
        last_iq_last_buffer: 0xFF,
        window: empty_window(),
        crash_dump_armed: false,
        crash_dump_fired: false,
    }
}

/// A NAC as it is shown: `0x` and three hexadecimal digits or more.
pub open spec fn nac_text(nac: u16) -> Seq<char> {
    seq!['0', 'x'] + crate::text::zero_padded(crate::text::upper_hex(nac as nat), 3)
}

/// One NAC and its hits as they are shown.
pub struct NacCount {
    pub nac: String,
    pub count: u64,
}

/// Whether `shown` shows the entries.
pub open spec fn shows(shown: Seq<NacCount>, entries: Seq<(u16, u64)>) -> bool {
    &&& shown.len() == entries.len()
    &&& forall|i: int|
        0 <= i < shown.len() ==> (#[trigger] shown[i]).nac@ == nac_text(entries[i].0)
            && shown[i].count == entries[i].1
}

/// What is shown beside the live values, the totals, the window and the ring.
/// A share is a count over the total hits, zero when there are none.
pub struct HdlLsmReport {
    pub running: bool,
    pub uptime_secs: u64,
    pub last_tick_ms_ago: Option<u64>,
    pub last_nid_ms_ago: Option<u64>,
    pub last_nac: String,
    pub total_nac_hits: u128,
    pub top_nacs: Vec<NacCount>,
}

/// The first entries are determined: two rankings of the same histogram agree
/// place by place.
pub proof fn ranking_is_unique(
    a: Seq<(u16, u64)>,
    b: Seq<(u16, u64)>,
    hist: Map<u16, u64>,
    n: nat,
    i: int,
)
    requires
        are_top(a, hist, n),
        are_top(b, hist, n),
        0 <= i < a.len(),
    ensures
        a[i] == b[i],
    decreases i,
{
    assert forall|k: int| 0 <= k < i implies a[k] == b[k] by {
        ranking_is_unique(a, b, hist, n, k);
    }
    assert(a[i] == (a[i].0, hist[a[i].0]));
    assert(b[i] == (b[i].0, hist[b[i].0]));
    if a[i] != b[i] {
        // Each would have to rank before the other.
        if b.contains((a[i].0, hist[a[i].0])) {
            let q = b.index_of(a[i]);
            if q < i {
                assert(a[q] == a[i]);
                assert(ranks_before(a[q], a[i]));
            }
            assert(ranks_before(b[i], b[q]));
        } else {
            assert(ranks_before(b[i], (a[i].0, hist[a[i].0])));
        }
        if a.contains((b[i].0, hist[b[i].0])) {
            let p = a.index_of(b[i]);
            if p < i {
                assert(b[p] == b[i]);
                assert(ranks_before(b[p], b[i]));
            }
            assert(ranks_before(a[i], a[p]));
        } else {
            assert(ranks_before(a[i], (b[i].0, hist[b[i].0])));
        }
    }
}

/// The histogram that a listing lists has finitely many NACs.
proof fn lemma_listed_is_finite(s: Seq<(u16, u64)>, hist: Map<u16, u64>)
    requires
        lists(s, hist),
    ensures
        hist.dom().finite(),
{
    let nacs = s.map_values(|e: (u16, u64)| e.0);
    assert(nacs.to_set() =~= hist.dom()) by {
        assert forall|k: u16| nacs.to_set().contains(k) implies hist.dom().contains(k) by {
            let i = nacs.index_of(k);
            assert(s[i].0 == k);
        }
        assert forall|k: u16| hist.dom().contains(k) implies nacs.to_set().contains(k) by {
            assert(hist.contains_key(k));
            let i = s.index_of((k, hist[k]));
            assert(nacs[i] == k);
        }
    }
    vstd::seq_lib::seq_to_set_is_finite(nacs);
}

/// Taking one entry out of a listing takes its count out of the sum.
proof fn lemma_sum_without(s: Seq<(u16, u64)>, i: int)
    requires
        0 <= i < s.len(),
    ensures
        count_sum(s) == count_sum(s.remove(i)) + s[i].1,
    decreases s.len(),
{
    if i == s.len() - 1 {
        assert(s.remove(i) =~= s.drop_last());
    } else {
        lemma_sum_without(s.drop_last(), i);
        assert(s.remove(i).drop_last() =~= s.drop_last().remove(i));
    }
}

/// A listing without one of its entries lists the histogram without that NAC.
proof fn lemma_lists_without(s: Seq<(u16, u64)>, hist: Map<u16, u64>, i: int)
    requires
        lists(s, hist),
        0 <= i < s.len(),
    ensures
        lists(s.remove(i), hist.remove(s[i].0)),
{
    lemma_listed_is_finite(s, hist);
    let rest = s.remove(i);
    let left = hist.remove(s[i].0);
    assert(left.dom() =~= hist.dom().remove(s[i].0));
    assert forall|k: u16| #[trigger] left.contains_key(k) implies rest.contains(
        (k, left[k]),
    ) by {
        assert(hist.contains_key(k));
        let at = s.index_of((k, hist[k]));
        assert(s[at] == (k, hist[k]));
        if at < i {
            assert(rest[at] == s[at]);
        } else {
            assert(rest[at - 1] == s[at]);
        }
    }
}

/// A histogram has one total: whatever order its entries are listed in, their
/// counts add up to the same number.
pub proof fn total_is_unique(a: Seq<(u16, u64)>, b: Seq<(u16, u64)>, hist: Map<u16, u64>)
    requires
        lists(a, hist),
        lists(b, hist),
    ensures
        count_sum(a) == count_sum(b),
    decreases a.len(),
{
    if a.len() > 0 {
        let i = a.len() - 1;
        let e = a[i];
        assert(hist.contains_key(e.0));
        let j = b.index_of(e);
        assert(b[j] == e);
        lemma_lists_without(a, hist, i);
        lemma_lists_without(b, hist, j);
        lemma_sum_without(a, i);
        lemma_sum_without(b, j);
        total_is_unique(a.remove(i), b.remove(j), hist.remove(e.0));
    }
}

/// One more hit of a NAC adds one to the total.
pub proof fn a_hit_adds_one(
    before: Seq<(u16, u64)>,
    after: Seq<(u16, u64)>,
    hist: Map<u16, u64>,
    nac: u16,
)
    requires
        lists(before, hist),
        hits(hist, nac) < u64::MAX,
        lists(after, hist.insert(nac, (hits(hist, nac) + 1) as u64)),
    ensures
        count_sum(after) == count_sum(before) + 1,
{
    let grown = hist.insert(nac, (hits(hist, nac) + 1) as u64);
    assert(grown.contains_key(nac));
    let j = after.index_of((nac, grown[nac]));
    assert(after[j] == (nac, grown[nac]));
    lemma_lists_without(after, grown, j);
    lemma_sum_without(after, j);
    assert(grown.remove(nac) =~= hist.remove(nac));
    if hist.contains_key(nac) {
        let i = before.index_of((nac, hist[nac]));
        assert(before[i] == (nac, hist[nac]));
        lemma_lists_without(before, hist, i);
        lemma_sum_without(before, i);
        total_is_unique(before.remove(i), after.remove(j), hist.remove(nac));
    } else {
        assert(hist.remove(nac) =~= hist);
        total_is_unique(before, after.remove(j), hist);
    }
}

/// All hits together are as many as there were corrected identifiers.
pub proof fn hits_are_the_corrected_identifiers(hb: Heartbeat, rt: HdlLsmRuntime, total: nat)
    requires
        tracks(hb, rt),
        hits_add_up(rt.nac_hist@, total),
    ensures
        total == rt.valid_nid_events,
{
    let a = choose|s: Seq<(u16, u64)>| #[trigger]
        lists(s, rt.nac_hist@) && rt.valid_nid_events == count_sum(s);
    let b = choose|s: Seq<(u16, u64)>| #[trigger]
        lists(s, rt.nac_hist@) && total == count_sum(s);
    total_is_unique(a, b, rt.nac_hist@);
}

/// A window holds the extremes of what its polls read: each poll is within them,
/// and an extreme that moved is what the poll read.
pub proof fn windows_hold_the_extremes(w: Window, addr: u32, buffer: u8, t: LsmTick)
    ensures
        ({
            let r = window_after(w, addr, buffer, t);
            &&& r.pll_min <= t.pll_dbg <= r.pll_max
            &&& r.sp_min <= t.sp_dbg <= r.sp_max
            &&& r.pll_min <= w.pll_min && (r.pll_min == w.pll_min || r.pll_min == t.pll_dbg)
            &&& r.pll_max >= w.pll_max && (r.pll_max == w.pll_max || r.pll_max == t.pll_dbg)
            &&& r.sp_min <= w.sp_min && (r.sp_min == w.sp_min || r.sp_min == t.sp_dbg)
            &&& r.sp_max >= w.sp_max && (r.sp_max == w.sp_max || r.sp_max == t.sp_dbg)
            &&& r.sync_dist_best <= t.status.sync_distance
            &&& r.sync_dist_best <= w.sync_dist_best
            &&& r.sync_dist_best == w.sync_dist_best || r.sync_dist_best == t.status.sync_distance
        }),
{
}

/// A poll counts once, and once more for each thing that it found.
pub proof fn windows_count_what_polls_find(w: Window, addr: u32, buffer: u8, t: LsmTick)
    requires
        window_wf(w),
        w.ticks < u32::MAX,
    ensures
        ({
            let r = window_after(w, addr, buffer, t);
            let one = |b: bool| if b {
                1int
            } else {
                0int
            };
            &&& r.ticks == w.ticks + 1
            &&& r.bch_busy_ticks == w.bch_busy_ticks + one(t.status.bch_busy)
            &&& r.in_window_ticks == w.in_window_ticks + one(t.status.in_nid_window)
            &&& r.nid_event_ticks == w.nid_event_ticks + one(t.status.nid_event)
            &&& r.event_count == w.event_count + one(t.status.nid_event)
            &&& r.valid_count == w.valid_count + one(t.status.nid_event && t.status.nid_valid)
            &&& r.dibit_overflow_ticks == w.dibit_overflow_ticks + one(t.status.dibit_overflow)
            &&& r.iq_overflow_ticks == w.iq_overflow_ticks + one(t.iq_overflow)
            &&& r.iq_buf_rolls == w.iq_buf_rolls + one(
                buffer != 0xFF && t.iq_last_buffer != buffer,
            )
        }),
{
}

/// The way that the IQ ring's address went is added up modulo 2^32; the first
/// reading and a way of 64 KiB or more are left out.
pub proof fn windows_add_up_the_way(w: Window, addr: u32, buffer: u8, t: LsmTick, moved: int)
    requires
        window_wf(w),
        w.ticks < u32::MAX,
        0 <= moved < 0x1_0000_0000,
        (t.iq_next_addr - addr - moved) % 0x1_0000_0000 == 0,
    ensures
        addr != 0 && moved < 0x1_0000 ==> window_after(w, addr, buffer, t).iq_addr_advance
            == w.iq_addr_advance + moved,
        addr == 0 || moved >= 0x1_0000 ==> window_after(w, addr, buffer, t).iq_addr_advance
            == w.iq_addr_advance,
{
}

/// Before its first poll a window has counted nothing, and any poll sets its
/// extremes.
pub proof fn windows_begin_empty(t: LsmTick, addr: u32, buffer: u8)
    ensures
        empty_window().ticks == 0,
        empty_window().event_count == 0,
        empty_window().valid_count == 0,
        empty_window().bch_busy_ticks == 0,
        empty_window().in_window_ticks == 0,
        empty_window().nid_event_ticks == 0,
        empty_window().dibit_overflow_ticks == 0,
        empty_window().iq_overflow_ticks == 0,
        empty_window().iq_addr_advance == 0,
        empty_window().iq_buf_rolls == 0,
        empty_window().sync_dist_best == 99,
        window_after(empty_window(), addr, buffer, t).pll_min == t.pll_dbg,
        window_after(empty_window(), addr, buffer, t).pll_max == t.pll_dbg,
        window_after(empty_window(), addr, buffer, t).sp_min == t.sp_dbg,
        window_after(empty_window(), addr, buffer, t).sp_max == t.sp_dbg,
{
}

/// A finished window is shown as it is, the way in whole KiB, and an extreme that
/// no poll set as zero.
pub proof fn windows_are_shown_as_they_are(w: Window)
    ensures
        ({
            let r = report_of(w);
            &&& w.pll_min != i16::MAX ==> r.pll_min == w.pll_min
            &&& w.pll_max != i16::MIN ==> r.pll_max == w.pll_max
            &&& w.sp_min != i16::MAX ==> r.sp_min == w.sp_min
            &&& w.sp_max != i16::MIN ==> r.sp_max == w.sp_max
            &&& w.pll_min == i16::MAX ==> r.pll_min == 0
            &&& w.pll_max == i16::MIN ==> r.pll_max == 0
            &&& w.sp_min == i16::MAX ==> r.sp_min == 0
            &&& w.sp_max == i16::MIN ==> r.sp_max == 0
            &&& r.sync_dist_best == w.sync_dist_best
            &&& r.bch_busy_ticks == w.bch_busy_ticks
            &&& r.in_window_ticks == w.in_window_ticks
            &&& r.nid_event_ticks == w.nid_event_ticks
            &&& r.dibit_overflow_ticks == w.dibit_overflow_ticks
            &&& r.iq_overflow_ticks == w.iq_overflow_ticks
            &&& r.iq_buf_rolls == w.iq_buf_rolls
            &&& r.valid_count == w.valid_count
            &&& r.event_count == w.event_count
            &&& 1024 * r.iq_kbps <= w.iq_addr_advance < 1024 * (r.iq_kbps + 1)
        }),
{
}

/// The live values and the record of an identifier are what the poll read.
pub proof fn polls_are_recorded_as_read(t: LsmTick, seq: u64, t_ms: u64)
    ensures
        ({
            let l = live_of(t);
            &&& l.pll_dbg == t.pll_dbg && l.sp_dbg == t.sp_dbg
            &&& l.sync_distance == t.status.sync_distance
            &&& l.bch_busy == t.status.bch_busy && l.in_nid_window == t.status.in_nid_window
            &&& l.dibit_overflow_latched == t.status.dibit_overflow
            &&& l.iq_overflow_latched == t.iq_overflow
            &&& l.last_nac == t.nac && l.last_duid == t.duid && l.last_drop_count == t.drop_count
        }),
        ({
            let e = entry_of(t, seq, t_ms);
            &&& e.seq == seq && e.t_ms_since_boot == t_ms
            &&& e.nac == t.nac && e.duid == t.duid
            &&& e.valid == t.status.nid_valid && e.n_errors == t.status.n_errors
            &&& e.sync_distance == t.status.sync_distance && e.drop_count == t.drop_count
            &&& e.pll_dbg == t.pll_dbg && e.sp_dbg == t.sp_dbg
        }),
{
}

/// A NAC that was never heard has no hits.
pub proof fn hits_are_counted_by_nac(hist: Map<u16, u64>, nac: u16, n: u64)
    ensures
        !hist.contains_key(nac) ==> hits(hist, nac) == 0,
        hits(hist.insert(nac, n), nac) == n,
{
}

/// In the ranking more hits come first, and of as many the lower NAC; whatever is
/// left out has no more hits than anything that is shown.
pub proof fn ranking_is_by_hits(s: Seq<(u16, u64)>, hist: Map<u16, u64>, n: nat, i: int, nac: u16)
    requires
        are_top(s, hist, n),
        0 <= i < s.len(),
        hist.contains_key(nac),
    ensures
        s.len() <= n,
        s.len() < n ==> s.len() == hist.dom().len(),
        hist.contains_key(s[i].0) && hist[s[i].0] == s[i].1,
        i > 0 ==> s[i - 1].1 > s[i].1 || (s[i - 1].1 == s[i].1 && s[i - 1].0 < s[i].0),
        !s.contains((nac, hist[nac])) ==> hist[nac] < s[i].1 || (hist[nac] == s[i].1 && s[i].0
            < nac),
{
    if i > 0 {
        assert(ranks_before(s[i - 1], s[i]));
    }
    if !s.contains((nac, hist[nac])) {
        assert(ranks_before(s[i], (nac, hist[nac])));
    }
}

/// A NAC is shown in three hexadecimal digits or more behind the prefix, which
/// denote it.
pub proof fn nacs_are_shown_in_hexadecimal(nac: u16)
    ensures
        nac_text(nac).len() >= 5,
        nac_text(nac)[0] == '0',
        nac_text(nac)[1] == 'x',
        crate::text::hex_value(nac_text(nac).skip(2)) == nac,
{
    crate::text::hexadecimal_denotes_the_number(nac as nat, 3);
    assert(nac_text(nac).skip(2) =~= crate::text::zero_padded(
        crate::text::upper_hex(nac as nat),
        3,
    ));
}

/// A heartbeat begins at its time, with nothing seen: the first poll moves the
/// ring's address by nothing, counts as no roll of it, and there is nothing to
/// dump.
pub proof fn heartbeats_begin_with_nothing_seen(now: u64, t: LsmTick)
    ensures
        begun(now).task_start == now,
        begun(now).last_window_at == now,
        begun(now).last_event_log == now,
        begun(now).last_overflow_log == now,
        begun(now).last_drop_count == 0,
        !begun(now).crash_dump_armed,
        !begun(now).crash_dump_fired,
        ({
            let w = window_after(
                begun(now).window,
                begun(now).last_iq_next_addr,
                begun(now).last_iq_last_buffer,
                t,
            );
            &&& w.ticks == 1
            &&& w.iq_addr_advance == 0
            &&& w.iq_buf_rolls == 0
            &&& w.pll_min == t.pll_dbg && w.pll_max == t.pll_dbg
        }),
{
}

/// A ranking is full: as many NACs as asked for, or all there are, and none
/// twice.
pub proof fn rankings_are_full(s: Seq<(u16, u64)>, hist: Map<u16, u64>, n: nat, i: int, j: int)
    requires
        are_top(s, hist, n),
    ensures
        n <= hist.dom().len() ==> s.len() == n,
        hist.dom().len() <= n ==> s.len() == hist.dom().len(),
        0 <= i < j < s.len() ==> s[i].0 != s[j].0,
{
    if 0 <= i < j < s.len() {
        assert(ranks_before(s[i], s[j]));
    }
}

} // verus!
