use p25_httpd::dibits::{buffer_words, tally_buffers, DibitHistogram, ReaderTotals};
use p25_httpd::fpga::ip_core::LsmStatusSnapshot;
use p25_httpd::runtime::{total_hits, window_report, Heartbeat, HdlLsmRuntime, LsmTick};

fn tick(nid_event: bool, nid_valid: bool, nac: u16) -> LsmTick {
    LsmTick {
        status: LsmStatusSnapshot {
            bch_busy: true,
            in_nid_window: false,
            nid_event,
            nid_valid,
            n_errors: 2,
            sync_distance: 1,
            dibit_overflow: false,
        },
        nac,
        duid: 7,
        drop_count: 0,
        pll_dbg: -5,
        sp_dbg: 9,
        iq_overflow: false,
        iq_last_buffer: 0xFF,
        iq_next_addr: 0,
    }
}

#[test]
fn heartbeat_counts_events() {
    let mut rt = HdlLsmRuntime::new();
    let mut hb = Heartbeat::new(0);
    let mut now = 0;
    for i in 0..40u64 {
        now += 16_000_000;
        let out = hb.tick(&mut rt, &tick(true, i % 4 != 0, if i < 30 { 0x8A1 } else { 0x100 }), now);
        if i < 10 {
            assert!(out.log_event);
        }
    }
    assert_eq!(rt.total_nid_events, 40);
    assert_eq!(rt.valid_nid_events, 30);
    assert_eq!(rt.nid_ring.len(), 32);
    assert_eq!(rt.nid_ring[0].seq, 9);
    assert_eq!(rt.nid_ring[31].seq, 40);
    assert_eq!(rt.winner_nac(), "0x8A1");
    assert_eq!(rt.top_nacs(1), vec![(0x8A1, 22)]);
    assert_eq!(rt.top_nacs(5), vec![(0x8A1, 22), (0x100, 8)]);
    assert_eq!(total_hits(&rt.nac_hist), 30);
    assert_eq!(rt.live.pll_dbg, -5);
}

#[test]
fn equal_counts_rank_by_nac() {
    let mut rt = HdlLsmRuntime::new();
    rt.nac_hist.insert(9, 2);
    rt.nac_hist.insert(4, 2);
    rt.nac_hist.insert(7, 3);
    assert_eq!(rt.top_nacs(3), vec![(7, 3), (4, 2), (9, 2)]);
    assert_eq!(HdlLsmRuntime::new().winner_nac(), "--");
}

#[test]
fn windows_close_after_a_second() {
    let mut rt = HdlLsmRuntime::new();
    let mut hb = Heartbeat::new(0);
    assert!(hb.tick(&mut rt, &tick(true, true, 1), 16_000_000).finished_window.is_none());
    let out = hb.tick(&mut rt, &tick(false, false, 1), 1_000_000_000);
    let w = out.finished_window.unwrap();
    assert_eq!((w.ticks, w.event_count, w.valid_count), (2, 1, 1));
    assert!(!out.crash_dump);
    assert_eq!(rt.window.bch_busy_ticks, 2);
    assert_eq!((rt.window.pll_min, rt.window.pll_max), (-5, -5));
    // A second without an event after a healthy one is dumped, once.
    let out = hb.tick(&mut rt, &tick(false, false, 1), 2_000_000_000);
    assert!(out.crash_dump);
    let out = hb.tick(&mut rt, &tick(false, false, 1), 3_000_000_000);
    assert!(out.finished_window.is_some() && !out.crash_dump);
}

#[test]
fn drops_and_overflows_are_noted() {
    let mut rt = HdlLsmRuntime::new();
    let mut hb = Heartbeat::new(0);
    let mut t = tick(true, true, 1);
    t.drop_count = 3;
    t.iq_overflow = true;
    t.status.dibit_overflow = true;
    let out = hb.tick(&mut rt, &t, 1_500_000_000);
    assert_eq!(out.drop_count_moved, Some((0, 3)));
    assert!(out.warn_iq_overflow);
    assert_eq!((rt.iq_overflow_ticks, rt.dibit_overflow_ticks), (1, 1));
    let out = hb.tick(&mut rt, &t, 1_600_000_000);
    assert_eq!(out.drop_count_moved, None);
    assert!(!out.warn_iq_overflow);
}

#[test]
fn iq_ring_is_measured() {
    let mut rt = HdlLsmRuntime::new();
    let mut hb = Heartbeat::new(0);
    for (i, addr) in [0x1000u32, 0x2000, 0x3000, 0x1000].iter().enumerate() {
        let mut t = tick(false, false, 0);
        t.iq_next_addr = *addr;
        t.iq_last_buffer = i as u8;
        hb.tick(&mut rt, &t, (i as u64 + 1) * 1_000_000);
    }
    // Two steps of 4 KB; the jump back is passed over.
    assert_eq!(hb.window.iq_addr_advance, 0x2000);
    assert_eq!(hb.window.iq_buf_rolls, 3);
    assert_eq!(window_report(&hb.window).iq_kbps, 8);
}

#[test]
fn empty_window_reports_zeros() {
    let hb = Heartbeat::new(5);
    let r = window_report(&hb.window);
    assert_eq!((r.pll_min, r.pll_max, r.sp_min, r.sp_max), (0, 0, 0, 0));
    assert_eq!(r.sync_dist_best, 99);
}

#[test]
fn runtime_report() {
    let mut rt = HdlLsmRuntime::new();
    assert!(!rt.report(7).running);
    rt.started_at = Some(1_000_000_000);
    let mut hb = Heartbeat::new(1_000_000_000);
    hb.tick(&mut rt, &tick(true, true, 0x8A1), 1_500_000_000);
    let r = rt.report(3_000_000_000);
    assert!(r.running);
    assert_eq!(r.uptime_secs, 2);
    assert_eq!(r.last_tick_ms_ago, Some(1500));
    assert_eq!(r.last_nid_ms_ago, Some(1500));
    assert_eq!(r.last_nac, "0x8A1");
    assert_eq!(r.total_nac_hits, 1);
    assert_eq!(r.top_nacs[0].nac, "0x8A1");
    assert_eq!(r.top_nacs[0].count, 1);
}

#[test]
fn dibits_are_tallied() {
    assert_eq!(buffer_words(&[1, 0, 0, 0, 0, 0, 0, 0x80, 9]), vec![0x8000_0000_0000_0001]);
    let buffers = vec![vec![0b1110_0100; 8], vec![0; 8], vec![1, 2, 3]];
    let t = tally_buffers(&buffers);
    assert_eq!((t.buffers, t.bytes, t.dibits), (3, 19, 64));
    let h = t.histogram;
    assert_eq!((h.zeros, h.ones, h.twos, h.threes), (40, 8, 8, 8));
    assert_eq!(h.total(), 64);
    let mut sum = DibitHistogram::new();
    sum.merge(&h);
    sum.merge(&h);
    assert_eq!(sum.total(), 128);
}

#[test]
fn reader_logs_now_and_then() {
    let mut totals = ReaderTotals::new();
    let t = tally_buffers(&vec![vec![0; 8]]);
    let logged: Vec<u64> = (1..=32).filter(|_| totals.record(&t)).collect();
    assert_eq!(logged, vec![1, 2, 3, 4, 5, 16, 32]);
    assert_eq!((totals.buffers, totals.bytes), (32, 256));
}
