use p25_httpd::follower::{
    activity_line, boundary_message, channel_offset, classify_traffic_nid, decide_grant, duid_label,
    follow_grant, logs_traffic_nid, on_timeout_tick, pick_grant, rejection_message,
    retune_failed_message, state_change_message, timeout_message, GrantDecision, GrantEvent,
    TrafficNid,
};
use p25_httpd::fpga::ip_core::LsmStatusSnapshot;
use p25_httpd::monitor::MonitorList;
use p25_httpd::voice::{call_start_line, CallSummary, CallTracker, ImbeForwarder, ImbeFrameRaw};

fn grant(talkgroup: u16, encrypted: bool) -> GrantEvent {
    GrantEvent {
        talkgroup,
        channel: 0x1065,
        frequency_hz: Some(860_962_500),
        source: Some(7),
        encrypted,
        emergency: false,
    }
}

fn frames(fill: u8) -> [ImbeFrameRaw; 9] {
    [ImbeFrameRaw { bits: [fill; 18] }; 9]
}

#[test]
fn grants_are_decided_in_order() {
    let mut monitor = MonitorList::new();
    let mut f = ImbeForwarder::new();
    let g = grant(300, false);
    assert_eq!(decide_grant(false, &monitor, &mut f, None, &g), GrantDecision::Ignored);
    assert_eq!(decide_grant(true, &monitor, &mut f, None, &g), GrantDecision::Accepted);
    assert_eq!(
        decide_grant(true, &monitor, &mut f, Some(400), &g),
        GrantDecision::StickyLocked { locked: 400 }
    );
    monitor.set(vec![402]);
    assert_eq!(decide_grant(true, &monitor, &mut f, None, &g), GrantDecision::NotMonitored);
}

#[test]
fn encrypted_talkgroups_are_remembered() {
    let monitor = MonitorList::new();
    let mut f = ImbeForwarder::new();
    f.current_talkgroup = 300;
    f.call_encrypted = true;
    let g = grant(300, true);
    assert_eq!(
        decide_grant(true, &monitor, &mut f, Some(300), &g),
        GrantDecision::Encrypted { was_locked: true }
    );
    assert_eq!(f.current_talkgroup, 0);
    assert!(f.call_encrypted);
    // Without the flag the talkgroup stays rejected.
    let again = grant(300, false);
    assert_eq!(
        decide_grant(true, &monitor, &mut f, None, &again),
        GrantDecision::Encrypted { was_locked: false }
    );
    // It is remembered even where the grant is for another reason refused.
    let other = grant(301, true);
    decide_grant(true, &monitor, &mut f, Some(5), &other);
    assert!(f.encrypted_tg_history.contains(&301));
    // Nothing is remembered while the follower is off.
    decide_grant(false, &monitor, &mut f, None, &grant(302, true));
    assert!(!f.encrypted_tg_history.contains(&302));
}

#[test]
fn first_listed_talkgroup_is_picked() {
    let mut monitor = MonitorList::new();
    let mut f = ImbeForwarder::new();
    let at_hand = [grant(9, false), grant(300, false), grant(7, false), grant(300, false)];
    // Without a list the newest one.
    assert_eq!(pick_grant(&monitor, &f.encrypted_tg_history, &at_hand), Some(3));
    monitor.set(vec![7, 300]);
    assert_eq!(pick_grant(&monitor, &f.encrypted_tg_history, &at_hand), Some(2));
    // A talkgroup that cannot be followed leaves it to the next on the list.
    f.encrypted_tg_history.insert(7);
    assert_eq!(pick_grant(&monitor, &f.encrypted_tg_history, &at_hand), Some(3));
    f.encrypted_tg_history.insert(300);
    assert_eq!(pick_grant(&monitor, &f.encrypted_tg_history, &at_hand), None);
    assert_eq!(pick_grant(&monitor, &ImbeForwarder::new().encrypted_tg_history, &[]), None);
    assert_eq!(
        pick_grant(&monitor, &ImbeForwarder::new().encrypted_tg_history, &[grant(7, true)]),
        None
    );
}

#[test]
fn accepted_grants_set_the_call() {
    let mut f = ImbeForwarder::new();
    assert!(follow_grant(&mut f, &grant(300, false), true));
    assert_eq!(f.current_talkgroup, 300);
    assert!(f.vocoder_reset_pending);
    assert!(!f.call_encrypted);
    let mut unknown = grant(301, false);
    unknown.frequency_hz = None;
    assert!(!follow_grant(&mut f, &unknown, true));
    assert_eq!(f.current_talkgroup, 300);
}

#[test]
fn timeouts_end_the_call() {
    let mut f = ImbeForwarder::new();
    f.current_talkgroup = 300;
    f.call_encrypted = true;
    assert!(!on_timeout_tick(false, true, &mut f));
    assert!(!on_timeout_tick(true, false, &mut f));
    assert_eq!(f.current_talkgroup, 300);
    assert!(on_timeout_tick(true, true, &mut f));
    assert_eq!(f.current_talkgroup, 0);
    assert!(!f.call_encrypted);
}

#[test]
fn follower_messages() {
    let g = grant(300, true);
    let line = |d: GrantDecision| rejection_message(&g, &d);
    assert_eq!(
        line(GrantDecision::NotMonitored).unwrap(),
        "reject: TG=300 not in monitor list"
    );
    assert_eq!(
        line(GrantDecision::StickyLocked { locked: 5 }).unwrap(),
        "reject: TG=300 (sticky-locked on TG=5)"
    );
    assert_eq!(
        line(GrantDecision::Encrypted { was_locked: true }).unwrap(),
        "reject TG=300 encrypted (tore down active lock)"
    );
    assert_eq!(
        line(GrantDecision::Encrypted { was_locked: false }).unwrap(),
        "reject TG=300 encrypted"
    );
    assert!(line(GrantDecision::Accepted).is_none());
    assert!(line(GrantDecision::Ignored).is_none());
    assert_eq!(state_change_message("Idle", "Acquiring", 300), "state Idle -> Acquiring TG=300");
    assert_eq!(timeout_message(300), "state -> Idle (timeout) TG=300");
    assert_eq!(retune_failed_message(300, "no"), "retune FAILED TG=300: no");
    assert_eq!(channel_offset(860_962_500, 858_100_000), 2_862_500);
    assert_eq!(channel_offset(858_000_000, 858_100_000), -100_000);
}

#[test]
fn traffic_nids_are_classified() {
    let status = LsmStatusSnapshot {
        bch_busy: false,
        in_nid_window: false,
        nid_event: true,
        nid_valid: true,
        n_errors: 0,
        sync_distance: 0,
        dibit_overflow: false,
    };
    let class = |duid: u8| classify_traffic_nid(&status, 300, duid);
    assert_eq!(class(0), TrafficNid::Hdu);
    assert_eq!(class(3), TrafficNid::Tdu { with_lc: false });
    assert_eq!(class(15), TrafficNid::Tdu { with_lc: true });
    assert_eq!(class(5), TrafficNid::Ldu { second: false });
    assert_eq!(class(10), TrafficNid::Ldu { second: true });
    assert_eq!(class(7), TrafficNid::Other);
    assert_eq!(classify_traffic_nid(&status, 0, 5), TrafficNid::Idle);
    let bad = LsmStatusSnapshot { nid_valid: false, ..status };
    assert_eq!(classify_traffic_nid(&bad, 300, 5), TrafficNid::Invalid);
    let none = LsmStatusSnapshot { nid_event: false, ..status };
    assert_eq!(classify_traffic_nid(&none, 300, 5), TrafficNid::Nothing);
}

#[test]
fn activity_lines() {
    assert_eq!(duid_label(5), "LDU1");
    assert_eq!(duid_label(9), "DUID?");
    assert_eq!(boundary_message(0, 300, 0x8A1).unwrap(), "HDU TG=300 NAC=0x8A1");
    assert_eq!(boundary_message(15, 300, 0x1).unwrap(), "TDU_LC TG=300 NAC=0x001");
    assert!(boundary_message(5, 300, 1).is_none());
    assert!(boundary_message(0, 0, 1).is_none());
    let line = activity_line(10, 0x8A1, Some(300), Some("1-101"));
    assert_eq!(line.event_type, "TRF_LDU2");
    assert_eq!(line.summary, "LDU2 NAC:0x8A1 TG:00300 CH:1-101");
    let bare = activity_line(3, 0x8A1, None, None);
    assert_eq!(bare.summary, "TDU NAC:0x8A1 -- CH:--");
    assert!(logs_traffic_nid(10) && !logs_traffic_nid(11) && logs_traffic_nid(100));
}

#[test]
fn frames_of_a_call_are_passed_on() {
    let mut f = ImbeForwarder::new();
    f.current_talkgroup = 300;
    assert!(f.on_ldu1(&frames(1), 500));
    assert_eq!(f.ldu1_count, 1);
    assert_eq!(f.imbe_frames_extracted, 9);
    assert_eq!(f.last_imbe_at_millis, 500);
    assert_eq!(f.imbe_ring.len(), 9);
    assert_eq!(f.imbe_ring[0].talkgroup, 300);
    f.note_not_sent();
    assert_eq!(f.imbe_frames_dropped, 9);
}

#[test]
fn frames_without_a_call_are_dropped() {
    let mut f = ImbeForwarder::new();
    for i in 0..20 {
        assert!(!f.on_ldu2(&frames(i), 7));
    }
    assert_eq!(f.imbe_frames_dropped_idle, 180);
    assert_eq!(f.imbe_ring.len(), 128);
    assert_eq!(f.imbe_ring[127].bits, [19; 18]);
    f.on_hdu();
    f.on_tdu();
    f.on_tdu_lc();
    assert_eq!((f.hdu_count, f.tdu_count, f.tdu_lc_count), (1, 1, 1));
}

#[test]
fn calls_are_summed_up() {
    let mut f = ImbeForwarder::new();
    let mut t = CallTracker::new();
    f.current_talkgroup = 300;
    f.vocoder_reset_pending = true;
    let plan = t.on_batch(&mut f, 1_000_000_000);
    assert!(plan.ended.is_none());
    assert_eq!(plan.announced, Some(300));
    assert_eq!(plan.decode, Some(300));
    assert!(!f.vocoder_reset_pending);
    for i in 0..9 {
        assert_eq!(t.on_frame(&mut f, 1_000_000_000 + i * 20_000_000), i);
    }
    assert_eq!(f.vocoder_pcm_produced, 1440);

    f.current_talkgroup = 400;
    let plan = t.on_batch(&mut f, 2_000_000_000);
    let ended = plan.ended.unwrap();
    assert_eq!(ended.message(), "call_end TG=300 frames=9 pcm=1440 (160 ms)");
    assert_eq!(plan.announced, None);
    assert_eq!(plan.decode, Some(400));

    f.call_encrypted = true;
    let plan = t.on_batch(&mut f, 3_000_000_000);
    assert_eq!(plan.decode, None);
    assert_eq!(f.vocoder_frames_encrypted, 9);
    assert_eq!(call_start_line(300), "call_start TG=300");
    let skipped = CallSummary {
        tg: 1,
        frames_in: 0,
        frames_skipped_enc: 18,
        pcm_samples: 0,
        duration_ms: 0,
    };
    assert_eq!(skipped.message(), "call_end TG=1 frames=0 pcm=0 (0 ms) enc_skipped=18");
}
