use std::collections::HashSet;

use p25_httpd::fpga::ip_core::{
    IpCore, LsmReadings, LsmStatusSnapshot, Readings, RingSizes, PRODUCT_ID,
};
use p25_httpd::fpga::registers::{
    BusOp, Chain, ChainRegisters, DdcRegisters, LsmRegisters, RegisterBank,
};
use p25_httpd::httpd::blocklist::{get_encrypted_tgs, put_encrypted_tgs, BlocklistRequest};
use p25_httpd::httpd::compare::{decoder_compare, DecoderCounters, PipelineCounters};
use p25_httpd::httpd::base64::base64_text;
use p25_httpd::httpd::dump::{
    capture_report, dibit_base64, dibit_dump, dibit_text, lower_hex_text, pack_dibits,
};
use p25_httpd::httpd::grants::{band_order, list_grants, GrantRecord};
use p25_httpd::httpd::lines::join_lines;
use p25_httpd::httpd::monitoring::{get_monitor, put_monitor, replace_monitored};
use p25_httpd::httpd::reinit::{
    plan_reinit, report_reinit, GainMode, RadioSettings, ReinitRequest, ReinitStep, ShownNumbers,
};
use p25_httpd::httpd::site::{
    board_report, system_info, SystemClock, SystemIdentity, BUILD_TAG,
};
use p25_httpd::httpd::traffic::{
    apply_controls, shown_best_distance, traffic_duid_label, traffic_report, ManualTuning,
    TrafficControls, TrafficStats,
};
use p25_httpd::httpd::tsbk::{
    opcode_label, opcode_report, recent_tsbks, summarize, TsbkMessage, TsbkRecord,
};
use p25_httpd::httpd::tune::{
    bch_t_log_line, capture_step, get_sync_tune, nid_capture_request, put_bch_t, put_sync_tune,
    switch_dc_block, CaptureAction, CaptureStep, SyncTuneChange,
};
use p25_httpd::monitor::MonitorList;
use p25_httpd::runtime::HdlLsmRuntime;
use p25_httpd::voice::ImbeForwarder;

fn quiet_chain() -> ChainRegisters {
    ChainRegisters {
        ddc: DdcRegisters {
            enable_input: false,
            bypass2: false,
            bypass3: false,
            decimation1: 0,
            decimation2: 0,
            decimation3: 0,
            operations_minus_one1: 0,
            operations_minus_one2: 0,
            operations_minus_one3: 0,
            odd_operations1: false,
            odd_operations3: false,
            frequency: 0,
        },
        demod_enable: true,
        lsm: LsmRegisters {
            enable: true,
            dibit_dma_enable: true,
            dc_block_enable: true,
            agc_enable: true,
        },
    }
}

fn receiver() -> IpCore {
    let lsm = LsmReadings {
        status: LsmStatusSnapshot {
            bch_busy: false,
            in_nid_window: false,
            nid_event: false,
            nid_valid: false,
            n_errors: 0,
            sync_distance: 0,
            dibit_overflow: false,
        },
        nac: 0,
        duid: 0,
        drop_count: 0,
        dibit_last_buffer: 0xFF,
        dibit_next_address: 0,
        pll_dbg: 0,
        sample_point_dbg: 0,
    };
    let readings = Readings {
        dibit_count: 0,
        demod_overflow: false,
        dibit_last_buffer: 0xFF,
        dibit_next_address: 0,
        traffic_last_buffer: 0xFF,
        traffic_next_address: 0,
        iq_last_buffer: 0xFF,
        iq_overflow: false,
        iq_next_address: 0,
        lsm,
        traffic_lsm: lsm,
    };
    let sizes = RingSizes { dibit: 8, traffic: 8, iq: 8, lsm_dibit: 8, traffic_lsm_dibit: 8 };
    let bank = RegisterBank {
        sdr_reset: false,
        iq_enable: false,
        control: quiet_chain(),
        traffic: quiet_chain(),
    };
    let mut core = match IpCore::take(PRODUCT_ID, bank, readings, sizes) {
        Ok(core) => core,
        Err(e) => panic!("{}", e.message()),
    };
    core.take_ops();
    core
}

// -- Blocklist --------------------------------------------------------------

fn change(
    f: &mut ImbeForwarder,
    core: &mut IpCore,
    followed: Option<u16>,
    clear: Option<&str>,
    add: Option<&str>,
    remove: Option<&str>,
) -> (Vec<String>, Vec<String>, Option<u16>, String) {
    let u = put_encrypted_tgs(&BlocklistRequest { clear, add, remove }, f, followed, core);
    (u.applied, u.errors, u.dropped, u.log)
}

#[test]
fn blocklist_is_changed_by_hand() {
    let mut f = ImbeForwarder::new();
    let mut core = receiver();
    let (applied, errors, dropped, log) = change(&mut f, &mut core, None, None, Some("402"), Some("7"));
    assert_eq!(applied, vec!["added TG=402", "TG=7 not in list"]);
    assert!(errors.is_empty() && dropped.is_none());
    assert_eq!(log, "encrypted_tgs update: added TG=402, TG=7 not in list");

    let (applied, _, _, _) = change(&mut f, &mut core, None, None, Some("402"), None);
    assert_eq!(applied, vec!["TG=402 already present"]);
    let (applied, _, _, _) = change(&mut f, &mut core, None, Some("1"), Some("3"), Some("3"));
    assert_eq!(applied, vec!["cleared (1 entries)", "added TG=3", "removed TG=3"]);
    assert!(f.encrypted_tg_history.is_empty());

    let (applied, errors, _, log) = change(&mut f, &mut core, None, Some("yes"), Some("a\"b"), Some("70000"));
    assert!(applied.is_empty());
    assert_eq!(errors, vec!["add=\"a\\\"b\" not an integer", "remove=\"70000\" not an integer"]);
    assert_eq!(log, "encrypted_tgs update: ");
    assert!(core.take_ops().is_empty());
}

#[test]
fn blocking_the_followed_call_drops_it() {
    let mut f = ImbeForwarder::new();
    let mut core = receiver();
    f.current_talkgroup = 402;
    let (applied, _, dropped, _) = change(&mut f, &mut core, Some(402), None, Some("402"), None);
    assert_eq!(dropped, Some(402));
    assert_eq!(
        applied,
        vec!["added TG=402", "force-idle: was locked on TG=402 which is now blocked"]
    );
    assert_eq!(f.current_talkgroup, 0);
    assert_eq!(
        core.take_ops(),
        vec![BusOp::DemodEnable { chain: Chain::Traffic, enable: false }]
    );
}

#[test]
fn blocklist_is_listed_in_order() {
    let set: HashSet<u16> = [402, 7, 65535, 300].into_iter().collect();
    assert_eq!(get_encrypted_tgs(&set), vec![7, 300, 402, 65535]);
    assert!(get_encrypted_tgs(&HashSet::new()).is_empty());
}

// -- Monitored talkgroups ----------------------------------------------------

#[test]
fn monitor_requests() {
    let mut list = MonitorList::new();
    get_monitor(&mut list, Some("300"), None);
    get_monitor(&mut list, Some("402"), Some("300"));
    get_monitor(&mut list, Some("x"), Some("-1"));
    assert_eq!(list.list(), &[402]);
}

#[test]
fn monitor_bodies_are_read() {
    let mut list = MonitorList::new();
    put_monitor(&mut list, br#"{"talkgroups": [300, 402, 300, "x", -1, 1.5, 65537, null]}"#);
    assert_eq!(list.list(), &[300, 402, 1]);
    for body in [
        &br#"{"other": [1]}"#[..],
        &br#"{"talkgroups": 1}"#[..],
        &br#"[1, 2]"#[..],
        &br#"{"talkgroups": [1"#[..],
        &b""[..],
    ] {
        put_monitor(&mut list, body);
        assert_eq!(list.list(), &[300, 402, 1]);
    }
    put_monitor(&mut list, br#"{"talkgroups": []}"#);
    assert!(list.is_empty());
    replace_monitored(&mut list, Some(vec![Some(65536 + 9), None]));
    assert_eq!(list.list(), &[9]);
    replace_monitored(&mut list, None);
    assert_eq!(list.list(), &[9]);
}

// -- Radio -------------------------------------------------------------------

fn boot() -> RadioSettings {
    RadioSettings {
        rx_lo: 858_100_000,
        control_freq: 860_962_500,
        sample_rate: 8_000_000,
        rf_bandwidth: 4_000_000,
    }
}

fn request<'a>() -> ReinitRequest<'a> {
    ReinitRequest {
        rx_lo: None,
        control_freq: None,
        sample_rate: None,
        rf_bandwidth: None,
        gain_mode: None,
    }
}

#[test]
fn radio_is_set_up_as_at_the_start() {
    let plan = plan_reinit(&request(), &boot()).unwrap();
    assert_eq!(plan.settings, boot());
    assert_eq!(plan.gain_mode, GainMode::Manual);
    assert_eq!(
        plan.steps,
        vec![
            ReinitStep::RxLo(858_100_000),
            ReinitStep::SamplingFrequency(8_000_000),
            ReinitStep::RfBandwidth(4_000_000),
            ReinitStep::GainControlMode(GainMode::Manual),
            ReinitStep::HardwareGain,
            ReinitStep::DdcOffset { control_freq: 860_962_500 },
        ]
    );
}

#[test]
fn radio_requests_are_read() {
    let mut r = request();
    r.rx_lo = Some("862500000");
    r.sample_rate = Some("4294967296");
    r.gain_mode = Some("fast_attack");
    let plan = plan_reinit(&r, &boot()).unwrap();
    assert_eq!(plan.settings.rx_lo, 862_500_000);
    assert_eq!(plan.settings.sample_rate, 8_000_000);
    assert_eq!(plan.steps.len(), 5);
    assert!(!plan.steps.contains(&ReinitStep::HardwareGain));
    r.gain_mode = Some("loud");
    assert_eq!(
        plan_reinit(&r, &boot()).unwrap_err(),
        "unknown gain_mode: 'loud'; expected manual|fast_attack|slow_attack|hybrid"
    );
    for mode in [GainMode::Manual, GainMode::FastAttack, GainMode::SlowAttack, GainMode::Hybrid] {
        assert_eq!(GainMode::from_name(mode.as_str()), Some(mode));
    }
}

#[test]
fn radio_steps_are_reported() {
    let plan = plan_reinit(&request(), &boot()).unwrap();
    let shown = ShownNumbers { gain_db: "60", ddc_offset: "2862500" };
    let mut failures: Vec<Option<String>> = vec![None; 6];
    let report = report_reinit(&plan.steps, &failures, &shown);
    assert!(report.ok && report.errors.is_empty());
    assert_eq!(
        report.applied,
        vec![
            "rx_lo=858100000",
            "sampling_frequency=8000000",
            "rf_bandwidth=4000000",
            "gain_control_mode=manual",
            "hardwaregain=60 dB",
            "ddc_nco_offset=2862500 (control_freq=860962500)",
        ]
    );
    failures[1] = Some("busy".to_string());
    let report = report_reinit(&plan.steps, &failures, &shown);
    assert!(!report.ok);
    assert_eq!(report.errors, vec!["sampling_frequency: busy"]);
    assert_eq!(report.applied.len(), 5);
}

// -- Tuning ------------------------------------------------------------------

#[test]
fn threshold_is_shown_and_set() {
    let mut hist = [0u64; 25];
    hist[0] = 3;
    hist[4] = 2;
    hist[24] = 10;
    let mut threshold = 10;
    let r = get_sync_tune(&mut threshold, None, &hist);
    assert_eq!((r.current_threshold, r.updated_from), (10, None));
    assert_eq!(r.total_observations, 15);
    assert_eq!(r.cumulative_at_threshold[0], 3);
    assert_eq!(r.cumulative_at_threshold[4], 5);
    assert_eq!(r.cumulative_at_threshold[23], 5);
    assert_eq!(r.cumulative_at_threshold[24], 15);
    let r = get_sync_tune(&mut threshold, Some("6"), &hist);
    assert_eq!((r.current_threshold, r.updated_from), (6, Some(10)));
    let r = get_sync_tune(&mut threshold, Some("25"), &hist);
    assert_eq!((r.current_threshold, r.updated_from), (6, None));
}

#[test]
fn threshold_requests_are_read() {
    assert_eq!(put_sync_tune(None, Some("24")), SyncTuneChange::All(24));
    assert_eq!(put_sync_tune(None, Some("reset")), SyncTuneChange::Refused);
    assert_eq!(put_sync_tune(None, None), SyncTuneChange::Refused);
    assert_eq!(put_sync_tune(Some("traffic"), Some("4")), SyncTuneChange::Traffic(Some(4)));
    assert_eq!(put_sync_tune(Some("traffic"), Some("null")), SyncTuneChange::Traffic(None));
    assert_eq!(put_sync_tune(Some("control"), Some("reset")), SyncTuneChange::Control(None));
    assert_eq!(put_sync_tune(Some("control"), Some("25")), SyncTuneChange::Refused);
    assert_eq!(put_sync_tune(Some("other"), Some("4")), SyncTuneChange::Refused);
    assert_eq!(
        SyncTuneChange::Traffic(Some(4)).log_line().unwrap(),
        "sync threshold: traffic-side -> 4"
    );
    assert_eq!(
        SyncTuneChange::Control(Some(9)).log_line().unwrap(),
        "sync threshold: control-side -> 9"
    );
    assert!(SyncTuneChange::Traffic(None).log_line().is_none());
}

#[test]
fn error_bound_requests_are_read() {
    let c = put_bch_t(None, Some("5")).unwrap();
    assert_eq!((c.control, c.traffic, c.value), (false, true, Some(5)));
    assert_eq!(c.applied(), vec!["traffic"]);
    let c = put_bch_t(Some("both"), None).unwrap();
    assert_eq!((c.control, c.traffic, c.value), (true, true, None));
    assert_eq!(c.applied(), vec!["control", "traffic"]);
    assert_eq!(put_bch_t(Some("control"), Some("reset")).unwrap().applied(), vec!["control"]);
    assert!(put_bch_t(Some("x"), Some("")).unwrap().applied().is_empty());
    assert_eq!(
        put_bch_t(None, Some("12")).unwrap_err(),
        "value=12 out of range (max = 11)"
    );
    assert_eq!(
        put_bch_t(None, Some("a\nb")).unwrap_err(),
        "value=\"a\\nb\" not an integer or 'reset'"
    );
    assert_eq!(
        bch_t_log_line(None, Some(5)),
        "bch_t_override set: side=traffic value=Some(5)"
    );
    assert_eq!(
        bch_t_log_line(Some("both"), None),
        "bch_t_override set: side=both value=None"
    );
}

#[test]
fn capture_requests_are_read() {
    let r = nid_capture_request(None, None, None, None);
    assert!(!r.traffic);
    assert_eq!(r.action, CaptureAction::Look);
    assert!(r.action.lines().is_empty());
    let r = nid_capture_request(Some("traffic"), Some("1"), None, Some("99999"));
    assert!(r.traffic);
    assert_eq!(r.action, CaptureAction::Arm(1024));
    assert_eq!(r.action.lines(), vec!["armed limit=1024"]);
    let r = nid_capture_request(None, Some("1"), Some("1"), Some("x"));
    assert_eq!(r.action, CaptureAction::Clear);
    assert_eq!(r.action.lines(), vec!["cleared"]);
    assert_eq!(
        nid_capture_request(None, Some("1"), None, Some("x")).action,
        CaptureAction::Arm(256)
    );
    let r = nid_capture_request(None, Some("0"), None, Some("7"));
    assert_eq!(r.action, CaptureAction::Disarm);
    assert_eq!(r.action.lines(), vec!["disarmed"]);
    assert_eq!(nid_capture_request(None, Some("0"), Some("1"), None).action, CaptureAction::Clear);
    assert_eq!(nid_capture_request(None, Some("no"), None, None).action, CaptureAction::Look);
}

#[test]
fn aligned_capture_is_waited_for() {
    assert_eq!(capture_step(false, 5, 5), CaptureStep::Wait);
    assert_eq!(capture_step(true, 5, 5), CaptureStep::Found);
    assert_eq!(capture_step(false, 5, 2_000_000_004), CaptureStep::Wait);
    assert_eq!(capture_step(false, 5, 2_000_000_005), CaptureStep::TimedOut);
}

#[test]
fn dc_blocker_is_switched() {
    let mut core = receiver();
    assert_eq!(switch_dc_block(&mut core, None), None);
    assert_eq!(switch_dc_block(&mut core, Some("on")), None);
    assert!(core.take_ops().is_empty());
    assert_eq!(switch_dc_block(&mut core, Some("0")), Some(true));
    assert_eq!(core.lsm_control_readback(), (true, true, false));
    assert_eq!(switch_dc_block(&mut core, Some("1")), Some(false));
    assert_eq!(core.lsm_control_readback(), (true, true, true));
    assert_eq!(core.take_ops().len(), 2);
    // Only the two digits are taken.
    for other in ["true", "false", "01", "2", ""] {
        assert_eq!(switch_dc_block(&mut core, Some(other)), None);
    }
    assert!(core.take_ops().is_empty());
    assert_eq!(core.lsm_control_readback(), (true, true, true));
}

// -- Traffic channel ---------------------------------------------------------

#[test]
fn traffic_controls_are_applied_in_order() {
    let mut core = receiver();
    let mut stats = TrafficStats::new();
    stats.wakeups = 9;
    let mut follower = true;
    let mut tuning = ManualTuning { last_offset_hz: 0, nco_word: 0 };
    let report = apply_controls(
        &TrafficControls {
            reset_stats: Some("1"),
            follower: Some("off"),
            retune_hz: Some("2862500"),
            demod_enable: Some("1"),
            shown_offset: "2862500",
        },
        &mut stats,
        &mut follower,
        &mut core,
        &mut tuning,
    );
    assert_eq!(
        report.applied,
        vec!["reset_stats=1", "follower=off", "retune_hz=2862500", "demod_enable=true"]
    );
    assert!(report.errors.is_empty());
    assert!(!follower);
    assert_eq!(stats.wakeups, 0);
    assert_eq!(tuning.last_offset_hz, 2_862_500);
    assert_eq!(core.take_ops().len(), 2);

    let report = apply_controls(
        &TrafficControls {
            reset_stats: None,
            follower: Some("maybe"),
            retune_hz: Some("5000000"),
            demod_enable: Some("2"),
            shown_offset: "5000000",
        },
        &mut stats,
        &mut follower,
        &mut core,
        &mut tuning,
    );
    assert!(report.applied.is_empty());
    assert_eq!(
        report.errors,
        vec![
            "follower=maybe: expected on|off|1|0|true|false",
            "retune_hz=5000000 rejected: traffic DDC frequency 5000000 Hz out of range",
            "demod_enable=2: expected 0|1|on|off|true|false",
        ]
    );
    assert!(core.take_ops().is_empty());
    assert_eq!(tuning.last_offset_hz, 2_862_500);
}

#[test]
fn traffic_channel_is_shown() {
    let mut f = ImbeForwarder::new();
    f.last_imbe_at_millis = 1000;
    let r = traffic_report(0x123, Some(5), Some(0x8A1), Some(300), 0x1000_0000, &f, 3500);
    assert_eq!(r.last_duid_label, Some(traffic_duid_label(5)));
    assert_eq!(r.last_imbe_ms_ago, Some(2500));
    assert_eq!(r.current_call_encrypted, Some(false));
    assert_eq!(r.last_nac_hex.as_deref(), Some("0x8A1"));
    let idle = traffic_report(0, None, None, None, 0, &ImbeForwarder::new(), 5);
    assert!(idle.last_duid_hex.is_none() && idle.current_call_encrypted.is_none());
    assert_eq!(idle.last_imbe_ms_ago, None);
    assert_eq!(shown_best_distance(u32::MAX), 99);
    assert_eq!(shown_best_distance(3), 3);
}

// -- Control channel ---------------------------------------------------------

#[test]
fn opcodes_are_counted_and_sorted() {
    let mut ok = [0u64; 64];
    let mut fail = [0u64; 64];
    ok[0x3A] = 5;
    ok[0x00] = 5;
    ok[0x3B] = 9;
    fail[0x01] = 2;
    let r = opcode_report(&ok, &fail);
    assert_eq!((r.total_ok, r.total_fail), (19, 2));
    let shown: Vec<&str> = r.entries.iter().map(|e| e.shown.as_str()).collect();
    assert_eq!(shown, vec!["0x3B", "0x00", "0x3A", "0x01"]);
    assert_eq!(r.entries[0].label, "NET_STATUS_BCAST");
    assert!(r.entries[0].parsed && !r.entries[3].parsed);
    assert_eq!(r.entries[3].label, "(unknown)");
    assert_eq!(r.entries[3].fail, 2);
    assert_eq!(opcode_label(0x39), "SEC_CCH_BROADCST");
}

#[test]
fn messages_are_summed_up() {
    let line = |m: TsbkMessage| summarize(&m);
    assert_eq!(
        line(TsbkMessage::NetworkStatus { wacn: 0xBEE00, system_id: 0x8A, channel: "1-101".into() }),
        "NET_STATUS_BCAST WACN:BEE00 SYS:08A CH:1-101"
    );
    assert_eq!(
        line(TsbkMessage::IdentifierUpdate {
            identifier: 1,
            bw: 12500,
            transmit_offset: -45_000_000,
            channel_spacing: 12500,
            base_frequency: 851_006_250,
        }),
        "IDEN_UPDATE ID:1 OFFSET:-45000000 SPACING:12500 BASE:851006250 BW:12500"
    );
    assert_eq!(
        line(TsbkMessage::GroupVoiceChannelGrant {
            channel: "1-101".into(),
            talkgroup: "300".into(),
            source: "7".into(),
            encrypted: true,
        }),
        "GRP_V_CH_GRANT CH:1-101 TG:300 SRC:7 [ENC]"
    );
    assert_eq!(
        line(TsbkMessage::SndcpDataChannelAnnouncementExplicit {
            downlink_channel: "a".into(),
            uplink_channel: "b".into(),
            autonomous_access: true,
            requested_access: true,
        }),
        "SNDCP_DCH_ANN_EX DL:a UL:b AUTO REQ"
    );
    assert_eq!(
        line(TsbkMessage::TdmaSyncBroadcast {
            year: 2026,
            month: 4,
            day: 5,
            hours: 6,
            minutes: 7,
            time_locked: false,
        }),
        "TDMA_SYNC_BCST 2026-04-05 06:07 UNLOCKED"
    );
}

#[test]
fn recent_messages_come_newest_first() {
    let messages: Vec<TsbkRecord> = (0..60u64)
        .map(|i| TsbkRecord {
            at: i * 1_000_000_000,
            block: (i % 4) as usize,
            message: TsbkMessage::UnitToUnitAnswerRequest {
                target: i.to_string(),
                source: "9".into(),
            },
        })
        .collect();
    let recent = recent_tsbks(&messages, 60_000_000_000);
    assert_eq!(recent.len(), 50);
    assert_eq!(recent[0].age_ns, 1_000_000_000);
    assert_eq!(recent[0].block, "TSBK?");
    assert_eq!(recent[1].block, "TSBK3");
    assert_eq!(recent[49].summary, "UU_ANS_REQ TGT:10 SRC:9");
}

// -- Site --------------------------------------------------------------------

fn identity() -> SystemIdentity {
    SystemIdentity {
        nac: Some("0x8A1".into()),
        wacn: Some(0xBEE),
        system_id: Some(0x8A),
        rfss_id: Some(1),
        site_id: None,
        lra: None,
        control_channel: None,
        secondary_cch_a: None,
        secondary_cch_b: None,
        sndcp_downlink_channel: None,
        sndcp_uplink_channel: None,
        clock: Some(SystemClock {
            year: 2026,
            month: 4,
            day: 5,
            hours: 6,
            minutes: 7,
            locked: true,
        }),
    }
}

#[test]
fn system_is_shown() {
    let info = system_info(identity());
    assert_eq!(info.wacn.as_deref(), Some("00BEE"));
    assert_eq!(info.system_id.as_deref(), Some("08A"));
    assert_eq!(info.nac.as_deref(), Some("0x8A1"));
    assert_eq!(info.rfss_id, Some(1));
    assert_eq!(info.system_clock.as_deref(), Some("2026-04-05 06:07 LOCKED"));
    assert_eq!(info.build.as_deref(), Some(BUILD_TAG));
}

#[test]
fn board_is_shown() {
    let r = board_report(Some(8_000_000), Some(0), 0, 5_500_000_000);
    assert_eq!(r.ddc_output_rate_hz, Some(62_500));
    assert_eq!(r.ddc_decimation, "/4 /4 /8 = /128");
    assert_eq!(r.wall_clock.as_deref(), Some("1970-01-01 00:00:00"));
    assert_eq!(r.uptime_secs, 5);
    let none = board_report(None, None, 9, 0);
    assert!(none.ddc_output_rate_hz.is_none() && none.wall_clock.is_none());
}

fn record(channel: u16, talkgroup: u16, at_secs: u64) -> GrantRecord {
    GrantRecord {
        channel,
        shown_channel: channel.to_string(),
        talkgroup,
        talkgroup_alias: None,
        source: None,
        frequency_hz: None,
        at: at_secs * 1_000_000_000,
        encrypted: false,
        emergency: false,
    }
}

#[test]
fn grants_are_shown_once_per_talkgroup() {
    let grants = vec![
        record(1, 300, 5),
        record(2, 300, 8),
        record(3, 0, 1),
        record(4, 0, 2),
        record(5, 400, 9),
        record(1, 500, 3),
    ];
    let history: HashSet<u16> = [400].into_iter().collect();
    let lines = list_grants(&grants, &history, 10_000_000_000);
    let shown: Vec<(usize, u64, bool)> = lines
        .iter()
        .map(|l| (l.index, l.age_secs, l.in_encrypted_history))
        .collect();
    assert_eq!(
        shown,
        vec![(4, 1, true), (1, 2, false), (5, 7, false), (3, 8, false), (2, 9, false)]
    );
}

#[test]
fn bands_are_sorted() {
    assert_eq!(band_order(&vec![3, 1, 2]), vec![1, 2, 0]);
}

// -- Dumps -------------------------------------------------------------------

#[test]
fn bytes_are_shown_in_base64() {
    assert_eq!(base64_text(b""), "");
    assert_eq!(base64_text(b"f"), "Zg==");
    assert_eq!(base64_text(b"fo"), "Zm8=");
    assert_eq!(base64_text(b"foo"), "Zm9v");
    assert_eq!(base64_text(b"foob"), "Zm9vYg==");
    assert_eq!(base64_text(b"fooba"), "Zm9vYmE=");
    assert_eq!(base64_text(b"foobar"), "Zm9vYmFy");
    assert_eq!(base64_text(&[0xFB, 0xFF, 0xBF]), "+/+/");
    assert_ne!(base64_text(&[0]), base64_text(&[0, 0]));
}

#[test]
fn captured_dibits_are_shown_twice() {
    assert_eq!(dibit_base64(&[1, 2, 3, 7]), "AQIDAw==");
    let r = capture_report(&[1, 2, 3, 7], 99);
    assert_eq!((r.captured, r.total_dibits), (4, 99));
    assert_eq!(r.dibits_base64, "AQIDAw==");
    assert_eq!(r.dibits_hex, "1233");
    assert_eq!(capture_report(&[], 0).dibits_base64, "");
}

#[test]
fn dibits_are_packed() {
    assert_eq!(pack_dibits(&[1, 2, 3, 0, 7]), vec![0b0011_1001, 0b11]);
    assert_eq!(dibit_text(&[0, 1, 2, 3, 6]), "01232");
    let mut duids = [0u64; 16];
    duids[7] = 5;
    duids[0] = 1;
    let dump = dibit_dump(&[1, 2, 3, 0, 3], &[1, 2, 3, 4], &duids);
    assert_eq!(dump.dibits_hex, "3903");
    assert_eq!((dump.captured, dump.inner, dump.outer), (5, 4, 6));
    assert_eq!(dump.raw_duid_total, 6);
    assert_eq!(lower_hex_text(&[0xAB, 0x01]), "ab01");
}

#[test]
fn packed_dibits_come_back() {
    let dibits: Vec<u8> = (0..23).map(|i| (i * 7 % 4) as u8).collect();
    let packed = pack_dibits(&dibits);
    for (i, d) in dibits.iter().enumerate() {
        assert_eq!(packed[i / 4] >> (2 * (i % 4)) & 3, *d);
    }
}

#[test]
fn decoders_are_shown_side_by_side() {
    let counters = |best: u32| DecoderCounters {
        system_nac: None,
        messages: 1,
        active_grants: 2,
        bands_known: 3,
        sync_hits: 4,
        sync_near: 5,
        best_sync_distance: best,
        total_dibits: 6,
        pipeline: PipelineCounters {
            nid_attempts: 1,
            nid_decode_failures: 2,
            nid_invalid_duid: 3,
            nid_decoded_ok: 4,
            nid_decoded_tsdu: 5,
            tsdu_attempts: 6,
            tsbk_block_attempts: 7,
            tsbk_trellis_failures: 8,
            tsbk_crc_failures: 9,
            tsbk_crc_ok: 10,
            tsbk_crc_ok_plain: 11,
            tsbk_crc_ok_xored: 12,
            tsbk_unknown_opcode: 13,
        },
    };
    let mut rt = HdlLsmRuntime::new();
    rt.nac_hist.insert(0x8A1, 3);
    rt.total_nid_events = 4;
    let r = decoder_compare(counters(u32::MAX), counters(2), &rt);
    assert_eq!(r.ps_c4fm.sync_best_dist, None);
    assert_eq!(r.ps_lsm.sync_best_dist, Some(2));
    assert_eq!(r.ps_lsm.counters.pipeline.tsbk_crc_ok, 10);
    assert_eq!(r.pl_hdl.winner_nac, "0x8A1");
    assert_eq!(r.pl_hdl.total_nids, 4);
}

#[test]
fn lines_are_joined() {
    let lines: Vec<String> = vec!["a".into(), "b".into(), "c".into()];
    assert_eq!(join_lines(&lines, ", "), "a, b, c");
    assert_eq!(join_lines(&Vec::new(), ", "), "");
}
