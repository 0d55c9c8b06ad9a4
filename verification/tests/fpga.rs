use p25_httpd::fpga::boot::{check_start, start_control_chain, start_traffic_chain};
use p25_httpd::fpga::dma::DmaRing;
use p25_httpd::fpga::fir::{div_ceil, lay_out_folded, lay_out_plain};
use p25_httpd::fpga::ip_core::{
    DdcError, IpCore, LsmReadings, LsmStatusSnapshot, Readings, RingSizes, PRODUCT_ID,
};
use p25_httpd::fpga::irq::{logs_interrupt, InterruptSources, IrqStats};
use p25_httpd::fpga::nco::{freq_to_nco, shown_nco_word};
use p25_httpd::fpga::registers::{
    apply_op, BusOp, Chain, ChainRegisters, DdcRegisters, LsmControlFields, LsmRegisters,
    RegisterBank,
};
use p25_httpd::fpga::tables::{P25_FIR1_COEFFS, P25_FIR2_COEFFS, P25_FIR3_COEFFS};

fn quiet_chain() -> ChainRegisters {
    ChainRegisters {
        ddc: DdcRegisters {
            enable_input: false,
            bypass2: true,
            bypass3: true,
            decimation1: 0,
            decimation2: 0,
            decimation3: 0,
            operations_minus_one1: 0,
            operations_minus_one2: 0,
            operations_minus_one3: 0,
            odd_operations1: false,
            odd_operations3: false,
            frequency: 0,
        },
        demod_enable: false,
        lsm: LsmRegisters {
            enable: false,
            dibit_dma_enable: false,
            dc_block_enable: false,
            agc_enable: false,
        },
    }
}

fn bank() -> RegisterBank {
    RegisterBank { sdr_reset: true, iq_enable: true, control: quiet_chain(), traffic: quiet_chain() }
}

fn lsm_readings() -> LsmReadings {
    LsmReadings {
        status: LsmStatusSnapshot {
            bch_busy: false,
            in_nid_window: true,
            nid_event: true,
            nid_valid: true,
            n_errors: 3,
            sync_distance: 1,
            dibit_overflow: true,
        },
        nac: 0x8A1,
        duid: 7,
        drop_count: 2,
        dibit_last_buffer: 1,
        dibit_next_address: 0x1000,
        pll_dbg: 0xFFFF,
        sample_point_dbg: 0x7FFF,
    }
}

fn readings() -> Readings {
    Readings {
        dibit_count: 77,
        demod_overflow: true,
        dibit_last_buffer: 0xFF,
        dibit_next_address: 0x10,
        traffic_last_buffer: 3,
        traffic_next_address: 0x20,
        iq_last_buffer: 4,
        iq_overflow: true,
        iq_next_address: 0x30,
        lsm: lsm_readings(),
        traffic_lsm: lsm_readings(),
    }
}

fn sizes() -> RingSizes {
    RingSizes { dibit: 8, traffic: 8, iq: 8, lsm_dibit: 8, traffic_lsm_dibit: 8 }
}

fn receiver() -> IpCore {
    let mut core = match IpCore::take(PRODUCT_ID, bank(), readings(), sizes()) {
        Ok(core) => core,
        Err(e) => panic!("{}", e.message()),
    };
    assert_eq!(core.take_ops(), vec![BusOp::ClearSdrReset]);
    core
}

#[test]
fn wrong_product_is_refused() {
    match IpCore::take(0x1234, bank(), readings(), sizes()) {
        Ok(_) => panic!("taken"),
        Err(e) => {
            assert_eq!(e.got, 0x1234);
            assert!(e.message().contains("1234"), "{}", e.message());
        }
    }
}

#[test]
fn accesses_are_handed_out_once() {
    let mut core = receiver();
    core.set_demod_enable(true);
    assert_eq!(
        core.take_ops(),
        vec![BusOp::DemodEnable { chain: Chain::Control, enable: true }]
    );
    assert!(core.take_ops().is_empty());
    assert!(core.bank.control.demod_enable);
    assert!(!core.bank.sdr_reset);
}

#[test]
fn retune_quiets_tunes_and_wakes() {
    let mut core = receiver();
    let word = freq_to_nco(2_862_500, 8_000_000);
    assert!(core.retune_traffic_chain(word).is_ok());
    let ops = core.take_ops();
    assert_eq!(ops.len(), 7);
    assert_eq!(ops[1], BusOp::DemodEnable { chain: Chain::Traffic, enable: false });
    assert_eq!(ops[2], BusOp::DdcFrequency { chain: Chain::Traffic, word: word.unwrap() });
    assert_eq!(ops[3], BusOp::WaitMillis(2));
    assert_eq!(ops[5], BusOp::LsmReset { chain: Chain::Traffic });
    assert_eq!(ops[6], BusOp::DemodEnable { chain: Chain::Traffic, enable: true });
    assert!(core.bank.traffic.lsm.enable && core.bank.traffic.demod_enable);
    assert_eq!(core.bank.traffic.ddc.frequency, word.unwrap());
    assert_eq!(core.bank.control, quiet_chain());

    core.pause_traffic_chain();
    assert!(!core.bank.traffic.lsm.enable && !core.bank.traffic.demod_enable);
    assert_eq!(core.take_ops().len(), 2);
}

#[test]
fn retune_out_of_range_is_refused() {
    let mut core = receiver();
    assert!(matches!(core.retune_traffic_chain(None), Err(DdcError::FrequencyOutOfRange)));
    assert!(matches!(core.set_ddc_frequency(None), Err(DdcError::FrequencyOutOfRange)));
    assert!(core.set_traffic_ddc_frequency(Some(5)).is_ok());
    assert_eq!(core.bank.traffic.ddc.frequency, 5);
}

#[test]
fn control_channel_is_configured() {
    let mut core = receiver();
    assert!(core.configure_ddc(Some(0x1234)).is_ok());
    let ddc = core.bank.control.ddc;
    assert_eq!((ddc.decimation1, ddc.decimation2, ddc.decimation3), (4, 4, 8));
    assert_eq!(
        (ddc.operations_minus_one1, ddc.operations_minus_one2, ddc.operations_minus_one3),
        (21, 31, 15)
    );
    assert!(!ddc.bypass2 && !ddc.bypass3);
    assert_eq!(ddc.frequency, 0x1234);
    let writes = core.take_ops().iter().filter(|op| matches!(op, BusOp::CoeffWrite(_))).count();
    assert_eq!(writes, 256 + 128 + 256);
}

#[test]
fn filters_that_do_not_fit_are_refused() {
    let mut core = receiver();
    let long = vec![1i32; 600];
    assert!(matches!(core.load_fir1(&long, 4), Err(DdcError::FoldedFirTooLong)));
    assert!(matches!(core.load_fir2(&long, 4), Err(DdcError::PlainFirTooLong)));
    assert!(matches!(core.load_fir3(&long, 4), Err(DdcError::FoldedFirTooLong)));
    assert!(matches!(core.load_fir1(&[1], usize::MAX), Err(DdcError::FoldedFirTooLong)));
    assert!(matches!(core.load_fir2(&[1], usize::MAX), Err(DdcError::PlainFirTooLong)));
    assert!(matches!(core.load_fir3(&[1, 2], usize::MAX), Err(DdcError::FoldedFirTooLong)));
    assert!(core.take_ops().is_empty());
}

#[test]
fn taps_are_laid_out() {
    let taps: Vec<i32> = (1..=8).collect();
    let plain = lay_out_plain(&taps, 4).unwrap();
    assert_eq!(plain.len(), 128);
    assert_eq!(plain.iter().filter(|&&t| t != 0).count(), 8);
    let folded = lay_out_folded(&taps, 4).unwrap();
    assert_eq!(folded.len(), 256);
    assert_eq!(folded.iter().map(|&t| t as i64).sum::<i64>(), 36);
    assert!(lay_out_plain(&vec![1; 200], 1).is_none());
    assert_eq!(div_ceil(7, 2), 4);
    assert_eq!(div_ceil(8, 2), 4);
    assert_eq!(div_ceil(usize::MAX, 2), usize::MAX / 2 + 1);
    assert_eq!(div_ceil(1, usize::MAX), 1);
}

#[test]
fn tables_add_up() {
    let sum = |t: &[i32]| t.iter().map(|&c| c as i64).sum::<i64>();
    assert_eq!(sum(&P25_FIR1_COEFFS), 131_076);
    assert_eq!(sum(&P25_FIR2_COEFFS), 131_074);
    assert_eq!(sum(&P25_FIR3_COEFFS), 131_082);
}

#[test]
fn levels_read_back_as_set() {
    let mut core = receiver();
    core.set_lsm_enable(true);
    core.set_lsm_dibit_dma_enable(true);
    assert_eq!(core.lsm_control_readback(), (true, true, false));
    core.set_lsm_dc_block_enable(true);
    core.set_lsm_enable(false);
    assert_eq!(core.lsm_control_readback(), (false, true, true));
    assert_eq!(core.traffic_lsm_control_readback(), (false, false, false));
    core.set_traffic_lsm_dc_block_enable(true);
    assert_eq!(core.traffic_lsm_control_readback(), (false, false, true));
    core.observe_lsm(Chain::Traffic, quiet_chain().lsm);
    assert_eq!(core.traffic_lsm_control_readback(), (false, false, false));
    assert_eq!(core.lsm_control_readback(), (false, true, true));
}

#[test]
fn reading_clears_the_latches() {
    let mut core = receiver();
    let first = core.lsm_status();
    assert!(first.nid_event && first.dibit_overflow);
    let second = core.lsm_status();
    assert!(!second.nid_event && !second.dibit_overflow);
    assert_eq!(second.n_errors, 3);
    assert!(core.iq_overflow());
    assert!(!core.iq_overflow());
    assert!(core.traffic_lsm_status().nid_event);
    assert!(!core.traffic_lsm_status().nid_event);
}

#[test]
fn readings_are_passed_on() {
    let core = receiver();
    assert_eq!(core.dibit_count(), 77);
    assert!(core.demod_overflow());
    assert_eq!(core.dibit_last_buffer(), 0xFF);
    assert_eq!(core.dibit_next_address(), 0x10);
    assert_eq!(core.traffic_last_buffer(), 3);
    assert_eq!(core.traffic_next_address(), 0x20);
    assert_eq!(core.iq_last_buffer(), 4);
    assert_eq!(core.iq_next_address(), 0x30);
    assert_eq!(core.lsm_nid(), (0x8A1, 7));
    assert_eq!(core.traffic_lsm_nid(), (0x8A1, 7));
    assert_eq!(core.lsm_drop_count(), 2);
    assert_eq!(core.traffic_lsm_drop_count(), 2);
    assert_eq!(core.lsm_debug(), (-1, 32767));
    assert_eq!(core.traffic_lsm_debug(), (-1, 32767));
    assert_eq!(core.lsm_dibit_last_buffer(), 1);
    assert_eq!(core.lsm_dibit_next_address(), 0x1000);
    assert_eq!(core.traffic_lsm_dibit_last_buffer(), 1);
    assert_eq!(core.traffic_lsm_dibit_next_address(), 0x1000);
}

#[test]
fn rings_hand_out_what_is_new() {
    let mut ring = DmaRing::new(8);
    assert!(ring.read_new(0xFF).is_empty());
    assert_eq!(ring.read_new(2), vec![0, 1, 2]);
    assert!(ring.read_new(2).is_empty());
    assert_eq!(ring.read_new(5), vec![3, 4, 5]);
    assert_eq!(ring.read_new(1), vec![6, 7, 0, 1]);
}

#[test]
fn core_rings_are_separate() {
    let mut core = receiver();
    // The first look only sets the starting point.
    assert!(core.read_dibit_buffers().is_empty());
    assert!(core.read_traffic_buffers().is_empty());
    assert!(core.read_iq_buffers().is_empty());
    assert!(core.read_lsm_dibit_buffers().is_empty());
    assert!(core.read_traffic_lsm_dibit_buffers().is_empty());
    core.readings.traffic_last_buffer = 4;
    core.readings.dibit_last_buffer = 0;
    core.readings.lsm.dibit_last_buffer = 3;
    core.readings.traffic_lsm.dibit_last_buffer = 0;
    assert_eq!(core.read_traffic_buffers(), vec![4]);
    assert_eq!(core.read_dibit_buffers(), vec![0]);
    assert_eq!(core.read_lsm_dibit_buffers(), vec![2, 3]);
    assert_eq!(core.read_traffic_lsm_dibit_buffers(), vec![2, 3, 4, 5, 6, 7, 0]);
    assert!(core.read_iq_buffers().is_empty());
}

#[test]
fn chains_start_as_they_should() {
    let mut core = receiver();
    assert!(start_control_chain(&mut core, Some(9)).is_ok());
    assert!(start_traffic_chain(&mut core, 8_000_000).is_ok());
    assert_eq!(core.lsm_control_readback(), (true, true, true));
    assert_eq!(core.traffic_lsm_control_readback(), (false, true, true));
    assert!(core.bank.control.demod_enable && !core.bank.traffic.demod_enable);
    assert!(core.bank.control.lsm.agc_enable && core.bank.traffic.lsm.agc_enable);
    assert!(!core.bank.iq_enable);
    assert_eq!(core.bank.traffic.ddc.frequency, 0);

    let good = check_start(Chain::Control, core.lsm_control_readback());
    assert!(!good.mismatch && !good.dc_block_off);
    let good = check_start(Chain::Traffic, core.traffic_lsm_control_readback());
    assert!(!good.mismatch && !good.dc_block_off);
    assert!(check_start(Chain::Control, (true, false, true)).mismatch);
    assert!(check_start(Chain::Traffic, (true, true, true)).mismatch);
    assert!(check_start(Chain::Control, (true, true, false)).dc_block_off);
}

#[test]
fn start_without_a_frequency_fails() {
    let mut core = receiver();
    assert!(matches!(start_control_chain(&mut core, None), Err(DdcError::FrequencyOutOfRange)));
    assert!(!core.bank.control.ddc.enable_input);
}

#[test]
fn accesses_touch_one_chain() {
    let op = BusOp::LsmControl {
        chain: Chain::Traffic,
        lsm: LsmControlFields {
            enable: Some(true),
            dibit_dma_enable: None,
            dc_block_enable: None,
            agc_enable: None,
        },
    };
    let after = apply_op(bank(), op);
    assert!(after.traffic.lsm.enable);
    assert_eq!(after.control, bank().control);
}

#[test]
fn oscillator_words() {
    assert_eq!(freq_to_nco(0, 8_000_000), Some(0));
    assert_eq!(freq_to_nco(1_000_000, 8_000_000), Some(1 << 25));
    assert_eq!(freq_to_nco(-1_000_000, 8_000_000), Some(0u32.wrapping_sub(1 << 25)));
    assert_eq!(freq_to_nco(4_000_000, 8_000_000), Some(1 << 27));
    assert_eq!(freq_to_nco(4_000_001, 8_000_000), None);
    // 1 Hz: 2^28 / 8e6 = 33.55..., rounded.
    assert_eq!(freq_to_nco(1, 8_000_000), Some(34));
    assert_eq!(freq_to_nco(-1, 8_000_000), Some(0u32.wrapping_sub(34)));
    assert_eq!(shown_nco_word(1, 8_000_000), 33);
    assert_eq!(shown_nco_word(-1, 8_000_000), 0x1000_0000 - 33);
    assert_eq!(shown_nco_word(-1_000_000, 8_000_000), 0x1000_0000 - (1 << 25));
}

#[test]
fn oscillator_words_match_floating_point() {
    for offset in [2_862_500i64, -137_500, 3_999_999, -4_000_000, 12_345] {
        let share = offset as f64 / 8_000_000.0;
        let expected = (share * (1u64 << 28) as f64).round() as i32 as u32;
        assert_eq!(freq_to_nco(offset, 8_000_000), Some(expected));
    }
}

#[test]
fn interrupts_are_counted_by_source() {
    let mut stats = IrqStats::new();
    let none = InterruptSources {
        dibit: false,
        traffic: false,
        iq: false,
        lsm_dibit: false,
        traffic_lsm_dibit: false,
    };
    assert!(stats.record(InterruptSources { dibit: true, iq: true, ..none }, 5_000_000));
    stats.record(InterruptSources { traffic_lsm_dibit: true, ..none }, 9_000_000);
    assert_eq!((stats.total, stats.dibit, stats.iq, stats.traffic), (2, 1, 1, 0));
    assert_eq!(stats.traffic_lsm_dibit, 1);
    assert_eq!((stats.started_at, stats.last_at), (Some(5_000_000), Some(9_000_000)));
    let report = stats.report(2_005_000_000);
    assert!(report.running);
    assert_eq!(report.uptime_secs, 2);
    assert_eq!(report.last_at_ms_ago, Some(1996));
    assert!(!IrqStats::new().report(7).running);
    assert_eq!(logs_interrupt(1), true);
}
