//! Starting the two receive chains.

use vstd::prelude::*;
use crate::fpga::ip_core;
use crate::fpga::ip_core::{DdcError, IpCore};
use crate::fpga::nco::freq_to_nco;
use crate::fpga::registers;
use crate::fpga::registers::{
    BusOp, Chain, ChainRegisters, DdcControlFields, DdcRegisters, LsmControlFields, LsmRegisters,
    RegisterBank,
};

verus! {

/// The accesses that switch the control channel on: samples in, the C4FM
/// demodulator on, the IQ ring off, the LSM chain with its ring, its DC blocker
/// and its gain control on.
pub open spec fn control_switch_ops() -> Seq<BusOp> {
    seq![
        BusOp::DdcControl {
            chain: Chain::Control,
            ddc: DdcControlFields { enable_input: Some(true), ..ip_core::no_ddc_fields() },
        },
        BusOp::DemodEnable { chain: Chain::Control, enable: true },
        BusOp::IqEnable(false),
        BusOp::LsmControl {
            chain: Chain::Control,
            lsm: LsmControlFields { enable: Some(true), ..ip_core::no_lsm_fields() },
        },
        BusOp::LsmControl {
            chain: Chain::Control,
            lsm: LsmControlFields { dibit_dma_enable: Some(true), ..ip_core::no_lsm_fields() },
        },
        BusOp::LsmControl {
            chain: Chain::Control,
            lsm: LsmControlFields { dc_block_enable: Some(true), ..ip_core::no_lsm_fields() },
        },
        BusOp::LsmControl {
            chain: Chain::Control,
            lsm: LsmControlFields { agc_enable: Some(true), ..ip_core::no_lsm_fields() },
        },
    ]
}

/// The accesses that make the traffic channel ready: samples in, both
/// demodulators off, the ring, the DC blocker and the gain control of the LSM
/// chain on.
pub open spec fn traffic_switch_ops() -> Seq<BusOp> {
    seq![
        BusOp::DdcControl {
            chain: Chain::Traffic,
            ddc: DdcControlFields { enable_input: Some(true), ..ip_core::no_ddc_fields() },
        },
        BusOp::DemodEnable { chain: Chain::Traffic, enable: false },
        BusOp::LsmControl {
            chain: Chain::Traffic,
            lsm: LsmControlFields { enable: Some(false), ..ip_core::no_lsm_fields() },
        },
        BusOp::LsmControl {
            chain: Chain::Traffic,
            lsm: LsmControlFields { dibit_dma_enable: Some(true), ..ip_core::no_lsm_fields() },
        },
        BusOp::LsmControl {
            chain: Chain::Traffic,
            lsm: LsmControlFields { dc_block_enable: Some(true), ..ip_core::no_lsm_fields() },
        },
        BusOp::LsmControl {
            chain: Chain::Traffic,
            lsm: LsmControlFields { agc_enable: Some(true), ..ip_core::no_lsm_fields() },
        },
    ]
}

proof fn lemma_step(start: IpCore, at: IpCore, after: IpCore, ops: Seq<BusOp>, i: int)
    requires
        0 <= i < ops.len(),
        ip_core::wrote(start, at, ops.take(i)),
        ip_core::wrote(at, after, seq![ops[i]]),
    ensures
        ip_core::wrote(start, after, ops.take(i + 1)),
{
    ip_core::lemma_wrote_more(start, at, after, ops.take(i), seq![ops[i]]);
    assert(ops.take(i) + seq![ops[i]] =~= ops.take(i + 1));
}

fn switch_control_on(core: &mut IpCore)
    ensures
        ip_core::wrote(*old(core), *final(core), control_switch_ops()),
{
    let ghost start = *core;
    let ghost ops = control_switch_ops();
    proof {
        ip_core::lemma_wrote_nothing(start);
        assert(ops.take(0) =~= Seq::<BusOp>::empty());
    }
    let ghost at0 = *core;
    core.set_ddc_enable(true);
    proof {
        lemma_step(start, at0, *core, ops, 0);
    }
    let ghost at1 = *core;
    core.set_demod_enable(true);
    proof {
        lemma_step(start, at1, *core, ops, 1);
    }
    let ghost at2 = *core;
    core.set_iq_dma_enable(false);
    proof {
        lemma_step(start, at2, *core, ops, 2);
    }
    let ghost at3 = *core;
    core.set_lsm_enable(true);
    proof {
        lemma_step(start, at3, *core, ops, 3);
    }
    let ghost at4 = *core;
    core.set_lsm_dibit_dma_enable(true);
    proof {
        lemma_step(start, at4, *core, ops, 4);
    }
    let ghost at5 = *core;
    core.set_lsm_dc_block_enable(true);
    proof {
        lemma_step(start, at5, *core, ops, 5);
    }
    let ghost at6 = *core;
    core.set_lsm_agc_enable(true);
    proof {
        lemma_step(start, at6, *core, ops, 6);
    }
    assert(ops.take(7) =~= ops);
}

fn make_traffic_ready(core: &mut IpCore)
    ensures
        ip_core::wrote(*old(core), *final(core), traffic_switch_ops()),
{
    let ghost start = *core;
    let ghost ops = traffic_switch_ops();
    proof {
        ip_core::lemma_wrote_nothing(start);
        assert(ops.take(0) =~= Seq::<BusOp>::empty());
    }
    let ghost at0 = *core;
    core.set_traffic_ddc_enable(true);
    proof {
        lemma_step(start, at0, *core, ops, 0);
    }
    let ghost at1 = *core;
    core.set_traffic_demod_enable(false);
    proof {
        lemma_step(start, at1, *core, ops, 1);
    }
    let ghost at2 = *core;
    core.set_traffic_lsm_enable(false);
    proof {
        lemma_step(start, at2, *core, ops, 2);
    }
    let ghost at3 = *core;
    core.set_traffic_lsm_dibit_dma_enable(true);
    proof {
        lemma_step(start, at3, *core, ops, 3);
    }
    let ghost at4 = *core;
    core.set_traffic_lsm_dc_block_enable(true);
    proof {
        lemma_step(start, at4, *core, ops, 4);
    }
    let ghost at5 = *core;
    core.set_traffic_lsm_agc_enable(true);
    proof {
        lemma_step(start, at5, *core, ops, 5);
    }
    assert(ops.take(6) =~= ops);
}

/// Start the control channel with an oscillator word: set its down-converter up,
/// then switch it on. Without a word nothing is switched on.
pub fn start_control_chain(core: &mut IpCore, nco_word: Option<u32>) -> (r: Result<(), DdcError>)
    ensures
        nco_word matches Some(word) ==> r is Ok && ip_core::wrote(
            *old(core),
            *final(core),
            ip_core::configure_ddc_ops().push(BusOp::DdcFrequency { chain: Chain::Control, word })
                + control_switch_ops(),
        ),
        nco_word is None ==> r == Err::<(), DdcError>(DdcError::FrequencyOutOfRange)
            && ip_core::wrote(*old(core), *final(core), ip_core::configure_ddc_ops()),
{
    let ghost start = *core;
    match core.configure_ddc(nco_word) {
        Err(e) => Err(e),
        Ok(()) => {
            let ghost configured = *core;
            switch_control_on(core);
            proof {
                ip_core::lemma_wrote_more(
                    start,
                    configured,
                    *core,
                    ip_core::configure_ddc_ops().push(
                        BusOp::DdcFrequency { chain: Chain::Control, word: nco_word->0 },
                    ),
                    control_switch_ops(),
                );
            }
            Ok(())
        },
    }
}

/// Make the traffic channel ready at the centre of the band, both demodulators
/// quiet until a call is followed.
pub fn start_traffic_chain(core: &mut IpCore, sample_rate_hz: u64) -> (r: Result<(), DdcError>)
    ensures
        r is Ok,
        ip_core::wrote(
            *old(core),
            *final(core),
            ip_core::configure_traffic_ddc_ops().push(
                BusOp::DdcFrequency { chain: Chain::Traffic, word: 0 },
            ) + traffic_switch_ops(),
        ),
{
    let ghost start = *core;
    let word: Option<u32> = freq_to_nco(0, sample_rate_hz);
    proof {
        let rate = sample_rate_hz as int;
        if rate > 0 {
            assert(0 * crate::fpga::nco::NCO_TURN == 0);
            assert(rate / (2 * rate) == 0) by {
                vstd::arithmetic::div_mod::lemma_basic_div(rate, 2 * rate);
            }
            assert(crate::fpga::nco::rounded_quotient(0, rate) == 0);
        }
        assert(word == Some(0u32));
    }
    match core.configure_traffic_ddc(word) {
        Err(e) => Err(e),
        Ok(()) => {
            let ghost configured = *core;
            make_traffic_ready(core);
            proof {
                ip_core::lemma_wrote_more(
                    start,
                    configured,
                    *core,
                    ip_core::configure_traffic_ddc_ops().push(
                        BusOp::DdcFrequency { chain: Chain::Traffic, word: 0 },
                    ),
                    traffic_switch_ops(),
                );
            }
            Ok(())
        },
    }
}

/// What a read of an LSM control register after the start says.
#[derive(Debug, Clone, Copy, PartialEq, Eq, Structural)]
pub struct StartCheck {
    /// The switches of the chain and of its ring are not as they were set.
    pub mismatch: bool,
    /// The DC blocker is off.
    pub dc_block_off: bool,
}

/// Hold the switches of a chain (chain, ring, DC blocker) against how they were
/// set at the start: the control chain on, the traffic chain off, the rings and
/// the DC blockers on.
pub fn check_start(chain: Chain, readback: (bool, bool, bool)) -> (c: StartCheck)
    ensures
        c.mismatch == !(readback.0 == (chain == Chain::Control) && readback.1),
        c.dc_block_off == !readback.2,
{
    let expected: bool = match chain {
        Chain::Control => true,
        Chain::Traffic => false,
    };
    StartCheck { mismatch: readback.0 != expected || !readback.1, dc_block_off: !readback.2 }
}

proof fn lemma_none(bank: RegisterBank)
    ensures
        registers::apply_all(bank, seq![]) == bank,
{
    reveal(registers::apply_all);
}

proof fn lemma_next(bank: RegisterBank, ops: Seq<BusOp>, i: int)
    requires
        0 <= i < ops.len(),
    ensures
        registers::apply_all(bank, ops.take(i + 1)) == registers::apply(
            registers::apply_all(bank, ops.take(i)),
            ops[i],
        ),
{
    reveal(registers::apply_all);
    assert(ops.take(i + 1).drop_last() =~= ops.take(i));
}

/// Switching the control channel on leaves everything of it running and the IQ
/// ring off, and the traffic channel as it is.
pub proof fn control_chain_runs(bank: RegisterBank)
    ensures
        registers::apply_all(bank, control_switch_ops()) == (RegisterBank {
            iq_enable: false,
            control: ChainRegisters {
                ddc: DdcRegisters { enable_input: true, ..bank.control.ddc },
                demod_enable: true,
                lsm: LsmRegisters {
                    enable: true,
                    dibit_dma_enable: true,
                    dc_block_enable: true,
                    agc_enable: true,
                },
            },
            ..bank
        }),
{
    let ops = control_switch_ops();
    lemma_none(bank);
    assert(ops.take(0) =~= Seq::<BusOp>::empty());
    lemma_next(bank, ops, 0);
    lemma_next(bank, ops, 1);
    lemma_next(bank, ops, 2);
    lemma_next(bank, ops, 3);
    lemma_next(bank, ops, 4);
    lemma_next(bank, ops, 5);
    lemma_next(bank, ops, 6);
    assert(ops.take(7) =~= ops);
}

/// Making the traffic channel ready leaves both of its demodulators off, and the
/// control channel as it is.
pub proof fn traffic_chain_is_quiet(bank: RegisterBank)
    ensures
        registers::apply_all(bank, traffic_switch_ops()) == (RegisterBank {
            traffic: ChainRegisters {
                ddc: DdcRegisters { enable_input: true, ..bank.traffic.ddc },
                demod_enable: false,
                lsm: LsmRegisters {
                    enable: false,
                    dibit_dma_enable: true,
                    dc_block_enable: true,
                    agc_enable: true,
                },
            },
            ..bank
        }),
{
    let ops = traffic_switch_ops();
    lemma_none(bank);
    assert(ops.take(0) =~= Seq::<BusOp>::empty());
    lemma_next(bank, ops, 0);
    lemma_next(bank, ops, 1);
    lemma_next(bank, ops, 2);
    lemma_next(bank, ops, 3);
    lemma_next(bank, ops, 4);
    lemma_next(bank, ops, 5);
    assert(ops.take(6) =~= ops);
}

} // verus!
