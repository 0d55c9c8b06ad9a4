//! Registers of the receiver's logic, field by field, and the writes to them.

use vstd::prelude::*;

verus! {

/// The two receive chains.
#[derive(Debug, Clone, Copy, PartialEq, Eq, Structural)]
pub enum Chain {
    Control,
    Traffic,
}

/// Writable fields of a digital down-converter.
#[derive(Debug, Clone, Copy, PartialEq, Eq, Structural)]
pub struct DdcRegisters {
    pub enable_input: bool,
    pub bypass2: bool,
    pub bypass3: bool,
    pub decimation1: u8,
    pub decimation2: u8,
    pub decimation3: u8,
    pub operations_minus_one1: u8,
    pub operations_minus_one2: u8,
    pub operations_minus_one3: u8,
    pub odd_operations1: bool,
    pub odd_operations3: bool,
    /// Phase increment of the local oscillator.
    pub frequency: u32,
}

/// Writable level fields of an LSM chain.
#[derive(Debug, Clone, Copy, PartialEq, Eq, Structural)]
pub struct LsmRegisters {
    pub enable: bool,
    pub dibit_dma_enable: bool,
    pub dc_block_enable: bool,
    pub agc_enable: bool,
}

/// Writable fields of one receive chain.
#[derive(Debug, Clone, Copy, PartialEq, Eq, Structural)]
pub struct ChainRegisters {
    pub ddc: DdcRegisters,
    pub demod_enable: bool,
    pub lsm: LsmRegisters,
}

/// All writable fields.
#[derive(Debug, Clone, Copy, PartialEq, Eq, Structural)]
pub struct RegisterBank {
    pub sdr_reset: bool,
    pub iq_enable: bool,
    pub control: ChainRegisters,
    pub traffic: ChainRegisters,
}

/// Fields that one write of a down-converter's control register sets; those
/// that are `None` keep their value.
#[derive(Debug, Clone, Copy, PartialEq, Eq, Structural)]
pub struct DdcControlFields {
    pub enable_input: Option<bool>,
    pub bypass2: Option<bool>,
    pub bypass3: Option<bool>,
    pub operations_minus_one1: Option<u8>,
    pub operations_minus_one2: Option<u8>,
    pub operations_minus_one3: Option<u8>,
    pub odd_operations1: Option<bool>,
    pub odd_operations3: Option<bool>,
}

/// Level fields that one write of an LSM control register sets; those that are
/// `None` keep their value.
#[derive(Debug, Clone, Copy, PartialEq, Eq, Structural)]
pub struct LsmControlFields {
    pub enable: Option<bool>,
    pub dibit_dma_enable: Option<bool>,
    pub dc_block_enable: Option<bool>,
    pub agc_enable: Option<bool>,
}

/// One access on the bus, in the order in which the logic sees them.
#[derive(Debug, Clone, Copy, PartialEq, Eq, Structural)]
pub enum BusOp {
    /// Clear the reset of the whole receiver.
    ClearSdrReset,
    /// Select a slot of the coefficient memory.
    CoeffAddress(u16),
    /// Write the selected slot.
    CoeffWrite(u32),
    /// Set decimations; those that are `None` keep their value.
    DdcDecimation {
        chain: Chain,
        decimation1: Option<u8>,
        decimation2: Option<u8>,
        decimation3: Option<u8>,
    },
    DdcControl { chain: Chain, ddc: DdcControlFields },
    DdcFrequency { chain: Chain, word: u32 },
    DemodEnable { chain: Chain, enable: bool },
    IqEnable(bool),
    LsmControl { chain: Chain, lsm: LsmControlFields },
    /// Pulse the reset of an LSM chain. The bit clears itself.
    LsmReset { chain: Chain },
    /// Let the logic run for some milliseconds before the next access.
    WaitMillis(u32),
}

pub open spec fn or_keep<T>(new: Option<T>, old_value: T) -> T {
    match new {
        Some(v) => v,
        None => old_value,
    }
}

impl RegisterBank {
    pub open spec fn chain(self, chain: Chain) -> ChainRegisters {
        match chain {
            Chain::Control => self.control,
            Chain::Traffic => self.traffic,
        }
    }

    pub open spec fn with_chain(self, chain: Chain, registers: ChainRegisters) -> RegisterBank {
        match chain {
            Chain::Control => RegisterBank { control: registers, ..self },
            Chain::Traffic => RegisterBank { traffic: registers, ..self },
        }
    }
}

/// The chain whose registers an access is to, if it is to a chain's.
pub open spec fn target(op: BusOp) -> Option<Chain> {
    match op {
        BusOp::DdcDecimation { chain, .. } => Some(chain),
        BusOp::DdcControl { chain, .. } => Some(chain),
        BusOp::DdcFrequency { chain, .. } => Some(chain),
        BusOp::DemodEnable { chain, .. } => Some(chain),
        BusOp::LsmControl { chain, .. } => Some(chain),
        BusOp::LsmReset { chain } => Some(chain),
        _ => None,
    }
}

/// A down-converter after its control register is written.
pub open spec fn ddc_after(ddc: DdcRegisters, fields: DdcControlFields) -> DdcRegisters {
    DdcRegisters {
        enable_input: or_keep(fields.enable_input, ddc.enable_input),
        bypass2: or_keep(fields.bypass2, ddc.bypass2),
        bypass3: or_keep(fields.bypass3, ddc.bypass3),
        operations_minus_one1: or_keep(fields.operations_minus_one1, ddc.operations_minus_one1),
        operations_minus_one2: or_keep(fields.operations_minus_one2, ddc.operations_minus_one2),
        operations_minus_one3: or_keep(fields.operations_minus_one3, ddc.operations_minus_one3),
        odd_operations1: or_keep(fields.odd_operations1, ddc.odd_operations1),
        odd_operations3: or_keep(fields.odd_operations3, ddc.odd_operations3),
        ..ddc
    }
}

/// The level fields of an LSM chain after its control register is written.
pub open spec fn lsm_after(lsm: LsmRegisters, fields: LsmControlFields) -> LsmRegisters {
    LsmRegisters {
        enable: or_keep(fields.enable, lsm.enable),
        dibit_dma_enable: or_keep(fields.dibit_dma_enable, lsm.dibit_dma_enable),
        dc_block_enable: or_keep(fields.dc_block_enable, lsm.dc_block_enable),
        agc_enable: or_keep(fields.agc_enable, lsm.agc_enable),
    }
}

/// A chain's registers after an access to them.
pub open spec fn chain_after(registers: ChainRegisters, op: BusOp) -> ChainRegisters {
    match op {
        BusOp::DdcDecimation { chain: _, decimation1, decimation2, decimation3 } => {
            ChainRegisters {
                ddc: DdcRegisters {
                    decimation1: or_keep(decimation1, registers.ddc.decimation1),
                    decimation2: or_keep(decimation2, registers.ddc.decimation2),
                    decimation3: or_keep(decimation3, registers.ddc.decimation3),
                    ..registers.ddc
                },
                ..registers
            }
        },
        BusOp::DdcControl { chain: _, ddc } => {
            ChainRegisters { ddc: ddc_after(registers.ddc, ddc), ..registers }
        },
        BusOp::DdcFrequency { chain: _, word } => {
            ChainRegisters {
                ddc: DdcRegisters { frequency: word, ..registers.ddc },
                ..registers
            }
        },
        BusOp::DemodEnable { chain: _, enable } => {
            ChainRegisters { demod_enable: enable, ..registers }
        },
        BusOp::LsmControl { chain: _, lsm } => {
            ChainRegisters { lsm: lsm_after(registers.lsm, lsm), ..registers }
        },
        _ => registers,
    }
}

/// The registers after one access.
pub open spec fn apply(bank: RegisterBank, op: BusOp) -> RegisterBank {
    match target(op) {
        Some(chain) => bank.with_chain(chain, chain_after(bank.chain(chain), op)),
        None => match op {
            BusOp::ClearSdrReset => RegisterBank { sdr_reset: false, ..bank },
            BusOp::IqEnable(enable) => RegisterBank { iq_enable: enable, ..bank },
            _ => bank,
        },
    }
}

/// The registers after a run of accesses.
#[verifier::opaque]
pub open spec fn apply_all(bank: RegisterBank, ops: Seq<BusOp>) -> RegisterBank
    decreases ops.len(),
{
    if ops.len() == 0 {
        bank
    } else {
        apply(apply_all(bank, ops.drop_last()), ops.last())
    }
}

/// One run of accesses after another is the two joined.
pub proof fn applying_joined_accesses(bank: RegisterBank, a: Seq<BusOp>, b: Seq<BusOp>)
    ensures
        apply_all(bank, a + b) == apply_all(apply_all(bank, a), b),
    decreases b.len(),
{
    reveal(apply_all);
    if b.len() == 0 {
        assert(a + b =~= a);
    } else {
        applying_joined_accesses(bank, a, b.drop_last());
        assert((a + b).drop_last() =~= a + b.drop_last());
        assert((a + b).last() == b.last());
    }
}

/// The chains are independent: an access that is not to a chain leaves the
/// registers of that chain as they are.
pub proof fn chains_are_independent(bank: RegisterBank, op: BusOp, spared: Chain)
    requires
        target(op) != Some(spared),
    ensures
        apply(bank, op).chain(spared) == bank.chain(spared),
{
}

fn or_keep_byte(new: Option<u8>, old_value: u8) -> (v: u8)
    ensures
        v == or_keep(new, old_value),
{
    match new {
        Some(v) => v,
        None => old_value,
    }
}

fn or_keep_flag(new: Option<bool>, old_value: bool) -> (v: bool)
    ensures
        v == or_keep(new, old_value),
{
    match new {
        Some(v) => v,
        None => old_value,
    }
}

fn apply_ddc(ddc: DdcRegisters, fields: DdcControlFields) -> (r: DdcRegisters)
    ensures
        r == ddc_after(ddc, fields),
{
    DdcRegisters {
        enable_input: or_keep_flag(fields.enable_input, ddc.enable_input),
        bypass2: or_keep_flag(fields.bypass2, ddc.bypass2),
        bypass3: or_keep_flag(fields.bypass3, ddc.bypass3),
        operations_minus_one1: or_keep_byte(
            fields.operations_minus_one1,
            ddc.operations_minus_one1,
        ),
        operations_minus_one2: or_keep_byte(
            fields.operations_minus_one2,
            ddc.operations_minus_one2,
        ),
        operations_minus_one3: or_keep_byte(
            fields.operations_minus_one3,
            ddc.operations_minus_one3,
        ),
        odd_operations1: or_keep_flag(fields.odd_operations1, ddc.odd_operations1),
        odd_operations3: or_keep_flag(fields.odd_operations3, ddc.odd_operations3),
        ..ddc
    }
}

fn apply_to_chain(registers: ChainRegisters, op: BusOp) -> (r: ChainRegisters)
    ensures
        r == chain_after(registers, op),
{
    let mut r: ChainRegisters = registers;
    match op {
        BusOp::DdcDecimation { chain: _, decimation1, decimation2, decimation3 } => {
            r.ddc.decimation1 = or_keep_byte(decimation1, registers.ddc.decimation1);
            r.ddc.decimation2 = or_keep_byte(decimation2, registers.ddc.decimation2);
            r.ddc.decimation3 = or_keep_byte(decimation3, registers.ddc.decimation3);
        },
        BusOp::DdcControl { chain: _, ddc } => {
            r.ddc = apply_ddc(registers.ddc, ddc);
        },
        BusOp::DdcFrequency { chain: _, word } => {
            r.ddc.frequency = word;
        },
        BusOp::DemodEnable { chain: _, enable } => {
            r.demod_enable = enable;
        },
        BusOp::LsmControl { chain: _, lsm } => {
            r.lsm = LsmRegisters {
                enable: or_keep_flag(lsm.enable, registers.lsm.enable),
                dibit_dma_enable: or_keep_flag(
                    lsm.dibit_dma_enable,
                    registers.lsm.dibit_dma_enable,
                ),
                dc_block_enable: or_keep_flag(lsm.dc_block_enable, registers.lsm.dc_block_enable),
                agc_enable: or_keep_flag(lsm.agc_enable, registers.lsm.agc_enable),
            };
        },
        _ => {},
    }
    r
}

/// The registers after one access.
pub fn apply_op(bank: RegisterBank, op: BusOp) -> (r: RegisterBank)
    ensures
        r == apply(bank, op),
{
    let mut r: RegisterBank = bank;
    let chain: Option<Chain> = match op {
        BusOp::DdcDecimation { chain, decimation1: _, decimation2: _, decimation3: _ } => Some(
            chain,
        ),
        BusOp::DdcControl { chain, ddc: _ } => Some(chain),
        BusOp::DdcFrequency { chain, word: _ } => Some(chain),
        BusOp::DemodEnable { chain, enable: _ } => Some(chain),
        BusOp::LsmControl { chain, lsm: _ } => Some(chain),
        BusOp::LsmReset { chain } => Some(chain),
        _ => None,
    };
    match chain {
        Some(Chain::Control) => {
            r.control = apply_to_chain(bank.control, op);
        },
        Some(Chain::Traffic) => {
            r.traffic = apply_to_chain(bank.traffic, op);
        },
        None => match op {
            BusOp::ClearSdrReset => {
                r.sdr_reset = false;
            },
            BusOp::IqEnable(enable) => {
                r.iq_enable = enable;
            },
            _ => {},
        },
    }
    r
}

/// An access to one chain's control register of the down-converter sets the
/// fields that it names, keeps the others, and touches nothing else.
pub proof fn control_writes_set_what_they_name(
    bank: RegisterBank,
    chain: Chain,
    fields: DdcControlFields,
)
    ensures
        ({
            let before = bank.chain(chain);
            let after = apply(bank, BusOp::DdcControl { chain, ddc: fields }).chain(chain);
            &&& fields.enable_input matches Some(v) ==> after.ddc.enable_input == v
            &&& fields.bypass2 matches Some(v) ==> after.ddc.bypass2 == v
            &&& fields.bypass3 matches Some(v) ==> after.ddc.bypass3 == v
            &&& fields.operations_minus_one1 matches Some(v) ==> after.ddc.operations_minus_one1
                == v
            &&& fields.operations_minus_one2 matches Some(v) ==> after.ddc.operations_minus_one2
                == v
            &&& fields.operations_minus_one3 matches Some(v) ==> after.ddc.operations_minus_one3
                == v
            &&& fields.odd_operations1 matches Some(v) ==> after.ddc.odd_operations1 == v
            &&& fields.odd_operations3 matches Some(v) ==> after.ddc.odd_operations3 == v
            &&& fields.enable_input is None ==> after.ddc.enable_input == before.ddc.enable_input
            &&& fields.bypass2 is None ==> after.ddc.bypass2 == before.ddc.bypass2
            &&& fields.bypass3 is None ==> after.ddc.bypass3 == before.ddc.bypass3
            &&& fields.operations_minus_one1 is None ==> after.ddc.operations_minus_one1
                == before.ddc.operations_minus_one1
            &&& fields.operations_minus_one2 is None ==> after.ddc.operations_minus_one2
                == before.ddc.operations_minus_one2
            &&& fields.operations_minus_one3 is None ==> after.ddc.operations_minus_one3
                == before.ddc.operations_minus_one3
            &&& fields.odd_operations1 is None ==> after.ddc.odd_operations1
                == before.ddc.odd_operations1
            &&& fields.odd_operations3 is None ==> after.ddc.odd_operations3
                == before.ddc.odd_operations3
            &&& after.ddc.decimation1 == before.ddc.decimation1
            &&& after.ddc.decimation2 == before.ddc.decimation2
            &&& after.ddc.decimation3 == before.ddc.decimation3
            &&& after.ddc.frequency == before.ddc.frequency
            &&& after.demod_enable == before.demod_enable
            &&& after.lsm == before.lsm
        }),
{
}

/// An access to one chain's LSM control register sets the levels that it names,
/// keeps the others, and touches nothing else.
pub proof fn lsm_writes_set_what_they_name(
    bank: RegisterBank,
    chain: Chain,
    fields: LsmControlFields,
)
    ensures
        ({
            let before = bank.chain(chain);
            let after = apply(bank, BusOp::LsmControl { chain, lsm: fields }).chain(chain);
            &&& fields.enable matches Some(v) ==> after.lsm.enable == v
            &&& fields.dibit_dma_enable matches Some(v) ==> after.lsm.dibit_dma_enable == v
            &&& fields.dc_block_enable matches Some(v) ==> after.lsm.dc_block_enable == v
            &&& fields.agc_enable matches Some(v) ==> after.lsm.agc_enable == v
            &&& fields.enable is None ==> after.lsm.enable == before.lsm.enable
            &&& fields.dibit_dma_enable is None ==> after.lsm.dibit_dma_enable
                == before.lsm.dibit_dma_enable
            &&& fields.dc_block_enable is None ==> after.lsm.dc_block_enable
                == before.lsm.dc_block_enable
            &&& fields.agc_enable is None ==> after.lsm.agc_enable == before.lsm.agc_enable
            &&& after.ddc == before.ddc
            &&& after.demod_enable == before.demod_enable
        }),
{
}

/// The other accesses to a chain set what they carry and nothing else: the
/// decimations that are given, the frequency, the demodulator's switch. A reset
/// leaves the registers as they are.
pub proof fn chain_writes_set_what_they_carry(
    bank: RegisterBank,
    chain: Chain,
    word: u32,
    enable: bool,
    d1: Option<u8>,
    d2: Option<u8>,
    d3: Option<u8>,
)
    ensures
        ({
            let before = bank.chain(chain);
            let tuned = apply(bank, BusOp::DdcFrequency { chain, word }).chain(chain);
            let switched = apply(bank, BusOp::DemodEnable { chain, enable }).chain(chain);
            let decimated = apply(
                bank,
                BusOp::DdcDecimation { chain, decimation1: d1, decimation2: d2, decimation3: d3 },
            ).chain(chain);
            &&& tuned == (ChainRegisters {
                ddc: DdcRegisters { frequency: word, ..before.ddc },
                ..before
            })
            &&& switched == (ChainRegisters { demod_enable: enable, ..before })
            &&& decimated == (ChainRegisters {
                ddc: DdcRegisters {
                    decimation1: if d1 is Some {
                        d1->0
                    } else {
                        before.ddc.decimation1
                    },
                    decimation2: if d2 is Some {
                        d2->0
                    } else {
                        before.ddc.decimation2
                    },
                    decimation3: if d3 is Some {
                        d3->0
                    } else {
                        before.ddc.decimation3
                    },
                    ..before.ddc
                },
                ..before
            })
            &&& apply(bank, BusOp::LsmReset { chain }) == bank
        }),
{
}

/// An access to a chain changes nothing outside that chain, and one that is to no
/// chain changes neither chain.
pub proof fn writes_stay_in_their_chain(bank: RegisterBank, op: BusOp)
    ensures
        target(op) is Some ==> apply(bank, op).sdr_reset == bank.sdr_reset && apply(
            bank,
            op,
        ).iq_enable == bank.iq_enable,
        target(op) == Some(Chain::Control) ==> apply(bank, op).traffic == bank.traffic,
        target(op) == Some(Chain::Traffic) ==> apply(bank, op).control == bank.control,
        target(op) is None ==> apply(bank, op).control == bank.control && apply(bank, op).traffic
            == bank.traffic,
        forall|enable: bool| #[trigger]
            apply(bank, BusOp::IqEnable(enable)) == (RegisterBank { iq_enable: enable, ..bank }),
        apply(bank, BusOp::ClearSdrReset) == (RegisterBank { sdr_reset: false, ..bank }),
        bank.chain(Chain::Control) == bank.control,
        bank.chain(Chain::Traffic) == bank.traffic,
{
}

} // verus!
