//! The receiver core: what it writes to the logic, in which order, and what it
//! makes of what the logic reports.
//!
//! The core keeps the registers' values and a log of accesses. Whoever drives
//! the hardware takes the log, carries the accesses out in order, and hands
//! the readings back.

use vstd::prelude::*;
use crate::fpga::dma;
use crate::fpga::dma::DmaRing;
use crate::fpga::fir;
use crate::fpga::fir::{div_ceil, lay_out_folded, lay_out_plain};
use crate::fpga::registers;
use crate::fpga::registers::{
    apply_op, BusOp, Chain, ChainRegisters, DdcControlFields, LsmControlFields, LsmRegisters,
    RegisterBank,
};
use crate::fpga::tables::{
    P25_DEC1, P25_DEC2, P25_DEC3, P25_FIR1_COEFFS, P25_FIR2_COEFFS, P25_FIR3_COEFFS,
};
use crate::text::append_lower_hex;

verus! {

/// Product identifier of the logic, the text "p25f".
pub const PRODUCT_ID: u32 = 0x7032_3566;

/// Milliseconds for the filters to flush after a change of frequency.
pub const RETUNE_FLUSH_MS: u32 = 2;

/// What an LSM chain reports in one access.
#[derive(Debug, Clone, Copy, PartialEq, Eq, Structural)]
pub struct LsmStatusSnapshot {
    /// The error correction is at work on a NID.
    pub bch_busy: bool,
    /// The 33 dibits of a NID are being collected.
    pub in_nid_window: bool,
    /// A new NID arrived since the last read. Reading clears it.
    pub nid_event: bool,
    /// The last NID was corrected.
    pub nid_valid: bool,
    /// Bits in which the last NID differed from its code word.
    pub n_errors: u8,
    /// Bits in which the last sync differed.
    pub sync_distance: u8,
    /// The dibit ring stalled since the last read. Reading clears it.
    pub dibit_overflow: bool,
}

/// Readings of one LSM chain.
#[derive(Debug, Clone, Copy, PartialEq, Eq, Structural)]
pub struct LsmReadings {
    pub status: LsmStatusSnapshot,
    pub nac: u16,
    pub duid: u8,
    pub drop_count: u16,
    pub dibit_last_buffer: u8,
    pub dibit_next_address: u32,
    pub pll_dbg: u16,
    pub sample_point_dbg: u16,
}

/// Readings of the logic, as of the last access to each.
#[derive(Debug, Clone, Copy, PartialEq, Eq, Structural)]
pub struct Readings {
    pub dibit_count: u16,
    pub demod_overflow: bool,
    pub dibit_last_buffer: u8,
    pub dibit_next_address: u32,
    pub traffic_last_buffer: u8,
    pub traffic_next_address: u32,
    pub iq_last_buffer: u8,
    pub iq_overflow: bool,
    pub iq_next_address: u32,
    pub lsm: LsmReadings,
    pub traffic_lsm: LsmReadings,
}

/// Number of sub-buffers of each ring.
#[derive(Debug, Clone, Copy, PartialEq, Eq, Structural)]
pub struct RingSizes {
    pub dibit: u32,
    pub traffic: u32,
    pub iq: u32,
    pub lsm_dibit: u32,
    pub traffic_lsm_dibit: u32,
}

/// The five rings.
#[derive(Debug, Clone, Copy, PartialEq, Eq, Structural)]
pub struct Rings {
    pub dibit: DmaRing,
    pub traffic: DmaRing,
    pub iq: DmaRing,
    pub lsm_dibit: DmaRing,
    pub traffic_lsm_dibit: DmaRing,
}

/// The logic answered with another product identifier.
#[derive(Debug, Clone, Copy, PartialEq, Eq, Structural)]
pub struct ProductIdMismatch {
    pub got: u32,
}

impl ProductIdMismatch {
    /// The mismatch in words.
    pub fn message(&self) -> (s: String)
        ensures
            s@ == "FPGA product ID mismatch: expected 0x70323566, got 0x"@
                + crate::text::zero_padded(crate::text::lower_hex(self.got as nat), 8),
    {
        let mut s = "FPGA product ID mismatch: expected 0x70323566, got 0x".to_owned();
        append_lower_hex(&mut s, self.got as u64, 8);
        s
    }
}

/// Why a down-converter could not be set up.
#[derive(Debug, Clone, Copy, PartialEq, Eq, Structural)]
pub enum DdcError {
    /// The taps do not fit the coefficient memory of a folded stage.
    FoldedFirTooLong,
    /// The taps do not fit the coefficient memory of a plain stage.
    PlainFirTooLong,
    /// The frequency is more than half the sample rate off the centre.
    FrequencyOutOfRange,
}

/// The receiver core.
pub struct IpCore {
    /// The registers' values after the accesses so far.
    pub bank: RegisterBank,
    /// Accesses that have not been carried out yet, oldest first.
    pub ops: Vec<BusOp>,
    /// What the logic reported last.
    pub readings: Readings,
    pub rings: Rings,
}

/// No field of a down-converter's control register.
pub open spec fn no_ddc_fields() -> DdcControlFields {
    DdcControlFields {
        enable_input: None,
        bypass2: None,
        bypass3: None,
        operations_minus_one1: None,
        operations_minus_one2: None,
        operations_minus_one3: None,
        odd_operations1: None,
        odd_operations3: None,
    }
}

/// No level field of an LSM control register.
pub open spec fn no_lsm_fields() -> LsmControlFields {
    LsmControlFields {
        enable: None,
        dibit_dma_enable: None,
        dc_block_enable: None,
        agc_enable: None,
    }
}

/// Whether `after` is `before` with `ops` added to the accesses and their
/// effect in the registers, and nothing else changed.
pub open spec fn wrote(before: IpCore, after: IpCore, ops: Seq<BusOp>) -> bool {
    &&& after.ops@ == before.ops@ + ops
    &&& after.bank == registers::apply_all(before.bank, ops)
    &&& after.readings == before.readings
    &&& after.rings == before.rings
}

/// Writing nothing changes nothing.
pub proof fn lemma_wrote_nothing(core: IpCore)
    ensures
        wrote(core, core, seq![]),
{
    reveal(registers::apply_all);
    assert(core.ops@ + Seq::<BusOp>::empty() =~= core.ops@);
}

/// One run of accesses after another is the two joined.
pub proof fn lemma_wrote_more(a: IpCore, b: IpCore, c: IpCore, x: Seq<BusOp>, y: Seq<BusOp>)
    requires
        wrote(a, b, x),
        wrote(b, c, y),
    ensures
        wrote(a, c, x + y),
{
    assert((a.ops@ + x) + y =~= a.ops@ + (x + y));
    registers::applying_joined_accesses(a.bank, x, y);
}

/// The accesses that write `slots` to the coefficient memory from slot
/// `offset` on: select, write, select, write.
pub open spec fn coefficient_ops(slots: Seq<i32>, offset: int) -> Seq<BusOp> {
    Seq::new(
        2 * slots.len(),
        |i: int|
            if i % 2 == 0 {
                BusOp::CoeffAddress((offset + i / 2) as u16)
            } else {
                BusOp::CoeffWrite(slots[i / 2] as u32)
            },
    )
}

/// The accesses that set up the first stage.
pub open spec fn fir1_ops(taps: Seq<i32>, decimation: int) -> Seq<BusOp> {
    let operations = fir::folded_operations(taps.len() as int, decimation);
    coefficient_ops(fir::folded_layout(taps, decimation), 0) + seq![
        BusOp::DdcDecimation {
            chain: Chain::Control,
            decimation1: Some(decimation as u8),
            decimation2: None,
            decimation3: None,
        },
        BusOp::DdcControl {
            chain: Chain::Control,
            ddc: DdcControlFields {
                operations_minus_one1: Some((operations - 1) as u8),
                odd_operations1: Some(fir::div_up(taps.len() as int, decimation) % 2 == 1),
                ..no_ddc_fields()
            },
        },
    ]
}

/// The accesses that set up the second stage.
pub open spec fn fir2_ops(taps: Seq<i32>, decimation: int) -> Seq<BusOp> {
    let operations = fir::plain_operations(taps.len() as int, decimation);
    coefficient_ops(fir::plain_layout(taps, decimation), 256) + seq![
        BusOp::DdcDecimation {
            chain: Chain::Control,
            decimation1: None,
            decimation2: Some(decimation as u8),
            decimation3: None,
        },
        BusOp::DdcControl {
            chain: Chain::Control,
            ddc: DdcControlFields {
                operations_minus_one2: Some((operations - 1) as u8),
                ..no_ddc_fields()
            },
        },
    ]
}

/// The accesses that set up the third stage.
pub open spec fn fir3_ops(taps: Seq<i32>, decimation: int) -> Seq<BusOp> {
    let operations = fir::folded_operations(taps.len() as int, decimation);
    coefficient_ops(fir::folded_layout(taps, decimation), 512) + seq![
        BusOp::DdcDecimation {
            chain: Chain::Control,
            decimation1: None,
            decimation2: None,
            decimation3: Some(decimation as u8),
        },
        BusOp::DdcControl {
            chain: Chain::Control,
            ddc: DdcControlFields {
                operations_minus_one3: Some((operations - 1) as u8),
                odd_operations3: Some(fir::div_up(taps.len() as int, decimation) % 2 == 1),
                ..no_ddc_fields()
            },
        },
    ]
}

/// The accesses that set up the control channel's down-converter, but for its
/// frequency.
pub open spec fn configure_ddc_ops() -> Seq<BusOp> {
    fir1_ops(P25_FIR1_COEFFS@, P25_DEC1 as int) + fir2_ops(P25_FIR2_COEFFS@, P25_DEC2 as int)
        + fir3_ops(P25_FIR3_COEFFS@, P25_DEC3 as int) + seq![
        BusOp::DdcControl {
            chain: Chain::Control,
            ddc: DdcControlFields {
                bypass2: Some(false),
                bypass3: Some(false),
                ..no_ddc_fields()
            },
        },
    ]
}

/// The accesses that set up the traffic channel's down-converter, but for its
/// frequency. It shares the coefficient memory with the control channel's.
pub open spec fn configure_traffic_ddc_ops() -> Seq<BusOp> {
    seq![
        BusOp::DdcDecimation {
            chain: Chain::Traffic,
            decimation1: Some(P25_DEC1 as u8),
            decimation2: Some(P25_DEC2 as u8),
            decimation3: Some(P25_DEC3 as u8),
        },
        BusOp::DdcControl {
            chain: Chain::Traffic,
            ddc: DdcControlFields {
                enable_input: None,
                bypass2: Some(false),
                bypass3: Some(false),
                operations_minus_one1: Some(
                    (fir::folded_operations(P25_FIR1_COEFFS@.len() as int, P25_DEC1 as int)
                        - 1) as u8,
                ),
                operations_minus_one2: Some(
                    (fir::plain_operations(P25_FIR2_COEFFS@.len() as int, P25_DEC2 as int)
                        - 1) as u8,
                ),
                operations_minus_one3: Some(
                    (fir::folded_operations(P25_FIR3_COEFFS@.len() as int, P25_DEC3 as int)
                        - 1) as u8,
                ),
                odd_operations1: Some(
                    fir::div_up(P25_FIR1_COEFFS@.len() as int, P25_DEC1 as int) % 2 == 1,
                ),
                odd_operations3: Some(
                    fir::div_up(P25_FIR3_COEFFS@.len() as int, P25_DEC3 as int) % 2 == 1,
                ),
            },
        },
    ]
}

pub open spec fn lsm_enable_op(chain: Chain, enable: bool) -> BusOp {
    BusOp::LsmControl {
        chain,
        lsm: LsmControlFields { enable: Some(enable), ..no_lsm_fields() },
    }
}

/// The accesses that quiet the traffic chain.
pub open spec fn pause_ops() -> Seq<BusOp> {
    seq![
        lsm_enable_op(Chain::Traffic, false),
        BusOp::DemodEnable { chain: Chain::Traffic, enable: false },
    ]
}

/// The accesses that move the traffic chain to another frequency: quiet it,
/// set the oscillator, let the filters flush, wake the LSM chain, and only
/// then reset it and wake the other demodulator.
pub open spec fn retune_ops(word: u32) -> Seq<BusOp> {
    pause_ops() + seq![
        BusOp::DdcFrequency { chain: Chain::Traffic, word },
        BusOp::WaitMillis(RETUNE_FLUSH_MS),
        lsm_enable_op(Chain::Traffic, true),
        BusOp::LsmReset { chain: Chain::Traffic },
        BusOp::DemodEnable { chain: Chain::Traffic, enable: true },
    ]
}

impl IpCore {
    /// Take charge of the logic: check its product identifier, then release
    /// the receiver's reset. `initial` holds the registers as they were found.
    pub fn take(
        product_id: u32,
        initial: RegisterBank,
        readings: Readings,
        sizes: RingSizes,
    ) -> (r: Result<IpCore, ProductIdMismatch>)
        ensures
            r is Ok <==> product_id == 0x7032_3566,
            r matches Err(e) ==> e.got == product_id,
            r matches Ok(core) ==> {
                &&& core.ops@ == seq![BusOp::ClearSdrReset]
                &&& core.bank == (RegisterBank { sdr_reset: false, ..initial })
                &&& core.readings == readings
                &&& core.rings == (Rings {
                    dibit: DmaRing { num_buffers: sizes.dibit, last_seen: None },
                    traffic: DmaRing { num_buffers: sizes.traffic, last_seen: None },
                    iq: DmaRing { num_buffers: sizes.iq, last_seen: None },
                    lsm_dibit: DmaRing { num_buffers: sizes.lsm_dibit, last_seen: None },
                    traffic_lsm_dibit: DmaRing {
                        num_buffers: sizes.traffic_lsm_dibit,
                        last_seen: None,
                    },
                })
            },
    {
        if product_id != PRODUCT_ID {
            return Err(ProductIdMismatch { got: product_id });
        }
        let mut ops: Vec<BusOp> = Vec::new();
        ops.push(BusOp::ClearSdrReset);
        assert(ops@ =~= seq![BusOp::ClearSdrReset]);
        Ok(
            IpCore {
                bank: RegisterBank { sdr_reset: false, ..initial },
                ops,
                readings,
                rings: Rings {
                    dibit: DmaRing::new(sizes.dibit),
                    traffic: DmaRing::new(sizes.traffic),
                    iq: DmaRing::new(sizes.iq),
                    lsm_dibit: DmaRing::new(sizes.lsm_dibit),
                    traffic_lsm_dibit: DmaRing::new(sizes.traffic_lsm_dibit),
                },
            },
        )
    }

    /// Hand out the accesses to carry out, oldest first.
    pub fn take_ops(&mut self) -> (ops: Vec<BusOp>)
        ensures
            ops@ == old(self).ops@,
            final(self).ops@.len() == 0,
            final(self).bank == old(self).bank,
            final(self).readings == old(self).readings,
            final(self).rings == old(self).rings,
    {
        let mut ops: Vec<BusOp> = Vec::new();
        std::mem::swap(&mut ops, &mut self.ops);
        ops
    }

    fn write(&mut self, op: BusOp)
        ensures
            wrote(*old(self), *final(self), seq![op]),
    {
        let ghost before = *self;
        self.bank = apply_op(self.bank, op);
        self.ops.push(op);
        proof {
            reveal_with_fuel(registers::apply_all, 2);
            assert(self.ops@ =~= before.ops@ + seq![op]);
            assert(seq![op].drop_last() =~= Seq::<BusOp>::empty());
            assert(registers::apply_all(before.bank, seq![op].drop_last()) == before.bank);
        }
    }

    // -- Coefficient memory ---------------------------------------------------

    fn write_coefficients(&mut self, slots: &Vec<i32>, offset: u16)
        requires
            slots@.len() + offset <= 0x10000,
        ensures
            wrote(*old(self), *final(self), coefficient_ops(slots@, offset as int)),
    {
        let ghost before = *self;
        let mut i: usize = 0;
        proof {
            lemma_wrote_nothing(before);
            assert(coefficient_ops(slots@.take(0), offset as int) =~= Seq::<BusOp>::empty());
        }
        while i < slots.len()
            invariant
                i <= slots@.len(),
                slots@.len() + offset <= 0x10000,
                wrote(before, *self, coefficient_ops(slots@.take(i as int), offset as int)),
            decreases slots@.len() - i,
        {
            let ghost at = *self;
            let address: u16 = (offset as u32 + i as u32) as u16;
            self.write(BusOp::CoeffAddress(address));
            let ghost mid = *self;
            self.write(BusOp::CoeffWrite(slots[i] as u32));
            proof {
                let done = coefficient_ops(slots@.take(i as int), offset as int);
                let a = seq![BusOp::CoeffAddress(address)];
                let b = seq![BusOp::CoeffWrite(slots@[i as int] as u32)];
                lemma_wrote_more(before, at, mid, done, a);
                lemma_wrote_more(before, mid, *self, done + a, b);
                assert(done + a + b =~= coefficient_ops(slots@.take(i + 1), offset as int));
            }
            i = i + 1;
        }
        assert(slots@.take(i as int) =~= slots@);
    }

    /// Load the first stage (four multipliers, folded). Nothing is written when the taps do
    /// not fit.
    pub fn load_fir1(&mut self, coefficients: &[i32], decimation: usize) -> (r: Result<(), DdcError>)
        requires
            0 < decimation,
            0 < coefficients@.len(),
        ensures
            fir::fits_folded(coefficients@.len() as int, decimation as int) ==> r is Ok && wrote(
                *old(self),
                *final(self),
                fir1_ops(coefficients@, decimation as int),
            ),
            !fir::fits_folded(coefficients@.len() as int, decimation as int) ==> r == Err::<
                (),
                DdcError,
            >(DdcError::FoldedFirTooLong) && *final(self) == *old(self),
    {
        match lay_out_folded(coefficients, decimation) {
            None => Err(DdcError::FoldedFirTooLong),
            Some(slots) => {
                let ghost before = *self;
                self.write_coefficients(&slots, 0);
                let ghost loaded = *self;
                proof {
                    fir::folded_stage_bounds(coefficients@.len() as int, decimation as int);
                }
                let branch_len: usize = div_ceil(coefficients.len(), decimation);
                let operations: usize = div_ceil(branch_len, 2);
                self.write(
                    BusOp::DdcDecimation {
                        chain: Chain::Control,
                        decimation1: Some(decimation as u8), decimation2: None, decimation3: None,
                    },
                );
                let ghost decimated = *self;
                self.write(
                    BusOp::DdcControl {
                        chain: Chain::Control,
                        ddc: DdcControlFields {
                            operations_minus_one1: Some((operations - 1) as u8),
                            odd_operations1: Some(branch_len % 2 == 1),
                            ..ddc_fields_none()
                        },
                    },
                );
                proof {
                    let ops = fir1_ops(coefficients@, decimation as int);
                    let n = ops.len() as int;
                    let a = coefficient_ops(slots@, 0);
                    let b = seq![ops[n - 2]];
                    let c = seq![ops[n - 1]];
                    lemma_wrote_more(before, loaded, decimated, a, b);
                    lemma_wrote_more(before, decimated, *self, a + b, c);
                    assert(a + b + c =~= ops);
                }
                Ok(())
            },
        }
    }

    /// Load the second stage (two multipliers, not folded). Nothing is written when the taps do
    /// not fit.
    pub fn load_fir2(&mut self, coefficients: &[i32], decimation: usize) -> (r: Result<(), DdcError>)
        requires
            0 < decimation,
            0 < coefficients@.len(),
        ensures
            fir::fits_plain(coefficients@.len() as int, decimation as int) ==> r is Ok && wrote(
                *old(self),
                *final(self),
                fir2_ops(coefficients@, decimation as int),
            ),
            !fir::fits_plain(coefficients@.len() as int, decimation as int) ==> r == Err::<
                (),
                DdcError,
            >(DdcError::PlainFirTooLong) && *final(self) == *old(self),
    {
        match lay_out_plain(coefficients, decimation) {
            None => Err(DdcError::PlainFirTooLong),
            Some(slots) => {
                let ghost before = *self;
                self.write_coefficients(&slots, 256);
                let ghost loaded = *self;
                proof {
                    fir::plain_stage_bounds(coefficients@.len() as int, decimation as int);
                }
                let branch_len: usize = div_ceil(coefficients.len(), decimation);
                let operations: usize = branch_len;
                self.write(
                    BusOp::DdcDecimation {
                        chain: Chain::Control,
                        decimation1: None, decimation2: Some(decimation as u8), decimation3: None,
                    },
                );
                let ghost decimated = *self;
                self.write(
                    BusOp::DdcControl {
                        chain: Chain::Control,
                        ddc: DdcControlFields {
                            operations_minus_one2: Some((operations - 1) as u8),
                            ..ddc_fields_none()
                        },
                    },
                );
                proof {
                    let ops = fir2_ops(coefficients@, decimation as int);
                    let n = ops.len() as int;
                    let a = coefficient_ops(slots@, 256);
                    let b = seq![ops[n - 2]];
                    let c = seq![ops[n - 1]];
                    lemma_wrote_more(before, loaded, decimated, a, b);
                    lemma_wrote_more(before, decimated, *self, a + b, c);
                    assert(a + b + c =~= ops);
                }
                Ok(())
            },
        }
    }

    /// Load the third stage (four multipliers, folded). Nothing is written when the taps do
    /// not fit.
    pub fn load_fir3(&mut self, coefficients: &[i32], decimation: usize) -> (r: Result<(), DdcError>)
        requires
            0 < decimation,
            0 < coefficients@.len(),
        ensures
            fir::fits_folded(coefficients@.len() as int, decimation as int) ==> r is Ok && wrote(
                *old(self),
                *final(self),
                fir3_ops(coefficients@, decimation as int),
            ),
            !fir::fits_folded(coefficients@.len() as int, decimation as int) ==> r == Err::<
                (),
                DdcError,
            >(DdcError::FoldedFirTooLong) && *final(self) == *old(self),
    {
        match lay_out_folded(coefficients, decimation) {
            None => Err(DdcError::FoldedFirTooLong),
            Some(slots) => {
                let ghost before = *self;
                self.write_coefficients(&slots, 512);
                let ghost loaded = *self;
                proof {
                    fir::folded_stage_bounds(coefficients@.len() as int, decimation as int);
                }
                let branch_len: usize = div_ceil(coefficients.len(), decimation);
                let operations: usize = div_ceil(branch_len, 2);
                self.write(
                    BusOp::DdcDecimation {
                        chain: Chain::Control,
                        decimation1: None, decimation2: None, decimation3: Some(decimation as u8),
                    },
                );
                let ghost decimated = *self;
                self.write(
                    BusOp::DdcControl {
                        chain: Chain::Control,
                        ddc: DdcControlFields {
                            operations_minus_one3: Some((operations - 1) as u8),
                            odd_operations3: Some(branch_len % 2 == 1),
                            ..ddc_fields_none()
                        },
                    },
                );
                proof {
                    let ops = fir3_ops(coefficients@, decimation as int);
                    let n = ops.len() as int;
                    let a = coefficient_ops(slots@, 512);
                    let b = seq![ops[n - 2]];
                    let c = seq![ops[n - 1]];
                    lemma_wrote_more(before, loaded, decimated, a, b);
                    lemma_wrote_more(before, decimated, *self, a + b, c);
                    assert(a + b + c =~= ops);
                }
                Ok(())
            },
        }
    }

    // -- Control channel ------------------------------------------------------

    /// Set up the control channel's down-converter: the taps and decimations
    /// of its three stages, no bypass, and the frequency. The frequency comes
    /// last, as the phase increment of the oscillator, `None` when the offset
    /// is outside half the sample rate.
    pub fn configure_ddc(&mut self, nco_word: Option<u32>) -> (r: Result<(), DdcError>)
        ensures
            nco_word matches Some(word) ==> r is Ok && wrote(
                *old(self),
                *final(self),
                configure_ddc_ops().push(BusOp::DdcFrequency { chain: Chain::Control, word }),
            ),
            nco_word is None ==> r == Err::<(), DdcError>(DdcError::FrequencyOutOfRange) && wrote(
                *old(self),
                *final(self),
                configure_ddc_ops(),
            ),
    {
        let ghost a = *self;
        let fir1 = self.load_fir1(&P25_FIR1_COEFFS, P25_DEC1);
        let ghost b = *self;
        let fir2 = self.load_fir2(&P25_FIR2_COEFFS, P25_DEC2);
        let ghost c = *self;
        let fir3 = self.load_fir3(&P25_FIR3_COEFFS, P25_DEC3);
        let ghost d = *self;
        self.write(
            BusOp::DdcControl {
                chain: Chain::Control,
                ddc: DdcControlFields {
                    bypass2: Some(false),
                    bypass3: Some(false),
                    ..ddc_fields_none()
                },
            },
        );
        let ghost e = *self;
        proof {
            let f1 = fir1_ops(P25_FIR1_COEFFS@, P25_DEC1 as int);
            let f2 = fir2_ops(P25_FIR2_COEFFS@, P25_DEC2 as int);
            let f3 = fir3_ops(P25_FIR3_COEFFS@, P25_DEC3 as int);
            let last = seq![configure_ddc_ops().last()];
            assert(wrote(d, e, last));
            lemma_wrote_more(a, b, c, f1, f2);
            lemma_wrote_more(a, c, d, f1 + f2, f3);
            lemma_wrote_more(a, d, e, f1 + f2 + f3, last);
        }
        let r = self.set_ddc_frequency(nco_word);
        proof {
            if let Some(word) = nco_word {
                let op = BusOp::DdcFrequency { chain: Chain::Control, word };
                lemma_wrote_more(a, e, *self, configure_ddc_ops(), seq![op]);
                assert(configure_ddc_ops() + seq![op] =~= configure_ddc_ops().push(op));
            }
        }
        r
    }

    /// Set the oscillator of the control channel. Nothing is written when the
    /// frequency is out of range.
    pub fn set_ddc_frequency(&mut self, nco_word: Option<u32>) -> (r: Result<(), DdcError>)
        ensures
            nco_word matches Some(word) ==> r is Ok && wrote(
                *old(self),
                *final(self),
                seq![BusOp::DdcFrequency { chain: Chain::Control, word }],
            ),
            nco_word is None ==> r == Err::<(), DdcError>(DdcError::FrequencyOutOfRange)
                && *final(self) == *old(self),
    {
        match nco_word {
            None => Err(DdcError::FrequencyOutOfRange),
            Some(word) => {
                self.write(BusOp::DdcFrequency { chain: Chain::Control, word });
                Ok(())
            },
        }
    }

    /// Let samples into the control channel's down-converter, or not.
    pub fn set_ddc_enable(&mut self, enable: bool)
        ensures
            wrote(
                *old(self),
                *final(self),
                seq![
                    BusOp::DdcControl {
                        chain: Chain::Control,
                        ddc: DdcControlFields { enable_input: Some(enable), ..no_ddc_fields() },
                    },
                ],
            ),
    {
        self.write(
            BusOp::DdcControl {
                chain: Chain::Control,
                ddc: DdcControlFields { enable_input: Some(enable), ..ddc_fields_none() },
            },
        );
    }

    /// Switch the control channel's C4FM demodulator.
    pub fn set_demod_enable(&mut self, enable: bool)
        ensures
            wrote(*old(self), *final(self), seq![BusOp::DemodEnable { chain: Chain::Control, enable }]),
    {
        self.write(BusOp::DemodEnable { chain: Chain::Control, enable });
    }

    /// Dibits demodulated so far, modulo 65536.
    pub fn dibit_count(&self) -> (v: u16)
        ensures
            v == self.readings.dibit_count,
    {
        self.readings.dibit_count
    }

    /// Whether the demodulator has overflowed.
    pub fn demod_overflow(&self) -> (v: bool)
        ensures
            v == self.readings.demod_overflow,
    {
        self.readings.demod_overflow
    }

    /// The sub-buffer of the dibit ring completed last; all ones before the first.
    pub fn dibit_last_buffer(&self) -> (v: u8)
        ensures
            v == self.readings.dibit_last_buffer,
    {
        self.readings.dibit_last_buffer
    }

    /// The address that the dibit ring is written at.
    pub fn dibit_next_address(&self) -> (v: u32)
        ensures
            v == self.readings.dibit_next_address,
    {
        self.readings.dibit_next_address
    }

    /// The sub-buffers of the dibit ring completed since the last call.
    pub fn read_dibit_buffers(&mut self) -> (buffers: Vec<usize>)
        ensures
            buffers@ == dma::new_buffers(old(self).rings.dibit, old(self).readings.dibit_last_buffer),
            final(self).rings == (Rings {
                dibit: dma::after_report(
                    old(self).rings.dibit,
                    old(self).readings.dibit_last_buffer,
                ),
                ..old(self).rings
            }),
            final(self).ops == old(self).ops,
            final(self).bank == old(self).bank,
            final(self).readings == old(self).readings,
    {
        self.rings.dibit.read_new(self.readings.dibit_last_buffer)
    }

    // -- Traffic channel ------------------------------------------------------

    /// Set up the traffic channel's down-converter: decimations and operation
    /// counts as for the control channel, no bypass, and the frequency. The
    /// coefficient memory is shared, so the control channel's comes first.
    pub fn configure_traffic_ddc(&mut self, nco_word: Option<u32>) -> (r: Result<(), DdcError>)
        ensures
            nco_word matches Some(word) ==> r is Ok && wrote(
                *old(self),
                *final(self),
                configure_traffic_ddc_ops().push(
                    BusOp::DdcFrequency { chain: Chain::Traffic, word },
                ),
            ),
            nco_word is None ==> r == Err::<(), DdcError>(DdcError::FrequencyOutOfRange) && wrote(
                *old(self),
                *final(self),
                configure_traffic_ddc_ops(),
            ),
    {
        let ghost a = *self;
        let branch_len1: usize = div_ceil(P25_FIR1_COEFFS.len(), P25_DEC1);
        let operations1: usize = div_ceil(branch_len1, 2);
        let operations2: usize = div_ceil(P25_FIR2_COEFFS.len(), P25_DEC2);
        let branch_len3: usize = div_ceil(P25_FIR3_COEFFS.len(), P25_DEC3);
        let operations3: usize = div_ceil(branch_len3, 2);
        self.write(
            BusOp::DdcDecimation {
                chain: Chain::Traffic,
                decimation1: Some(P25_DEC1 as u8),
                decimation2: Some(P25_DEC2 as u8),
                decimation3: Some(P25_DEC3 as u8),
            },
        );
        let ghost b = *self;
        self.write(
            BusOp::DdcControl {
                chain: Chain::Traffic,
                ddc: DdcControlFields {
                    enable_input: None,
                    bypass2: Some(false),
                    bypass3: Some(false),
                    operations_minus_one1: Some((operations1 - 1) as u8),
                    operations_minus_one2: Some((operations2 - 1) as u8),
                    operations_minus_one3: Some((operations3 - 1) as u8),
                    odd_operations1: Some(branch_len1 % 2 == 1),
                    odd_operations3: Some(branch_len3 % 2 == 1),
                },
            },
        );
        let ghost c = *self;
        proof {
            let ops = configure_traffic_ddc_ops();
            assert(wrote(a, b, seq![ops[0]]));
            assert(wrote(b, c, seq![ops[1]]));
            lemma_wrote_more(a, b, c, seq![ops[0]], seq![ops[1]]);
            assert(seq![ops[0]] + seq![ops[1]] =~= ops);
        }
        let r = self.set_traffic_ddc_frequency(nco_word);
        proof {
            if let Some(word) = nco_word {
                let op = BusOp::DdcFrequency { chain: Chain::Traffic, word };
                lemma_wrote_more(a, c, *self, configure_traffic_ddc_ops(), seq![op]);
                assert(configure_traffic_ddc_ops() + seq![op] =~= configure_traffic_ddc_ops().push(
                    op,
                ));
            }
        }
        r
    }

    /// Set the oscillator of the traffic channel to a phase increment.
    pub fn set_traffic_ddc_frequency_word(&mut self, nco_word: u32)
        ensures
            wrote(
                *old(self),
                *final(self),
                seq![BusOp::DdcFrequency { chain: Chain::Traffic, word: nco_word }],
            ),
    {
        self.write(BusOp::DdcFrequency { chain: Chain::Traffic, word: nco_word });
    }

    /// Set the oscillator of the traffic channel. Nothing is written when the
    /// frequency is out of range.
    pub fn set_traffic_ddc_frequency(&mut self, nco_word: Option<u32>) -> (r: Result<(), DdcError>)
        ensures
            nco_word matches Some(word) ==> r is Ok && wrote(
                *old(self),
                *final(self),
                seq![BusOp::DdcFrequency { chain: Chain::Traffic, word }],
            ),
            nco_word is None ==> r == Err::<(), DdcError>(DdcError::FrequencyOutOfRange)
                && *final(self) == *old(self),
    {
        match nco_word {
            None => Err(DdcError::FrequencyOutOfRange),
            Some(word) => {
                self.set_traffic_ddc_frequency_word(word);
                Ok(())
            },
        }
    }

    /// Let samples into the traffic channel's down-converter, or not.
    pub fn set_traffic_ddc_enable(&mut self, enable: bool)
        ensures
            wrote(
                *old(self),
                *final(self),
                seq![
                    BusOp::DdcControl {
                        chain: Chain::Traffic,
                        ddc: DdcControlFields { enable_input: Some(enable), ..no_ddc_fields() },
                    },
                ],
            ),
    {
        self.write(
            BusOp::DdcControl {
                chain: Chain::Traffic,
                ddc: DdcControlFields { enable_input: Some(enable), ..ddc_fields_none() },
            },
        );
    }

    /// Switch the traffic channel's C4FM demodulator.
    pub fn set_traffic_demod_enable(&mut self, enable: bool)
        ensures
            wrote(*old(self), *final(self), seq![BusOp::DemodEnable { chain: Chain::Traffic, enable }]),
    {
        self.write(BusOp::DemodEnable { chain: Chain::Traffic, enable });
    }

    /// The sub-buffer of the traffic ring completed last.
    pub fn traffic_last_buffer(&self) -> (v: u8)
        ensures
            v == self.readings.traffic_last_buffer,
    {
        self.readings.traffic_last_buffer
    }

    /// The address that the traffic ring is written at.
    pub fn traffic_next_address(&self) -> (v: u32)
        ensures
            v == self.readings.traffic_next_address,
    {
        self.readings.traffic_next_address
    }

    /// The sub-buffers of the traffic ring completed since the last call.
    pub fn read_traffic_buffers(&mut self) -> (buffers: Vec<usize>)
        ensures
            buffers@ == dma::new_buffers(old(self).rings.traffic, old(self).readings.traffic_last_buffer),
            final(self).rings == (Rings {
                traffic: dma::after_report(
                    old(self).rings.traffic,
                    old(self).readings.traffic_last_buffer,
                ),
                ..old(self).rings
            }),
            final(self).ops == old(self).ops,
            final(self).bank == old(self).bank,
            final(self).readings == old(self).readings,
    {
        self.rings.traffic.read_new(self.readings.traffic_last_buffer)
    }

    // -- IQ ring --------------------------------------------------------------

    /// Switch the IQ ring.
    pub fn set_iq_dma_enable(&mut self, enable: bool)
        ensures
            wrote(*old(self), *final(self), seq![BusOp::IqEnable(enable)]),
    {
        self.write(BusOp::IqEnable(enable));
    }

    /// The sub-buffer of the IQ ring completed last; all ones before the first.
    pub fn iq_last_buffer(&self) -> (v: u8)
        ensures
            v == self.readings.iq_last_buffer,
    {
        self.readings.iq_last_buffer
    }

    /// Whether the IQ ring stalled since the last read. Reading clears it.
    pub fn iq_overflow(&mut self) -> (v: bool)
        ensures
            v == old(self).readings.iq_overflow,
            final(self).readings == (Readings { iq_overflow: false, ..old(self).readings }),
            final(self).ops == old(self).ops,
            final(self).bank == old(self).bank,
            final(self).rings == old(self).rings,
    {
        let v: bool = self.readings.iq_overflow;
        self.readings.iq_overflow = false;
        v
    }

    /// The address that the IQ ring is written at.
    pub fn iq_next_address(&self) -> (v: u32)
        ensures
            v == self.readings.iq_next_address,
    {
        self.readings.iq_next_address
    }

    /// The sub-buffers of the IQ ring completed since the last call.
    pub fn read_iq_buffers(&mut self) -> (buffers: Vec<usize>)
        ensures
            buffers@ == dma::new_buffers(old(self).rings.iq, old(self).readings.iq_last_buffer),
            final(self).rings == (Rings {
                iq: dma::after_report(
                    old(self).rings.iq,
                    old(self).readings.iq_last_buffer,
                ),
                ..old(self).rings
            }),
            final(self).ops == old(self).ops,
            final(self).bank == old(self).bank,
            final(self).readings == old(self).readings,
    {
        self.rings.iq.read_new(self.readings.iq_last_buffer)
    }

    // -- LSM chain, control channel --------------------------------------------

    /// Take the level fields of a chain's LSM control register as they read.
    pub fn observe_lsm(&mut self, chain: Chain, lsm: LsmRegisters)
        ensures
            final(self).bank == old(self).bank.with_chain(
                chain,
                ChainRegisters { lsm, ..old(self).bank.chain(chain) },
            ),
            final(self).ops == old(self).ops,
            final(self).readings == old(self).readings,
            final(self).rings == old(self).rings,
    {
        match chain {
            Chain::Control => {
                self.bank.control.lsm = lsm;
            },
            Chain::Traffic => {
                self.bank.traffic.lsm = lsm;
            },
        }
    }

    /// Switch the control channel's LSM chain.
    pub fn set_lsm_enable(&mut self, enable: bool)
        ensures
            wrote(
                *old(self),
                *final(self),
                seq![
                    BusOp::LsmControl {
                        chain: Chain::Control,
                        lsm: LsmControlFields { enable: Some(enable), ..no_lsm_fields() },
                    },
                ],
            ),
    {
        self.write(
            BusOp::LsmControl {
                chain: Chain::Control,
                lsm: LsmControlFields { enable: Some(enable), ..lsm_fields_none() },
            },
        );
    }

    /// Switch the control channel's LSM dibit ring.
    pub fn set_lsm_dibit_dma_enable(&mut self, enable: bool)
        ensures
            wrote(
                *old(self),
                *final(self),
                seq![
                    BusOp::LsmControl {
                        chain: Chain::Control,
                        lsm: LsmControlFields { dibit_dma_enable: Some(enable), ..no_lsm_fields() },
                    },
                ],
            ),
    {
        self.write(
            BusOp::LsmControl {
                chain: Chain::Control,
                lsm: LsmControlFields { dibit_dma_enable: Some(enable), ..lsm_fields_none() },
            },
        );
    }

    /// Switch the DC blocker of the control channel's LSM chain.
    pub fn set_lsm_dc_block_enable(&mut self, enable: bool)
        ensures
            wrote(
                *old(self),
                *final(self),
                seq![
                    BusOp::LsmControl {
                        chain: Chain::Control,
                        lsm: LsmControlFields { dc_block_enable: Some(enable), ..no_lsm_fields() },
                    },
                ],
            ),
    {
        self.write(
            BusOp::LsmControl {
                chain: Chain::Control,
                lsm: LsmControlFields { dc_block_enable: Some(enable), ..lsm_fields_none() },
            },
        );
    }

    /// Switch the gain control of the control channel's LSM chain.
    pub fn set_lsm_agc_enable(&mut self, enable: bool)
        ensures
            wrote(
                *old(self),
                *final(self),
                seq![
                    BusOp::LsmControl {
                        chain: Chain::Control,
                        lsm: LsmControlFields { agc_enable: Some(enable), ..no_lsm_fields() },
                    },
                ],
            ),
    {
        self.write(
            BusOp::LsmControl {
                chain: Chain::Control,
                lsm: LsmControlFields { agc_enable: Some(enable), ..lsm_fields_none() },
            },
        );
    }

    /// Reset the control channel's LSM chain once, and no level field with it.
    pub fn pulse_lsm_reset(&mut self)
        ensures
            wrote(*old(self), *final(self), seq![BusOp::LsmReset { chain: Chain::Control }]),
    {
        self.write(BusOp::LsmReset { chain: Chain::Control });
    }

    /// The control channel's LSM levels: chain, dibit ring, DC blocker.
    pub fn lsm_control_readback(&self) -> (v: (bool, bool, bool))
        ensures
            v == (
                self.bank.control.lsm.enable,
                self.bank.control.lsm.dibit_dma_enable,
                self.bank.control.lsm.dc_block_enable,
            ),
    {
        (
            self.bank.control.lsm.enable,
            self.bank.control.lsm.dibit_dma_enable,
            self.bank.control.lsm.dc_block_enable,
        )
    }

    /// What the control channel's LSM chain reports. Reading clears the two latches.
    pub fn lsm_status(&mut self) -> (s: LsmStatusSnapshot)
        ensures
            s == old(self).readings.lsm.status,
            final(self).readings == (Readings {
                lsm: LsmReadings {
                    status: LsmStatusSnapshot { nid_event: false, dibit_overflow: false, ..s },
                    ..old(self).readings.lsm
                },
                ..old(self).readings
            }),
            final(self).ops == old(self).ops,
            final(self).bank == old(self).bank,
            final(self).rings == old(self).rings,
    {
        let s: LsmStatusSnapshot = self.readings.lsm.status;
        self.readings.lsm.status.nid_event = false;
        self.readings.lsm.status.dibit_overflow = false;
        s
    }

    /// NAC and DUID of the control channel's last NID.
    pub fn lsm_nid(&self) -> (v: (u16, u8))
        ensures
            v == (self.readings.lsm.nac, self.readings.lsm.duid),
    {
        (self.readings.lsm.nac, self.readings.lsm.duid)
    }

    /// NIDs that the control channel's error correction was too busy for.
    pub fn lsm_drop_count(&self) -> (v: u16)
        ensures
            v == self.readings.lsm.drop_count,
    {
        self.readings.lsm.drop_count
    }

    /// The sub-buffer of the control channel's LSM dibit ring completed last.
    pub fn lsm_dibit_last_buffer(&self) -> (v: u8)
        ensures
            v == self.readings.lsm.dibit_last_buffer,
    {
        self.readings.lsm.dibit_last_buffer
    }

    /// The address that the control channel's LSM dibit ring is written at.
    pub fn lsm_dibit_next_address(&self) -> (v: u32)
        ensures
            v == self.readings.lsm.dibit_next_address,
    {
        self.readings.lsm.dibit_next_address
    }

    /// Loop phase and timing of the control channel's LSM chain, as signed numbers.
    pub fn lsm_debug(&self) -> (v: (i16, i16))
        ensures
            v == (self.readings.lsm.pll_dbg as i16, self.readings.lsm.sample_point_dbg as i16),
    {
        (self.readings.lsm.pll_dbg as i16, self.readings.lsm.sample_point_dbg as i16)
    }

    /// The sub-buffers of the control channel's LSM dibit ring completed since the last
    /// call.
    pub fn read_lsm_dibit_buffers(&mut self) -> (buffers: Vec<usize>)
        ensures
            buffers@ == dma::new_buffers(old(self).rings.lsm_dibit, old(self).readings.lsm.dibit_last_buffer),
            final(self).rings == (Rings {
                lsm_dibit: dma::after_report(
                    old(self).rings.lsm_dibit,
                    old(self).readings.lsm.dibit_last_buffer,
                ),
                ..old(self).rings
            }),
            final(self).ops == old(self).ops,
            final(self).bank == old(self).bank,
            final(self).readings == old(self).readings,
    {
        self.rings.lsm_dibit.read_new(self.readings.lsm.dibit_last_buffer)
    }

    // -- LSM chain, traffic channel --------------------------------------------

    /// Switch the traffic channel's LSM chain.
    pub fn set_traffic_lsm_enable(&mut self, enable: bool)
        ensures
            wrote(
                *old(self),
                *final(self),
                seq![
                    BusOp::LsmControl {
                        chain: Chain::Traffic,
                        lsm: LsmControlFields { enable: Some(enable), ..no_lsm_fields() },
                    },
                ],
            ),
    {
        self.write(
            BusOp::LsmControl {
                chain: Chain::Traffic,
                lsm: LsmControlFields { enable: Some(enable), ..lsm_fields_none() },
            },
        );
    }

    /// Switch the traffic channel's LSM dibit ring.
    pub fn set_traffic_lsm_dibit_dma_enable(&mut self, enable: bool)
        ensures
            wrote(
                *old(self),
                *final(self),
                seq![
                    BusOp::LsmControl {
                        chain: Chain::Traffic,
                        lsm: LsmControlFields { dibit_dma_enable: Some(enable), ..no_lsm_fields() },
                    },
                ],
            ),
    {
        self.write(
            BusOp::LsmControl {
                chain: Chain::Traffic,
                lsm: LsmControlFields { dibit_dma_enable: Some(enable), ..lsm_fields_none() },
            },
        );
    }

    /// Switch the DC blocker of the traffic channel's LSM chain.
    pub fn set_traffic_lsm_dc_block_enable(&mut self, enable: bool)
        ensures
            wrote(
                *old(self),
                *final(self),
                seq![
                    BusOp::LsmControl {
                        chain: Chain::Traffic,
                        lsm: LsmControlFields { dc_block_enable: Some(enable), ..no_lsm_fields() },
                    },
                ],
            ),
    {
        self.write(
            BusOp::LsmControl {
                chain: Chain::Traffic,
                lsm: LsmControlFields { dc_block_enable: Some(enable), ..lsm_fields_none() },
            },
        );
    }

    /// Switch the gain control of the traffic channel's LSM chain.
    pub fn set_traffic_lsm_agc_enable(&mut self, enable: bool)
        ensures
            wrote(
                *old(self),
                *final(self),
                seq![
                    BusOp::LsmControl {
                        chain: Chain::Traffic,
                        lsm: LsmControlFields { agc_enable: Some(enable), ..no_lsm_fields() },
                    },
                ],
            ),
    {
        self.write(
            BusOp::LsmControl {
                chain: Chain::Traffic,
                lsm: LsmControlFields { agc_enable: Some(enable), ..lsm_fields_none() },
            },
        );
    }

    /// Reset the traffic channel's LSM chain once, and no level field with it.
    pub fn pulse_traffic_lsm_reset(&mut self)
        ensures
            wrote(*old(self), *final(self), seq![BusOp::LsmReset { chain: Chain::Traffic }]),
    {
        self.write(BusOp::LsmReset { chain: Chain::Traffic });
    }

    /// Move the traffic chain to another frequency. When the frequency is out
    /// of range the chain is left quiet.
    pub fn retune_traffic_chain(&mut self, nco_word: Option<u32>) -> (r: Result<(), DdcError>)
        ensures
            nco_word matches Some(word) ==> r is Ok && wrote(
                *old(self),
                *final(self),
                retune_ops(word),
            ),
            nco_word is None ==> r == Err::<(), DdcError>(DdcError::FrequencyOutOfRange) && wrote(
                *old(self),
                *final(self),
                pause_ops(),
            ),
    {
        let ghost a = *self;
        self.pause_traffic_chain();
        let ghost b = *self;
        match self.set_traffic_ddc_frequency(nco_word) {
            Err(e) => Err(e),
            Ok(()) => {
                let ghost c = *self;
                self.write(BusOp::WaitMillis(RETUNE_FLUSH_MS));
                let ghost d = *self;
                self.set_traffic_lsm_enable(true);
                let ghost e = *self;
                self.pulse_traffic_lsm_reset();
                let ghost f = *self;
                self.set_traffic_demod_enable(true);
                proof {
                    let word = nco_word->0;
                    let ops = retune_ops(word);
                    assert(wrote(a, b, pause_ops()));
                    lemma_wrote_more(a, b, c, pause_ops(), seq![ops[2]]);
                    lemma_wrote_more(a, c, d, pause_ops() + seq![ops[2]], seq![ops[3]]);
                    let upto3 = pause_ops() + seq![ops[2]] + seq![ops[3]];
                    assert(wrote(d, e, seq![ops[4]]));
                    lemma_wrote_more(a, d, e, upto3, seq![ops[4]]);
                    lemma_wrote_more(a, e, f, upto3 + seq![ops[4]], seq![ops[5]]);
                    lemma_wrote_more(
                        a,
                        f,
                        *self,
                        upto3 + seq![ops[4]] + seq![ops[5]],
                        seq![ops[6]],
                    );
                    assert(upto3 + seq![ops[4]] + seq![ops[5]] + seq![ops[6]] =~= ops);
                }
                Ok(())
            },
        }
    }

    /// Quiet the traffic chain between calls.
    pub fn pause_traffic_chain(&mut self)
        ensures
            wrote(*old(self), *final(self), pause_ops()),
    {
        let ghost a = *self;
        self.set_traffic_lsm_enable(false);
        let ghost b = *self;
        self.set_traffic_demod_enable(false);
        proof {
            assert(wrote(a, b, seq![pause_ops()[0]]));
            lemma_wrote_more(a, b, *self, seq![pause_ops()[0]], seq![pause_ops()[1]]);
            assert(seq![pause_ops()[0]] + seq![pause_ops()[1]] =~= pause_ops());
        }
    }

    /// The traffic channel's LSM levels: chain, dibit ring, DC blocker.
    pub fn traffic_lsm_control_readback(&self) -> (v: (bool, bool, bool))
        ensures
            v == (
                self.bank.traffic.lsm.enable,
                self.bank.traffic.lsm.dibit_dma_enable,
                self.bank.traffic.lsm.dc_block_enable,
            ),
    {
        (
            self.bank.traffic.lsm.enable,
            self.bank.traffic.lsm.dibit_dma_enable,
            self.bank.traffic.lsm.dc_block_enable,
        )
    }

    /// What the traffic channel's LSM chain reports. Reading clears the two latches.
    pub fn traffic_lsm_status(&mut self) -> (s: LsmStatusSnapshot)
        ensures
            s == old(self).readings.traffic_lsm.status,
            final(self).readings == (Readings {
                traffic_lsm: LsmReadings {
                    status: LsmStatusSnapshot { nid_event: false, dibit_overflow: false, ..s },
                    ..old(self).readings.traffic_lsm
                },
                ..old(self).readings
            }),
            final(self).ops == old(self).ops,
            final(self).bank == old(self).bank,
            final(self).rings == old(self).rings,
    {
        let s: LsmStatusSnapshot = self.readings.traffic_lsm.status;
        self.readings.traffic_lsm.status.nid_event = false;
        self.readings.traffic_lsm.status.dibit_overflow = false;
        s
    }

    /// NAC and DUID of the traffic channel's last NID.
    pub fn traffic_lsm_nid(&self) -> (v: (u16, u8))
        ensures
            v == (self.readings.traffic_lsm.nac, self.readings.traffic_lsm.duid),
    {
        (self.readings.traffic_lsm.nac, self.readings.traffic_lsm.duid)
    }

    /// NIDs that the traffic channel's error correction was too busy for.
    pub fn traffic_lsm_drop_count(&self) -> (v: u16)
        ensures
            v == self.readings.traffic_lsm.drop_count,
    {
        self.readings.traffic_lsm.drop_count
    }

    /// The sub-buffer of the traffic channel's LSM dibit ring completed last.
    pub fn traffic_lsm_dibit_last_buffer(&self) -> (v: u8)
        ensures
            v == self.readings.traffic_lsm.dibit_last_buffer,
    {
        self.readings.traffic_lsm.dibit_last_buffer
    }

    /// The address that the traffic channel's LSM dibit ring is written at.
    pub fn traffic_lsm_dibit_next_address(&self) -> (v: u32)
        ensures
            v == self.readings.traffic_lsm.dibit_next_address,
    {
        self.readings.traffic_lsm.dibit_next_address
    }

    /// Loop phase and timing of the traffic channel's LSM chain, as signed numbers.
    pub fn traffic_lsm_debug(&self) -> (v: (i16, i16))
        ensures
            v == (self.readings.traffic_lsm.pll_dbg as i16, self.readings.traffic_lsm.sample_point_dbg as i16),
    {
        (self.readings.traffic_lsm.pll_dbg as i16, self.readings.traffic_lsm.sample_point_dbg as i16)
    }

    /// The sub-buffers of the traffic channel's LSM dibit ring completed since the last
    /// call.
    pub fn read_traffic_lsm_dibit_buffers(&mut self) -> (buffers: Vec<usize>)
        ensures
            buffers@ == dma::new_buffers(old(self).rings.traffic_lsm_dibit, old(self).readings.traffic_lsm.dibit_last_buffer),
            final(self).rings == (Rings {
                traffic_lsm_dibit: dma::after_report(
                    old(self).rings.traffic_lsm_dibit,
                    old(self).readings.traffic_lsm.dibit_last_buffer,
                ),
                ..old(self).rings
            }),
            final(self).ops == old(self).ops,
            final(self).bank == old(self).bank,
            final(self).readings == old(self).readings,
    {
        self.rings.traffic_lsm_dibit.read_new(self.readings.traffic_lsm.dibit_last_buffer)
    }
}

fn ddc_fields_none() -> (f: DdcControlFields)
    ensures
        f == no_ddc_fields(),
{
    DdcControlFields {
        enable_input: None,
        bypass2: None,
        bypass3: None,
        operations_minus_one1: None,
        operations_minus_one2: None,
        operations_minus_one3: None,
        odd_operations1: None,
        odd_operations3: None,
    }
}

fn lsm_fields_none() -> (f: LsmControlFields)
    ensures
        f == no_lsm_fields(),
{
    LsmControlFields {
        enable: None,
        dibit_dma_enable: None,
        dc_block_enable: None,
        agc_enable: None,
    }
}

/// A run of accesses is added to those that wait and takes effect in the
/// registers; what the logic reported and the rings stay as they are.
pub proof fn accesses_wait_in_order(before: IpCore, after: IpCore, ops: Seq<BusOp>)
    requires
        wrote(before, after, ops),
    ensures
        after.ops@ == before.ops@ + ops,
        after.bank == registers::apply_all(before.bank, ops),
        after.readings == before.readings,
        after.rings == before.rings,
{
}

/// Without a field named, a control register keeps all its fields.
pub proof fn nothing_named_is_kept(bank: RegisterBank, chain: Chain)
    ensures
        registers::apply(bank, BusOp::DdcControl { chain, ddc: no_ddc_fields() }) == bank,
        registers::apply(bank, BusOp::LsmControl { chain, lsm: no_lsm_fields() }) == bank,
{
}

/// Whatever its taps, a stage that is loaded is set up for them: the decimation
/// as given, and as many operations as its branches need, counted from zero. The
/// other stages, the frequency and the other chain stay as they are.
pub proof fn loading_sets_the_stage_up(taps: Seq<i32>, decimation: int)
    ensures
        ({
            let f1 = fir1_ops(taps, decimation);
            let f2 = fir2_ops(taps, decimation);
            let f3 = fir3_ops(taps, decimation);
            &&& f1.len() == 514 && f2.len() == 258 && f3.len() == 514
            &&& f1[512] == (BusOp::DdcDecimation {
                chain: Chain::Control,
                decimation1: Some(decimation as u8),
                decimation2: None,
                decimation3: None,
            })
            &&& f2[256] == (BusOp::DdcDecimation {
                chain: Chain::Control,
                decimation1: None,
                decimation2: Some(decimation as u8),
                decimation3: None,
            })
            &&& f3[512] == (BusOp::DdcDecimation {
                chain: Chain::Control,
                decimation1: None,
                decimation2: None,
                decimation3: Some(decimation as u8),
            })
            &&& f1[513] matches BusOp::DdcControl { chain: Chain::Control, ddc }
            &&& ddc.operations_minus_one1 == Some(
                (fir::folded_operations(taps.len() as int, decimation) - 1) as u8,
            )
            &&& ddc.odd_operations1 == Some(fir::div_up(taps.len() as int, decimation) % 2 == 1)
            &&& ddc.operations_minus_one2 is None && ddc.operations_minus_one3 is None
            &&& ddc.odd_operations3 is None && ddc.enable_input is None
        }),
        ({
            let f2 = fir2_ops(taps, decimation);
            let f3 = fir3_ops(taps, decimation);
            &&& f2[257] matches BusOp::DdcControl { chain: Chain::Control, ddc: second }
            &&& second.operations_minus_one2 == Some(
                (fir::plain_operations(taps.len() as int, decimation) - 1) as u8,
            )
            &&& second.operations_minus_one1 is None && second.operations_minus_one3 is None
            &&& f3[513] matches BusOp::DdcControl { chain: Chain::Control, ddc: third }
            &&& third.operations_minus_one3 == Some(
                (fir::folded_operations(taps.len() as int, decimation) - 1) as u8,
            )
            &&& third.odd_operations3 == Some(fir::div_up(taps.len() as int, decimation) % 2 == 1)
            &&& third.operations_minus_one1 is None && third.operations_minus_one2 is None
        }),
{
}

} // verus!
