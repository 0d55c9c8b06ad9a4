//! What runs of accesses to the logic amount to.

use vstd::prelude::*;
use crate::fpga::fir;
use crate::fpga::ip_core;
use crate::fpga::registers;
use crate::fpga::registers::{BusOp, Chain, ChainRegisters, DdcRegisters, LsmRegisters, RegisterBank};
use crate::fpga::tables::{
    P25_DEC1, P25_DEC2, P25_DEC3, P25_FIR1_COEFFS, P25_FIR2_COEFFS, P25_FIR3_COEFFS,
};

verus! {

proof fn lemma_apply_push(bank: RegisterBank, ops: Seq<BusOp>, op: BusOp)
    ensures
        registers::apply_all(bank, ops.push(op)) == registers::apply(
            registers::apply_all(bank, ops),
            op,
        ),
{
    reveal(registers::apply_all);
    assert(ops.push(op).drop_last() =~= ops);
}

proof fn lemma_apply_none(bank: RegisterBank)
    ensures
        registers::apply_all(bank, seq![]) == bank,
{
    reveal(registers::apply_all);
}

/// Quieting the traffic chain switches its two demodulators off and changes
/// nothing else.
pub proof fn pausing_quiets_the_traffic_chain(bank: RegisterBank)
    ensures
        registers::apply_all(bank, ip_core::pause_ops()) == (RegisterBank {
            traffic: ChainRegisters {
                demod_enable: false,
                lsm: LsmRegisters { enable: false, ..bank.traffic.lsm },
                ..bank.traffic
            },
            ..bank
        }),
{
    let ops = ip_core::pause_ops();
    lemma_apply_none(bank);
    lemma_apply_push(bank, seq![], ops[0]);
    lemma_apply_push(bank, Seq::empty().push(ops[0]), ops[1]);
    assert(Seq::empty().push(ops[0]).push(ops[1]) =~= ops);
}

proof fn lemma_retune_prefixes(bank: RegisterBank, word: u32)
    ensures
        ({
            let ops = ip_core::retune_ops(word);
            let quiet = RegisterBank {
                traffic: ChainRegisters {
                    demod_enable: false,
                    lsm: LsmRegisters { enable: false, ..bank.traffic.lsm },
                    ..bank.traffic
                },
                ..bank
            };
            let tuned = RegisterBank {
                traffic: ChainRegisters {
                    ddc: DdcRegisters { frequency: word, ..bank.traffic.ddc },
                    ..quiet.traffic
                },
                ..bank
            };
            let awake = RegisterBank {
                traffic: ChainRegisters {
                    lsm: LsmRegisters { enable: true, ..bank.traffic.lsm },
                    ..tuned.traffic
                },
                ..bank
            };
            &&& registers::apply_all(bank, ops.take(2)) == quiet
            &&& registers::apply_all(bank, ops.take(4)) == tuned
            &&& registers::apply_all(bank, ops.take(5)) == awake
            &&& registers::apply_all(bank, ops) == (RegisterBank {
                traffic: ChainRegisters { demod_enable: true, ..awake.traffic },
                ..bank
            })
        }),
{
    let ops = ip_core::retune_ops(word);
    pausing_quiets_the_traffic_chain(bank);
    assert(ops.take(2) =~= ip_core::pause_ops());
    assert(ops.take(3) =~= ops.take(2).push(ops[2]));
    assert(ops.take(4) =~= ops.take(3).push(ops[3]));
    assert(ops.take(5) =~= ops.take(4).push(ops[4]));
    assert(ops.take(6) =~= ops.take(5).push(ops[5]));
    assert(ops.take(7) =~= ops.take(6).push(ops[6]));
    assert(ops.take(7) =~= ops);
    lemma_apply_push(bank, ops.take(2), ops[2]);
    lemma_apply_push(bank, ops.take(3), ops[3]);
    lemma_apply_push(bank, ops.take(4), ops[4]);
    lemma_apply_push(bank, ops.take(5), ops[5]);
    lemma_apply_push(bank, ops.take(6), ops[6]);
}

/// A retune leaves the traffic chain awake on the new frequency and changes
/// nothing else.
pub proof fn retuning_sets_the_frequency_alone(bank: RegisterBank, word: u32)
    ensures
        registers::apply_all(bank, ip_core::retune_ops(word)) == (RegisterBank {
            traffic: ChainRegisters {
                ddc: DdcRegisters { frequency: word, ..bank.traffic.ddc },
                demod_enable: true,
                lsm: LsmRegisters { enable: true, ..bank.traffic.lsm },
            },
            ..bank
        }),
{
    lemma_retune_prefixes(bank, word);
}

/// During a retune the frequency changes, and the filters flush, while both
/// demodulators are quiet; the reset comes when the LSM chain is awake again.
pub proof fn retuning_keeps_the_order(bank: RegisterBank, word: u32)
    ensures
        ({
            let ops = ip_core::retune_ops(word);
            &&& ops[2] == BusOp::DdcFrequency { chain: Chain::Traffic, word }
            &&& !registers::apply_all(bank, ops.take(2)).traffic.lsm.enable
            &&& !registers::apply_all(bank, ops.take(2)).traffic.demod_enable
            &&& ops[3] == BusOp::WaitMillis(2)
            &&& !registers::apply_all(bank, ops.take(4)).traffic.lsm.enable
            &&& !registers::apply_all(bank, ops.take(4)).traffic.demod_enable
            &&& ops[5] == BusOp::LsmReset { chain: Chain::Traffic }
            &&& registers::apply_all(bank, ops.take(5)).traffic.lsm.enable
        }),
{
    lemma_retune_prefixes(bank, word);
}

/// The coefficient memory and the selected slot.
pub struct CoefficientMemory {
    pub slots: Map<u16, u32>,
    pub selected: u16,
}

/// The coefficient memory after a run of accesses.
pub open spec fn memory_after(memory: CoefficientMemory, ops: Seq<BusOp>) -> CoefficientMemory
    decreases ops.len(),
{
    if ops.len() == 0 {
        memory
    } else {
        let before = memory_after(memory, ops.drop_last());
        match ops.last() {
            BusOp::CoeffAddress(address) => CoefficientMemory { selected: address, ..before },
            BusOp::CoeffWrite(value) => CoefficientMemory {
                slots: before.slots.insert(before.selected, value),
                ..before
            },
            _ => before,
        }
    }
}

/// The slots written land in the coefficient memory one behind the other from
/// `offset` on, and no other slot changes.
pub proof fn coefficients_reach_the_memory(memory: CoefficientMemory, slots: Seq<i32>, offset: int)
    requires
        0 <= offset,
        offset + slots.len() <= 0x10000,
    ensures
        forall|address: u16|
            #![trigger memory_after(memory, ip_core::coefficient_ops(slots, offset)).slots[address]]
            memory_after(memory, ip_core::coefficient_ops(slots, offset)).slots[address] == if offset
                <= address < offset + slots.len() {
                slots[address - offset] as u32
            } else {
                memory.slots[address]
            },
    decreases slots.len(),
{
    let ops = ip_core::coefficient_ops(slots, offset);
    if slots.len() == 0 {
        assert(ops =~= Seq::<BusOp>::empty());
    } else {
        let less = slots.drop_last();
        coefficients_reach_the_memory(memory, less, offset);
        let done = ip_core::coefficient_ops(less, offset);
        let n = slots.len() as int;
        let address = (offset + n - 1) as u16;
        let select = BusOp::CoeffAddress(address);
        let write = BusOp::CoeffWrite(slots[n - 1] as u32);
        assert(ops =~= done.push(select).push(write));
        assert(done.push(select).push(write).drop_last() =~= done.push(select));
        assert(done.push(select).drop_last() =~= done);
        let before = memory_after(memory, done);
        let selected = memory_after(memory, done.push(select));
        assert(selected == CoefficientMemory { selected: address, ..before });
        let after = memory_after(memory, ops);
        assert(after.slots == before.slots.insert(address, slots[n - 1] as u32));
        assert forall|a: u16|
            #![trigger after.slots[a]]
            after.slots[a] == if offset <= a < offset + n {
                slots[a - offset] as u32
            } else {
                memory.slots[a]
            } by {
            if a != address {
                assert(after.slots[a] == before.slots[a]);
            }
        }
    }
}

proof fn lemma_coefficients_leave_registers(bank: RegisterBank, slots: Seq<i32>, offset: int)
    ensures
        registers::apply_all(bank, ip_core::coefficient_ops(slots, offset)) == bank,
    decreases slots.len(),
{
    let ops = ip_core::coefficient_ops(slots, offset);
    if slots.len() == 0 {
        assert(ops =~= Seq::<BusOp>::empty());
        lemma_apply_none(bank);
    } else {
        let less = slots.drop_last();
        let n = slots.len() as int;
        lemma_coefficients_leave_registers(bank, less, offset);
        let done = ip_core::coefficient_ops(less, offset);
        let select = BusOp::CoeffAddress((offset + n - 1) as u16);
        let write = BusOp::CoeffWrite(slots[n - 1] as u32);
        assert(ops =~= done.push(select).push(write));
        lemma_apply_push(bank, done, select);
        lemma_apply_push(bank, done.push(select), write);
    }
}

proof fn lemma_apply_after_coefficients(
    bank: RegisterBank,
    slots: Seq<i32>,
    offset: int,
    a: BusOp,
    b: BusOp,
)
    ensures
        registers::apply_all(bank, ip_core::coefficient_ops(slots, offset) + seq![a, b])
            == registers::apply(registers::apply(bank, a), b),
{
    let done = ip_core::coefficient_ops(slots, offset);
    lemma_coefficients_leave_registers(bank, slots, offset);
    lemma_apply_push(bank, done, a);
    lemma_apply_push(bank, done.push(a), b);
    assert(done + seq![a, b] =~= done.push(a).push(b));
}

/// The down-converter that both set-ups aim at: decimation by 4, 4 and 8 with
/// 22, 32 and 16 operations, an even number in the folded stages, no bypass.
pub open spec fn configured(ddc: DdcRegisters) -> DdcRegisters {
    DdcRegisters {
        bypass2: false,
        bypass3: false,
        decimation1: 4,
        decimation2: 4,
        decimation3: 8,
        operations_minus_one1: 21,
        operations_minus_one2: 31,
        operations_minus_one3: 15,
        odd_operations1: false,
        odd_operations3: false,
        ..ddc
    }
}

proof fn lemma_stage_counts()
    ensures
        fir::folded_operations(176, 4) == 22,
        fir::plain_operations(128, 4) == 32,
        fir::folded_operations(256, 8) == 16,
        fir::div_up(176, 4) == 44,
        fir::div_up(256, 8) == 32,
{
}

/// Setting up the control channel's down-converter leaves it configured and
/// changes no other register.
pub proof fn configuring_the_control_channel(bank: RegisterBank)
    ensures
        registers::apply_all(bank, ip_core::configure_ddc_ops()) == (RegisterBank {
            control: ChainRegisters { ddc: configured(bank.control.ddc), ..bank.control },
            ..bank
        }),
{
    lemma_stage_counts();
    let f1 = ip_core::fir1_ops(P25_FIR1_COEFFS@, P25_DEC1 as int);
    let f2 = ip_core::fir2_ops(P25_FIR2_COEFFS@, P25_DEC2 as int);
    let f3 = ip_core::fir3_ops(P25_FIR3_COEFFS@, P25_DEC3 as int);
    let last = ip_core::configure_ddc_ops().last();
    let slots1 = fir::folded_layout(P25_FIR1_COEFFS@, P25_DEC1 as int);
    let slots2 = fir::plain_layout(P25_FIR2_COEFFS@, P25_DEC2 as int);
    let slots3 = fir::folded_layout(P25_FIR3_COEFFS@, P25_DEC3 as int);
    let b1 = registers::apply_all(bank, f1);
    let b2 = registers::apply_all(b1, f2);
    let b3 = registers::apply_all(b2, f3);
    lemma_apply_after_coefficients(bank, slots1, 0, f1[512], f1[513]);
    assert(f1 =~= ip_core::coefficient_ops(slots1, 0) + seq![f1[512], f1[513]]);
    lemma_apply_after_coefficients(b1, slots2, 256, f2[256], f2[257]);
    assert(f2 =~= ip_core::coefficient_ops(slots2, 256) + seq![f2[256], f2[257]]);
    lemma_apply_after_coefficients(b2, slots3, 512, f3[512], f3[513]);
    assert(f3 =~= ip_core::coefficient_ops(slots3, 512) + seq![f3[512], f3[513]]);
    registers::applying_joined_accesses(bank, f1, f2);
    registers::applying_joined_accesses(bank, f1 + f2, f3);
    lemma_apply_push(bank, f1 + f2 + f3, last);
    assert(ip_core::configure_ddc_ops() =~= (f1 + f2 + f3).push(last));
}

/// Setting up the traffic channel's down-converter leaves it configured as the
/// control channel's and changes no other register.
pub proof fn configuring_the_traffic_channel(bank: RegisterBank)
    ensures
        registers::apply_all(bank, ip_core::configure_traffic_ddc_ops()) == (RegisterBank {
            traffic: ChainRegisters { ddc: configured(bank.traffic.ddc), ..bank.traffic },
            ..bank
        }),
{
    lemma_stage_counts();
    let ops = ip_core::configure_traffic_ddc_ops();
    lemma_apply_none(bank);
    lemma_apply_push(bank, seq![], ops[0]);
    lemma_apply_push(bank, Seq::empty().push(ops[0]), ops[1]);
    assert(Seq::empty().push(ops[0]).push(ops[1]) =~= ops);
}

/// What a level is set to reads back, and the other levels keep their value.
pub proof fn levels_read_back(bank: RegisterBank, chain: Chain, enable: bool)
    ensures
        registers::apply(bank, ip_core::lsm_enable_op(chain, enable)).chain(chain).lsm == (
        LsmRegisters { enable, ..bank.chain(chain).lsm }),
{
}

/// One run of accesses to the coefficient memory after another is the two
/// joined.
pub proof fn memory_after_joined_accesses(memory: CoefficientMemory, a: Seq<BusOp>, b: Seq<BusOp>)
    ensures
        memory_after(memory, a + b) == memory_after(memory_after(memory, a), b),
    decreases b.len(),
{
    if b.len() == 0 {
        assert(a + b =~= a);
    } else {
        memory_after_joined_accesses(memory, a, b.drop_last());
        assert((a + b).drop_last() =~= a + b.drop_last());
        assert((a + b).last() == b.last());
    }
}

/// Accesses that are not to the coefficient memory leave it as it is.
proof fn lemma_memory_is_spared(memory: CoefficientMemory, ops: Seq<BusOp>)
    requires
        forall|i: int|
            0 <= i < ops.len() ==> !((#[trigger] ops[i]) is CoeffAddress) && !(ops[i] is CoeffWrite),
    ensures
        memory_after(memory, ops) == memory,
    decreases ops.len(),
{
    if ops.len() > 0 {
        lemma_memory_is_spared(memory, ops.drop_last());
    }
}

proof fn lemma_memory_after_stage(
    memory: CoefficientMemory,
    slots: Seq<i32>,
    offset: int,
    last: Seq<BusOp>,
)
    requires
        0 <= offset,
        offset + slots.len() <= 0x10000,
        forall|i: int|
            0 <= i < last.len() ==> !((#[trigger] last[i]) is CoeffAddress) && !(
            last[i] is CoeffWrite),
    ensures
        forall|address: u16|
            #![trigger memory_after(memory, ip_core::coefficient_ops(slots, offset) + last).slots[address]]
            memory_after(memory, ip_core::coefficient_ops(slots, offset) + last).slots[address]
                == if offset <= address < offset + slots.len() {
                slots[address - offset] as u32
            } else {
                memory.slots[address]
            },
{
    let ops = ip_core::coefficient_ops(slots, offset);
    coefficients_reach_the_memory(memory, slots, offset);
    memory_after_joined_accesses(memory, ops, last);
    lemma_memory_is_spared(memory_after(memory, ops), last);
}

/// What a stage of the down-converter is set up with, whatever its taps: the
/// first stage fills the slots 0 to 255 of the coefficient memory, the second
/// 256 to 383, the third 512 to 767, and none touches another slot.
pub proof fn stages_have_their_own_slots(
    memory: CoefficientMemory,
    taps: Seq<i32>,
    decimation: int,
    address: u16,
)
    ensures
        memory_after(memory, ip_core::fir1_ops(taps, decimation)).slots[address] == if address < 256 {
            fir::folded_layout(taps, decimation)[address as int] as u32
        } else {
            memory.slots[address]
        },
        memory_after(memory, ip_core::fir2_ops(taps, decimation)).slots[address] == if 256 <= address
            < 384 {
            fir::plain_layout(taps, decimation)[address - 256] as u32
        } else {
            memory.slots[address]
        },
        memory_after(memory, ip_core::fir3_ops(taps, decimation)).slots[address] == if 512 <= address
            < 768 {
            fir::folded_layout(taps, decimation)[address - 512] as u32
        } else {
            memory.slots[address]
        },
{
    let f1 = ip_core::fir1_ops(taps, decimation);
    let f2 = ip_core::fir2_ops(taps, decimation);
    let f3 = ip_core::fir3_ops(taps, decimation);
    let folded = fir::folded_layout(taps, decimation);
    let plain = fir::plain_layout(taps, decimation);
    let l1 = seq![f1[512], f1[513]];
    let l2 = seq![f2[256], f2[257]];
    let l3 = seq![f3[512], f3[513]];
    lemma_memory_after_stage(memory, folded, 0, l1);
    lemma_memory_after_stage(memory, plain, 256, l2);
    lemma_memory_after_stage(memory, folded, 512, l3);
    assert(f1 =~= ip_core::coefficient_ops(folded, 0) + l1);
    assert(f2 =~= ip_core::coefficient_ops(plain, 256) + l2);
    assert(f3 =~= ip_core::coefficient_ops(folded, 512) + l3);
}

/// After the set-up of the control channel's down-converter the coefficient
/// memory holds the three tables, each in its own slots, and every other slot is
/// as it was.
pub proof fn configuring_fills_the_coefficient_memory(memory: CoefficientMemory, address: u16)
    ensures
        memory_after(memory, ip_core::configure_ddc_ops()).slots[address] == if address < 256 {
            fir::folded_layout(P25_FIR1_COEFFS@, 4)[address as int] as u32
        } else if 256 <= address < 384 {
            fir::plain_layout(P25_FIR2_COEFFS@, 4)[address - 256] as u32
        } else if 512 <= address < 768 {
            fir::folded_layout(P25_FIR3_COEFFS@, 8)[address - 512] as u32
        } else {
            memory.slots[address]
        },
{
    let f1 = ip_core::fir1_ops(P25_FIR1_COEFFS@, P25_DEC1 as int);
    let f2 = ip_core::fir2_ops(P25_FIR2_COEFFS@, P25_DEC2 as int);
    let f3 = ip_core::fir3_ops(P25_FIR3_COEFFS@, P25_DEC3 as int);
    let last = seq![ip_core::configure_ddc_ops().last()];
    let m1 = memory_after(memory, f1);
    let m2 = memory_after(m1, f2);
    let m3 = memory_after(m2, f3);
    assert(ip_core::configure_ddc_ops() =~= f1 + f2 + f3 + last);
    memory_after_joined_accesses(memory, f1, f2);
    memory_after_joined_accesses(memory, f1 + f2, f3);
    memory_after_joined_accesses(memory, f1 + f2 + f3, last);
    lemma_memory_is_spared(m3, last);
    stages_have_their_own_slots(memory, P25_FIR1_COEFFS@, 4, address);
    stages_have_their_own_slots(m1, P25_FIR2_COEFFS@, 4, address);
    stages_have_their_own_slots(m2, P25_FIR3_COEFFS@, 8, address);
}

/// After the set-up every tap of the three tables is where the filters read it:
/// branch by branch from the last, and in the folded stages even and odd rows in
/// two halves.
pub proof fn every_tap_is_in_its_slot(memory: CoefficientMemory, n: int)
    ensures
        ({
            let slots = memory_after(memory, ip_core::configure_ddc_ops()).slots;
            &&& 0 <= n < 176 ==> slots[(128 * (n / 4 % 2) + 22 * (3 - n % 4) + n / 8) as u16]
                == P25_FIR1_COEFFS@[n] as u32
            &&& 0 <= n < 128 ==> slots[(256 + 32 * (3 - n % 4) + n / 4) as u16]
                == P25_FIR2_COEFFS@[n] as u32
            &&& 0 <= n < 256 ==> slots[(512 + 128 * (n / 8 % 2) + 16 * (7 - n % 8) + n / 16) as u16]
                == P25_FIR3_COEFFS@[n] as u32
        }),
{
    lemma_stage_counts();
    if 0 <= n < 176 {
        let a = 128 * (n / 4 % 2) + 22 * (3 - n % 4) + n / 8;
        assert(n / 4 / 2 == n / 8);
        fir::folded_layout_holds_every_tap_once(P25_FIR1_COEFFS@, 4, n);
        assert(fir::folded_slot(176, 4, n) == a);
        configuring_fills_the_coefficient_memory(memory, a as u16);
    }
    if 0 <= n < 128 {
        let a = 32 * (3 - n % 4) + n / 4;
        fir::plain_layout_holds_every_tap_once(P25_FIR2_COEFFS@, 4, n);
        assert(fir::plain_slot(128, 4, n) == a);
        configuring_fills_the_coefficient_memory(memory, (256 + a) as u16);
    }
    if 0 <= n < 256 {
        let a = 128 * (n / 8 % 2) + 16 * (7 - n % 8) + n / 16;
        assert(n / 8 / 2 == n / 16);
        fir::folded_layout_holds_every_tap_once(P25_FIR3_COEFFS@, 8, n);
        assert(fir::folded_slot(256, 8, n) == a);
        configuring_fills_the_coefficient_memory(memory, (512 + a) as u16);
    }
}

} // verus!
