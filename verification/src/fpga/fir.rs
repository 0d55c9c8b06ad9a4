//! Layout of filter taps in the coefficient memory of the down-converter.
//!
//! A stage stores its taps branch by branch, in the order in which its
//! multipliers read them. A folded stage (four multipliers) keeps the even
//! taps of each branch in one half of its memory and the odd ones in the other;
//! a plain stage (two multipliers) does not fold.

use vstd::prelude::*;

verus! {

/// Slots of a folded stage.
pub const FOLDED_SLOTS: usize = 256;

/// Slots of a plain stage.
pub const PLAIN_SLOTS: usize = 128;

/// `a / b` rounded up.
pub open spec fn div_up(a: int, b: int) -> int {
    (a + b - 1) / b
}

/// Multiplications that each multiplier of a folded stage makes per branch.
pub open spec fn folded_operations(n_taps: int, decimation: int) -> int {
    div_up(div_up(n_taps, decimation), 2)
}

/// Multiplications per branch of a plain stage.
pub open spec fn plain_operations(n_taps: int, decimation: int) -> int {
    div_up(n_taps, decimation)
}

/// Whether the taps fit the memory of a folded stage.
pub open spec fn fits_folded(n_taps: int, decimation: int) -> bool {
    folded_operations(n_taps, decimation) * decimation <= FOLDED_SLOTS / 2
}

/// Whether the taps fit the memory of a plain stage.
pub open spec fn fits_plain(n_taps: int, decimation: int) -> bool {
    plain_operations(n_taps, decimation) * decimation <= PLAIN_SLOTS
}

/// The tap that slot `addr` of a folded stage holds, if it holds one.
pub open spec fn folded_tap(n_taps: int, decimation: int, addr: int) -> Option<int> {
    let operations = folded_operations(n_taps, decimation);
    let half = if addr >= 128 {
        1
    } else {
        0int
    };
    let local = addr - 128 * half;
    let branch = local / operations;
    let tap = (2 * (local % operations) + half) * decimation + (decimation - 1 - branch);
    if branch < decimation && tap < n_taps {
        Some(tap)
    } else {
        None
    }
}

/// The tap that slot `addr` of a plain stage holds, if it holds one.
pub open spec fn plain_tap(n_taps: int, decimation: int, addr: int) -> Option<int> {
    let operations = plain_operations(n_taps, decimation);
    let branch = addr / operations;
    let tap = (addr % operations) * decimation + (decimation - 1 - branch);
    if branch < decimation && tap < n_taps {
        Some(tap)
    } else {
        None
    }
}

/// The value of a slot: its tap, or zero.
pub open spec fn slot_value(taps: Seq<i32>, tap: Option<int>) -> i32 {
    match tap {
        Some(n) => taps[n],
        None => 0,
    }
}

/// The contents of a folded stage's memory.
pub open spec fn folded_layout(taps: Seq<i32>, decimation: int) -> Seq<i32> {
    Seq::new(
        256,
        |addr: int| slot_value(taps, folded_tap(taps.len() as int, decimation, addr)),
    )
}

/// The contents of a plain stage's memory.
pub open spec fn plain_layout(taps: Seq<i32>, decimation: int) -> Seq<i32> {
    Seq::new(
        128,
        |addr: int| slot_value(taps, plain_tap(taps.len() as int, decimation, addr)),
    )
}

proof fn lemma_div_up_positive(a: int, b: int)
    requires
        0 < a,
        0 < b,
    ensures
        1 <= div_up(a, b) <= a,
{
    assert(1 <= (a + b - 1) / b <= a) by (nonlinear_arith)
        requires
            0 < a,
            0 < b,
    ;
}

/// `a / b` rounded up.
pub fn div_ceil(a: usize, b: usize) -> (q: usize)
    requires
        0 < b,
        0 < a,
    ensures
        q == div_up(a as int, b as int),
        1 <= q <= a,
{
    proof {
        lemma_div_up_positive(a as int, b as int);
        assert((a + b - 1) / (b as int) == (a - 1) / (b as int) + 1) by (nonlinear_arith)
            requires
                0 < b,
        ;
    }
    (a - 1) / b + 1
}

/// Whether `operations * decimation` exceeds `limit`, without overflow.
fn exceeds(operations: usize, decimation: usize, limit: usize) -> (r: bool)
    requires
        1 <= operations,
        1 <= decimation,
        limit <= 128,
    ensures
        r == (operations * decimation > limit),
{
    if operations > limit || decimation > limit {
        assert(operations * decimation > limit) by (nonlinear_arith)
            requires
                1 <= operations,
                1 <= decimation,
                operations > limit || decimation > limit,
        ;
        true
    } else {
        assert(operations * decimation <= 128 * 128) by (nonlinear_arith)
            requires
                operations <= 128,
                decimation <= 128,
        ;
        operations * decimation > limit
    }
}

/// Taps that fit a folded stage leave its counts within seven bits.
pub proof fn folded_stage_bounds(n_taps: int, decimation: int)
    requires
        0 < n_taps,
        0 < decimation,
        fits_folded(n_taps, decimation),
    ensures
        decimation <= 128,
        1 <= folded_operations(n_taps, decimation) <= 128,
        1 <= div_up(n_taps, decimation) <= 256,
{
    lemma_div_up_positive(n_taps, decimation);
    lemma_div_up_positive(div_up(n_taps, decimation), 2);
    let operations = folded_operations(n_taps, decimation);
    assert(decimation <= 128 && operations <= 128) by (nonlinear_arith)
        requires
            operations * decimation <= 128,
            1 <= operations,
            1 <= decimation,
    ;
}

/// Taps that fit a plain stage leave its counts within eight bits.
pub proof fn plain_stage_bounds(n_taps: int, decimation: int)
    requires
        0 < n_taps,
        0 < decimation,
        fits_plain(n_taps, decimation),
    ensures
        decimation <= 128,
        1 <= plain_operations(n_taps, decimation) <= 128,
{
    lemma_div_up_positive(n_taps, decimation);
    let operations = plain_operations(n_taps, decimation);
    assert(decimation <= 128 && operations <= 128) by (nonlinear_arith)
        requires
            operations * decimation <= 128,
            1 <= operations,
            1 <= decimation,
    ;
}

/// The memory contents of a folded stage, or `None` when the taps do not fit.
pub fn lay_out_folded(taps: &[i32], decimation: usize) -> (slots: Option<Vec<i32>>)
    requires
        0 < decimation,
        0 < taps@.len(),
    ensures
        slots is Some <==> fits_folded(taps@.len() as int, decimation as int),
        slots is Some ==> slots->0@ == folded_layout(taps@, decimation as int),
{
    let branch_len: usize = div_ceil(taps.len(), decimation);
    let operations: usize = div_ceil(branch_len, 2);
    if exceeds(operations, decimation, FOLDED_SLOTS / 2) {
        return None;
    }
    let mut slots: Vec<i32> = Vec::new();
    let mut addr: usize = 0;
    let ghost n_taps = taps@.len() as int;
    assert(decimation <= 128 && operations <= 128) by (nonlinear_arith)
        requires
            operations * decimation <= 128,
            1 <= operations,
            1 <= decimation,
    ;
    while addr < FOLDED_SLOTS
        invariant
            addr <= FOLDED_SLOTS,
            n_taps == taps@.len(),
            1 <= operations <= 128,
            1 <= decimation <= 128,
            operations == folded_operations(n_taps, decimation as int),
            slots@ == folded_layout(taps@, decimation as int).take(addr as int),
        decreases FOLDED_SLOTS - addr,
    {
        let half: usize = if addr >= 128 {
            1
        } else {
            0
        };
        let local: usize = addr - 128 * half;
        let branch: usize = local / operations;
        let mut value: i32 = 0;
        assert(0 <= local % operations < operations);
        if branch < decimation {
            let row: usize = 2 * (local % operations) + half;
            assert(row * decimation <= 257 * 128) by (nonlinear_arith)
                requires
                    row <= 257,
                    decimation <= 128,
            ;
            let tap: usize = row * decimation + (decimation - 1 - branch);
            if tap < taps.len() {
                value = taps[tap];
            }
        }
        slots.push(value);
        proof {
            let all = folded_layout(taps@, decimation as int);
            assert(all[addr as int] == value);
            assert(all.take(addr + 1) =~= all.take(addr as int).push(value));
        }
        addr = addr + 1;
    }
    proof {
        let all = folded_layout(taps@, decimation as int);
        assert(all.take(256) =~= all);
    }
    Some(slots)
}

/// The memory contents of a plain stage, or `None` when the taps do not fit.
pub fn lay_out_plain(taps: &[i32], decimation: usize) -> (slots: Option<Vec<i32>>)
    requires
        0 < decimation,
        0 < taps@.len(),
    ensures
        slots is Some <==> fits_plain(taps@.len() as int, decimation as int),
        slots is Some ==> slots->0@ == plain_layout(taps@, decimation as int),
{
    let operations: usize = div_ceil(taps.len(), decimation);
    if exceeds(operations, decimation, PLAIN_SLOTS) {
        return None;
    }
    let mut slots: Vec<i32> = Vec::new();
    let mut addr: usize = 0;
    let ghost n_taps = taps@.len() as int;
    assert(decimation <= 128 && operations <= 128) by (nonlinear_arith)
        requires
            operations * decimation <= 128,
            1 <= operations,
            1 <= decimation,
    ;
    while addr < PLAIN_SLOTS
        invariant
            addr <= PLAIN_SLOTS,
            n_taps == taps@.len(),
            1 <= operations <= 128,
            1 <= decimation <= 128,
            operations == plain_operations(n_taps, decimation as int),
            slots@ == plain_layout(taps@, decimation as int).take(addr as int),
        decreases PLAIN_SLOTS - addr,
    {
        let branch: usize = addr / operations;
        let mut value: i32 = 0;
        assert(0 <= addr % operations < operations);
        if branch < decimation {
            let row: usize = addr % operations;
            assert(row * decimation <= 128 * 128) by (nonlinear_arith)
                requires
                    row <= 128,
                    decimation <= 128,
            ;
            let tap: usize = row * decimation + (decimation - 1 - branch);
            if tap < taps.len() {
                value = taps[tap];
            }
        }
        slots.push(value);
        proof {
            let all = plain_layout(taps@, decimation as int);
            assert(all[addr as int] == value);
            assert(all.take(addr + 1) =~= all.take(addr as int).push(value));
        }
        addr = addr + 1;
    }
    proof {
        let all = plain_layout(taps@, decimation as int);
        assert(all.take(128) =~= all);
    }
    Some(slots)
}

/// The slot of tap `n` in a folded stage.
pub open spec fn folded_slot(n_taps: int, decimation: int, n: int) -> int {
    let row = n / decimation;
    128 * (row % 2) + (decimation - 1 - n % decimation) * folded_operations(n_taps, decimation)
        + row / 2
}

/// The slot of tap `n` in a plain stage.
pub open spec fn plain_slot(n_taps: int, decimation: int, n: int) -> int {
    (decimation - 1 - n % decimation) * plain_operations(n_taps, decimation) + n / decimation
}

proof fn lemma_row_below(n: int, n_taps: int, decimation: int)
    requires
        0 <= n < n_taps,
        0 < decimation,
    ensures
        0 <= n / decimation < div_up(n_taps, decimation),
        0 <= n % decimation < decimation,
{
    assert(0 <= n / decimation < (n_taps + decimation - 1) / decimation && 0 <= n % decimation
        < decimation) by (nonlinear_arith)
        requires
            0 <= n < n_taps,
            0 < decimation,
    ;
}

proof fn lemma_place(branch: int, row: int, operations: int, branches: int)
    requires
        0 <= branch < branches,
        0 <= row < operations,
    ensures
        0 <= branch * operations + row < operations * branches,
        (branch * operations + row) / operations == branch,
        (branch * operations + row) % operations == row,
{
    let x = branch * operations + row;
    vstd::arithmetic::div_mod::lemma_fundamental_div_mod_converse(x, operations, branch, row);
    assert(0 <= branch * operations + row < operations * branches) by (nonlinear_arith)
        requires
            0 <= branch < branches,
            0 <= row < operations,
    ;
}

/// Every tap of a folded stage sits in exactly one slot, which `folded_slot`
/// gives; by the definition of the layout every other slot is zero.
pub proof fn folded_layout_holds_every_tap_once(taps: Seq<i32>, decimation: int, n: int)
    requires
        0 < decimation,
        fits_folded(taps.len() as int, decimation),
        0 <= n < taps.len(),
    ensures
        0 <= folded_slot(taps.len() as int, decimation, n) < FOLDED_SLOTS,
        folded_layout(taps, decimation)[folded_slot(taps.len() as int, decimation, n)] == taps[n],
        forall|addr: int|
            0 <= addr < FOLDED_SLOTS ==> (#[trigger] folded_tap(
                taps.len() as int,
                decimation,
                addr,
            ) == Some(n) <==> addr == folded_slot(taps.len() as int, decimation, n)),
{
    let n_taps = taps.len() as int;
    let operations = folded_operations(n_taps, decimation);
    lemma_row_below(n, n_taps, decimation);
    vstd::arithmetic::div_mod::lemma_fundamental_div_mod(n, decimation);
    let row = n / decimation;
    let branch = decimation - 1 - n % decimation;
    lemma_place(branch, row / 2, operations, decimation);
    let slot = folded_slot(n_taps, decimation, n);
    assert(row == 2 * (row / 2) + row % 2);
    assert(row * decimation == decimation * row) by (nonlinear_arith);
    assert(folded_tap(n_taps, decimation, slot) == Some(n));
    assert forall|addr: int|
        0 <= addr < FOLDED_SLOTS && #[trigger] folded_tap(n_taps, decimation, addr) == Some(
            n,
        ) implies addr == slot by {
        let half = if addr >= 128 {
            1
        } else {
            0int
        };
        let local = addr - 128 * half;
        vstd::arithmetic::div_mod::lemma_fundamental_div_mod(local, operations);
        lemma_div_up_positive(n_taps, decimation);
        lemma_div_up_positive(div_up(n_taps, decimation), 2);
        let b = local / operations;
        let r = local % operations;
        assert(0 <= b && 0 <= r < operations) by (nonlinear_arith)
            requires
                0 <= local,
                0 < operations,
                b == local / operations,
                r == local % operations,
        ;
        vstd::arithmetic::div_mod::lemma_fundamental_div_mod_converse(n, decimation, 2 * r + half, decimation - 1 - b);
        assert(operations * b == b * operations) by (nonlinear_arith);
    }
}

/// Every tap of a plain stage sits in exactly one slot, which `plain_slot`
/// gives; by the definition of the layout every other slot is zero.
pub proof fn plain_layout_holds_every_tap_once(taps: Seq<i32>, decimation: int, n: int)
    requires
        0 < decimation,
        fits_plain(taps.len() as int, decimation),
        0 <= n < taps.len(),
    ensures
        0 <= plain_slot(taps.len() as int, decimation, n) < PLAIN_SLOTS,
        plain_layout(taps, decimation)[plain_slot(taps.len() as int, decimation, n)] == taps[n],
        forall|addr: int|
            0 <= addr < PLAIN_SLOTS ==> (#[trigger] plain_tap(taps.len() as int, decimation, addr)
                == Some(n) <==> addr == plain_slot(taps.len() as int, decimation, n)),
{
    let n_taps = taps.len() as int;
    let operations = plain_operations(n_taps, decimation);
    lemma_row_below(n, n_taps, decimation);
    vstd::arithmetic::div_mod::lemma_fundamental_div_mod(n, decimation);
    let row = n / decimation;
    let branch = decimation - 1 - n % decimation;
    lemma_place(branch, row, operations, decimation);
    let slot = plain_slot(n_taps, decimation, n);
    assert(row * decimation == decimation * row) by (nonlinear_arith);
    assert(plain_tap(n_taps, decimation, slot) == Some(n));
    assert forall|addr: int|
        0 <= addr < PLAIN_SLOTS && #[trigger] plain_tap(n_taps, decimation, addr) == Some(
            n,
        ) implies addr == slot by {
        vstd::arithmetic::div_mod::lemma_fundamental_div_mod(addr, operations);
        lemma_div_up_positive(n_taps, decimation);
        let b = addr / operations;
        let r = addr % operations;
        assert(0 <= b && 0 <= r < operations) by (nonlinear_arith)
            requires
                0 <= addr,
                0 < operations,
                b == addr / operations,
                r == addr % operations,
        ;
        vstd::arithmetic::div_mod::lemma_fundamental_div_mod_converse(n, decimation, r, decimation - 1 - b);
        assert(operations * b == b * operations) by (nonlinear_arith);
    }
}

/// Rounding up: as many as needed to hold `a` in portions of `b`, and no more.
pub proof fn portions_hold_all(a: int, b: int)
    requires
        0 < a,
        0 < b,
    ensures
        div_up(a, b) * b >= a,
        (div_up(a, b) - 1) * b < a,
{
    vstd::arithmetic::div_mod::lemma_fundamental_div_mod(a + b - 1, b);
    let q = div_up(a, b);
    assert(b * q == q * b) by (nonlinear_arith);
    assert((q - 1) * b == q * b - b) by (nonlinear_arith);
    assert(0 <= (a + b - 1) % b < b) by (nonlinear_arith)
        requires
            0 < b,
    ;
}

/// Taps fit a folded stage if two rows for each operation, over all branches,
/// need no more than its 256 slots, and a plain stage if its rows need no more
/// than 128.
pub proof fn fitting_is_by_slots(n_taps: int, decimation: int)
    requires
        0 < n_taps,
        0 < decimation,
    ensures
        fits_folded(n_taps, decimation) <==> 2 * (folded_operations(n_taps, decimation)
            * decimation) <= 256,
        fits_plain(n_taps, decimation) <==> plain_operations(n_taps, decimation) * decimation
            <= 128,
        2 * folded_operations(n_taps, decimation) - 1 <= plain_operations(n_taps, decimation)
            <= 2 * folded_operations(n_taps, decimation),
{
    portions_hold_all(n_taps, decimation);
    lemma_div_up_positive(n_taps, decimation);
    portions_hold_all(div_up(n_taps, decimation), 2);
}

/// The memory of a folded stage has its full length, and every slot that is no
/// tap's is zero.
pub proof fn other_folded_slots_are_zero(taps: Seq<i32>, decimation: int, slot: int)
    requires
        0 < decimation,
        0 < taps.len(),
        fits_folded(taps.len() as int, decimation),
        0 <= slot < 256,
        forall|n: int|
            0 <= n < taps.len() ==> slot != #[trigger] folded_slot(
                taps.len() as int,
                decimation,
                n,
            ),
    ensures
        folded_layout(taps, decimation).len() == 256,
        folded_layout(taps, decimation)[slot] == 0,
{
    let n_taps = taps.len() as int;
    folded_stage_bounds(n_taps, decimation);
    if let Some(n) = folded_tap(n_taps, decimation, slot) {
        let operations = folded_operations(n_taps, decimation);
        let half = if slot >= 128 {
            1
        } else {
            0int
        };
        let local = slot - 128 * half;
        let row = 2 * (local % operations) + half;
        assert(0 <= row * decimation) by (nonlinear_arith)
            requires
                0 <= row,
                0 < decimation,
        ;
        folded_layout_holds_every_tap_once(taps, decimation, n);
        assert(slot != folded_slot(n_taps, decimation, n));
    }
}

/// The memory of a plain stage has its full length, and every slot that is no
/// tap's is zero.
pub proof fn other_plain_slots_are_zero(taps: Seq<i32>, decimation: int, slot: int)
    requires
        0 < decimation,
        0 < taps.len(),
        fits_plain(taps.len() as int, decimation),
        0 <= slot < 128,
        forall|n: int|
            0 <= n < taps.len() ==> slot != #[trigger] plain_slot(taps.len() as int, decimation, n),
    ensures
        plain_layout(taps, decimation).len() == 128,
        plain_layout(taps, decimation)[slot] == 0,
{
    let n_taps = taps.len() as int;
    plain_stage_bounds(n_taps, decimation);
    if let Some(n) = plain_tap(n_taps, decimation, slot) {
        let operations = plain_operations(n_taps, decimation);
        let row = slot % operations;
        assert(0 <= row * decimation) by (nonlinear_arith)
            requires
                0 <= row,
                0 < decimation,
        ;
        plain_layout_holds_every_tap_once(taps, decimation, n);
        assert(slot != plain_slot(n_taps, decimation, n));
    }
}

/// Taps go branch by branch, the last branch first, row by row within a branch;
/// in a folded stage the odd rows stand 128 slots behind the even ones.
pub proof fn taps_go_branch_by_branch(taps: Seq<i32>, decimation: int, n: int)
    requires
        0 < decimation,
        0 <= n < taps.len(),
    ensures
        fits_folded(taps.len() as int, decimation) ==> folded_layout(taps, decimation)[128 * (n
            / decimation % 2) + (decimation - 1 - n % decimation) * folded_operations(
            taps.len() as int,
            decimation,
        ) + n / decimation / 2] == taps[n],
        fits_plain(taps.len() as int, decimation) ==> plain_layout(taps, decimation)[(decimation - 1
            - n % decimation) * plain_operations(taps.len() as int, decimation) + n / decimation]
            == taps[n],
{
    if fits_folded(taps.len() as int, decimation) {
        folded_layout_holds_every_tap_once(taps, decimation, n);
    }
    if fits_plain(taps.len() as int, decimation) {
        plain_layout_holds_every_tap_once(taps, decimation, n);
    }
}

} // verus!
