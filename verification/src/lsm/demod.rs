//! Decisions of the symbol demodulator.
//!
//! Phases and scores are `f32` numbers elsewhere. Here such a number is known
//! by its rank: an integer that orders as the numbers do, computed from the
//! number's bits, with none for a value that is not a number.

use vstd::prelude::*;

verus! {

/// Symbols per second.
pub const P25_SYMBOL_RATE: u32 = 4800;

/// Rank of half a turn over two, pi/2, in single precision.
pub const HALF_PI_RANK: i32 = 0x3FC9_0FDB;

/// The rank of a single-precision number, given by its bits: the magnitude
/// bits, negated where the sign bit is set. Both zeros have rank zero.
pub open spec fn rank_of(bits: u32) -> Option<i32> {
    let magnitude = bits as int % 0x8000_0000;
    if magnitude > 0x7F80_0000 {
        None
    } else if bits < 0x8000_0000 {
        Some(magnitude as i32)
    } else {
        Some((-magnitude) as i32)
    }
}

/// The rank of a single-precision number; `None` if it is not a number.
pub fn float_rank(bits: u32) -> (rank: Option<i32>)
    ensures
        rank == rank_of(bits),
{
    let magnitude: u32 = bits % 0x8000_0000;
    if magnitude > 0x7F80_0000 {
        None
    } else if bits < 0x8000_0000 {
        Some(magnitude as i32)
    } else {
        Some(-(magnitude as i32))
    }
}

/// The quadrant of a phase as a dibit. What is not a number counts as a small
/// negative phase.
pub open spec fn dibit_of_phase(phase: Option<i32>) -> u8 {
    match phase {
        None => 2,
        Some(rank) => if rank > HALF_PI_RANK {
            1
        } else if rank > 0 {
            0
        } else if rank < -HALF_PI_RANK {
            3
        } else {
            2
        },
    }
}

/// Slice a phase, given by its rank, into a dibit:
///
/// ```text
///   0 .. pi/2  -> 00      pi/2 .. pi    -> 01
/// -pi/2 .. 0   -> 10       -pi .. -pi/2 -> 11
/// ```
pub fn to_dibit(phase: Option<i32>) -> (dibit: u8)
    ensures
        dibit == dibit_of_phase(phase),
{
    match phase {
        None => 2,
        Some(rank) => {
            if rank > 0 {
                if rank > HALF_PI_RANK {
                    1
                } else {
                    0
                }
            } else if rank < -HALF_PI_RANK {
                3
            } else {
                2
            }
        },
    }
}

/// The dibit of a symbol. A phase of exactly zero gives 00.
pub fn hard_dibit(phase: Option<i32>) -> (dibit: u8)
    ensures
        dibit == if phase == Some(0i32) {
            0
        } else {
            dibit_of_phase(phase)
        },
{
    match phase {
        Some(0) => 0,
        _ => to_dibit(phase),
    }
}

/// The ideal phase of a dibit, in units of pi/4; zero for what is no dibit.
pub open spec fn symbol_of_dibit(dibit: u8) -> int {
    if dibit == 0 {
        1
    } else if dibit == 1 {
        3
    } else if dibit == 2 {
        -1
    } else if dibit == 3 {
        -3
    } else {
        0
    }
}

/// The ideal phase of a dibit, in units of pi/4.
pub fn dibit_phase(dibit: u8) -> (symbol: i32)
    ensures
        symbol == symbol_of_dibit(dibit),
{
    match dibit {
        0 => 1,
        1 => 3,
        2 => -1,
        3 => -3,
        _ => 0,
    }
}

/// Slicing undoes the map from dibits to phases: a phase strictly inside the
/// quadrant of a dibit's ideal phase slices to that dibit.
pub proof fn slicing_inverts_dibit_phase(dibit: u8, rank: i32)
    requires
        dibit < 4,
        symbol_of_dibit(dibit) == 1 ==> 0 < rank < HALF_PI_RANK,
        symbol_of_dibit(dibit) == 3 ==> HALF_PI_RANK < rank,
        symbol_of_dibit(dibit) == -1 ==> -HALF_PI_RANK < rank < 0,
        symbol_of_dibit(dibit) == -3 ==> rank < -HALF_PI_RANK,
    ensures
        dibit_of_phase(Some(rank)) == dibit,
{
}

/// Where the walk over `n` samples ends, with `whole_period` the symbol period
/// rounded up: two samples and a period before the last one.
pub fn scan_end(n: usize, whole_period: usize) -> (stop: usize)
    requires
        whole_period + 2 <= usize::MAX,
    ensures
        stop == if n > whole_period + 2 {
            n - whole_period - 2
        } else {
            0
        },
{
    if n > whole_period + 2 {
        n - whole_period - 2
    } else {
        0
    }
}

/// Ranks order numbers as the numbers are ordered: a positive number ranks above
/// zero and by its bits, its opposite as far below; both zeros rank zero; what is
/// not a number has no rank.
pub proof fn ranks_order_numbers(a: u32, b: u32)
    requires
        a < 0x8000_0000,
        b < 0x8000_0000,
    ensures
        rank_of(a) is Some <==> a <= 0x7F80_0000,
        rank_of((a + 0x8000_0000) as u32) is Some <==> a <= 0x7F80_0000,
        a < b <= 0x7F80_0000 ==> rank_of(a)->0 < rank_of(b)->0,
        a <= 0x7F80_0000 ==> rank_of(a)->0 >= 0 && rank_of((a + 0x8000_0000) as u32)
            == Some((-rank_of(a)->0) as i32),
        rank_of(0) == Some(0i32),
        rank_of(a) is Some ==> rank_of(a)->0 == a,
{
}

/// Every phase falls into the quadrant that it is in: above zero the first bit is
/// off, at zero and below it is on; beyond a quarter turn either way the second
/// bit is on. A quarter turn itself belongs to the inner quadrant.
pub proof fn quadrants_are_told_apart(rank: i32)
    ensures
        rank > 0x3FC9_0FDB ==> dibit_of_phase(Some(rank)) == 1,
        0 < rank <= 0x3FC9_0FDB ==> dibit_of_phase(Some(rank)) == 0,
        -0x3FC9_0FDB <= rank <= 0 ==> dibit_of_phase(Some(rank)) == 2,
        rank < -0x3FC9_0FDB ==> dibit_of_phase(Some(rank)) == 3,
        dibit_of_phase(None) == 2,
{
}

/// The ideal phases are the odd multiples of an eighth turn, positive where the
/// first bit of the dibit is off, and three times as far out where the second is
/// on.
pub proof fn ideal_phases(dibit: u8)
    requires
        dibit < 4,
    ensures
        (symbol_of_dibit(dibit) > 0) == (dibit < 2),
        dibit % 2 == 0 ==> -1 <= symbol_of_dibit(dibit) <= 1,
        dibit % 2 == 1 ==> symbol_of_dibit(dibit) == 3 || symbol_of_dibit(dibit) == -3,
        symbol_of_dibit(dibit) != 0,
{
}

} // verus!
