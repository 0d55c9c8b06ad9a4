//! Phase increments of the down-converters' oscillators.

use vstd::prelude::*;

verus! {

/// Phase increment of one whole turn per sample.
pub const NCO_TURN: u64 = 0x1000_0000;

/// `a / b` rounded to the nearest integer, halves up.
pub open spec fn rounded_quotient(a: int, b: int) -> int {
    (2 * a + b) / (2 * b)
}

/// Whether an offset is within half the sample rate.
pub open spec fn in_range(offset_hz: int, sample_rate_hz: int) -> bool {
    -sample_rate_hz <= 2 * offset_hz <= sample_rate_hz
}

/// The phase increment for an offset, as a signed number: the share of a turn
/// per sample, rounded to the nearest, halves away from zero.
pub open spec fn phase_increment(offset_hz: int, sample_rate_hz: int) -> int {
    if sample_rate_hz == 0 {
        0
    } else if offset_hz >= 0 {
        rounded_quotient(offset_hz * NCO_TURN, sample_rate_hz)
    } else {
        -rounded_quotient(-offset_hz * NCO_TURN, sample_rate_hz)
    }
}

/// A signed number as a 32-bit word, in two's complement.
pub open spec fn word_of(n: int) -> u32 {
    if n >= 0 {
        n as u32
    } else {
        (n + 0x1_0000_0000) as u32
    }
}

/// The oscillator word for an offset in whole hertz; `None` when the offset is
/// more than half the sample rate off the centre.
pub fn freq_to_nco(offset_hz: i64, sample_rate_hz: u64) -> (word: Option<u32>)
    ensures
        word is Some <==> in_range(offset_hz as int, sample_rate_hz as int),
        word is Some ==> word->0 == word_of(phase_increment(offset_hz as int, sample_rate_hz as int)),
        word is Some ==> -0x800_0000 <= phase_increment(offset_hz as int, sample_rate_hz as int)
            <= 0x800_0000,
{
    let magnitude: u128 = if offset_hz < 0 {
        (-(offset_hz as i128)) as u128
    } else {
        offset_hz as u128
    };
    let rate: u128 = sample_rate_hz as u128;
    if 2 * magnitude > rate {
        return None;
    }
    if rate == 0 {
        return Some(0);
    }
    let rounded: u128 = (2 * (magnitude * 0x1000_0000) + rate) / (2 * rate);
    proof {
        let m = magnitude as int;
        let r = rate as int;
        assert((2 * (m * 0x1000_0000) + r) / (2 * r) <= 0x800_0000) by (nonlinear_arith)
            requires
                0 <= 2 * m <= r,
                0 < r,
        ;
    }
    if offset_hz >= 0 {
        Some(rounded as u32)
    } else if rounded == 0 {
        Some(0)
    } else {
        Some((0x1_0000_0000 - rounded) as u32)
    }
}

/// The whole turns of `a / b` towards zero, within 28 bits in two's complement.
pub open spec fn truncated_word(offset_hz: int, sample_rate_hz: int) -> u32 {
    if offset_hz >= 0 {
        (offset_hz * NCO_TURN / sample_rate_hz % 0x1000_0000) as u32
    } else {
        let magnitude = -offset_hz * NCO_TURN / sample_rate_hz;
        ((0x1000_0000 - magnitude) % 0x1000_0000) as u32
    }
}

/// The 28-bit word that is shown for an offset: cut off towards zero, where
/// the oscillator's word is rounded.
pub fn shown_nco_word(offset_hz: i64, sample_rate_hz: u64) -> (word: u32)
    requires
        0 < sample_rate_hz,
        in_range(offset_hz as int, sample_rate_hz as int),
    ensures
        word == truncated_word(offset_hz as int, sample_rate_hz as int),
{
    let magnitude: u128 = if offset_hz < 0 {
        (-(offset_hz as i128)) as u128
    } else {
        offset_hz as u128
    };
    let rate: u128 = sample_rate_hz as u128;
    let whole: u128 = magnitude * 0x1000_0000 / rate;
    proof {
        let m = magnitude as int;
        let r = rate as int;
        assert(0 <= m * 0x1000_0000 / r <= 0x800_0000) by (nonlinear_arith)
            requires
                0 <= 2 * m <= r,
                0 < r,
        ;
    }
    if offset_hz >= 0 {
        (whole % 0x1000_0000) as u32
    } else {
        ((0x1000_0000 - whole) % 0x1000_0000) as u32
    }
}

/// Tuning is symmetric: the increment for the opposite offset is the opposite.
pub proof fn opposite_offsets(offset_hz: int, sample_rate_hz: int)
    requires
        0 <= sample_rate_hz,
    ensures
        phase_increment(-offset_hz, sample_rate_hz) == -phase_increment(offset_hz, sample_rate_hz),
        in_range(-offset_hz, sample_rate_hz) == in_range(offset_hz, sample_rate_hz),
{
    if offset_hz == 0 && sample_rate_hz != 0 {
        vstd::arithmetic::div_mod::lemma_basic_div(sample_rate_hz, 2 * sample_rate_hz);
    }
}

/// The increment is within half a step of the exact share of a turn.
pub proof fn increment_is_nearest(offset_hz: int, sample_rate_hz: int)
    requires
        0 < sample_rate_hz,
    ensures
        ({
            let error = phase_increment(offset_hz, sample_rate_hz) * sample_rate_hz - offset_hz
                * NCO_TURN;
            -sample_rate_hz <= 2 * error <= sample_rate_hz
        }),
{
    let m = if offset_hz >= 0 {
        offset_hz
    } else {
        -offset_hz
    };
    let q = rounded_quotient(m * NCO_TURN, sample_rate_hz);
    let num = 2 * (m * NCO_TURN) + sample_rate_hz;
    let den = 2 * sample_rate_hz;
    vstd::arithmetic::div_mod::lemma_fundamental_div_mod(num, den);
    assert(0 <= num % den < den);
    assert(num == den * q + num % den);
    assert(den * q == 2 * (q * sample_rate_hz)) by (nonlinear_arith)
        requires
            den == 2 * sample_rate_hz,
    ;
    assert((-q) * sample_rate_hz == -(q * sample_rate_hz)) by (nonlinear_arith);
}

/// The word that is shown is the oscillator's word in 28 bits, or one step
/// nearer to zero.
pub proof fn shown_word_is_within_a_step(offset_hz: int, sample_rate_hz: int)
    requires
        0 < sample_rate_hz,
        in_range(offset_hz, sample_rate_hz),
    ensures
        ({
            let increment = phase_increment(offset_hz, sample_rate_hz);
            let nearer = if offset_hz >= 0 {
                increment - 1
            } else {
                increment + 1
            };
            let shown = truncated_word(offset_hz, sample_rate_hz);
            shown == increment % 0x1000_0000 || shown == nearer % 0x1000_0000
        }),
{
    let m = if offset_hz >= 0 {
        offset_hz
    } else {
        -offset_hz
    };
    let a = m * NCO_TURN;
    let b = sample_rate_hz;
    let cut = a / b;
    let rounded = rounded_quotient(a, b);
    assert(0 <= cut <= 0x800_0000 && (rounded == cut || rounded == cut + 1)) by (nonlinear_arith)
        requires
            a == m * 0x1000_0000,
            0 <= 2 * m <= b,
            0 < b,
            cut == a / b,
            rounded == (2 * a + b) / (2 * b),
    ;
}

/// The word is the increment modulo 2^32.
pub proof fn words_are_increments(offset_hz: int, sample_rate_hz: int)
    requires
        0 <= sample_rate_hz,
        in_range(offset_hz, sample_rate_hz),
        -0x8000_0000 <= phase_increment(offset_hz, sample_rate_hz) < 0x8000_0000,
    ensures
        (word_of(phase_increment(offset_hz, sample_rate_hz)) - phase_increment(
            offset_hz,
            sample_rate_hz,
        )) % 0x1_0000_0000 == 0,
{
}

/// Offsets up to half the sample rate, and no others, are in range.
pub proof fn range_is_half_the_rate(offset_hz: int, sample_rate_hz: int)
    requires
        0 <= sample_rate_hz,
    ensures
        in_range(offset_hz, sample_rate_hz) <==> {
            &&& 2 * offset_hz <= sample_rate_hz
            &&& -2 * offset_hz <= sample_rate_hz
        },
{
}

/// A larger offset has no smaller increment, a whole turn per sample is 2^28.
pub proof fn increments_grow(a: int, b: int, sample_rate_hz: int)
    requires
        0 < sample_rate_hz,
        0 <= a <= b,
    ensures
        0 <= phase_increment(a, sample_rate_hz) <= phase_increment(b, sample_rate_hz),
        phase_increment(sample_rate_hz, sample_rate_hz) == 0x1000_0000,
{
    let r = sample_rate_hz;
    assert(0 <= (2 * (a * 0x1000_0000) + r) / (2 * r) <= (2 * (b * 0x1000_0000) + r) / (2 * r))
        by (nonlinear_arith)
        requires
            0 < r,
            0 <= a <= b,
    ;
    assert((2 * (r * 0x1000_0000) + r) / (2 * r) == 0x1000_0000) by (nonlinear_arith)
        requires
            0 < r,
    ;
}

/// The word that is shown for an offset above the centre is cut off: it is the
/// largest whole number of steps that does not go beyond the offset. At the
/// opposite offset the two words add up to a whole turn, or both are zero.
pub proof fn shown_words_are_cut_off(offset_hz: int, sample_rate_hz: int)
    requires
        0 < sample_rate_hz,
        0 <= 2 * offset_hz <= sample_rate_hz,
    ensures
        ({
            let shown = truncated_word(offset_hz, sample_rate_hz);
            let opposite = truncated_word(-offset_hz, sample_rate_hz);
            &&& shown * sample_rate_hz <= offset_hz * 0x1000_0000
            &&& offset_hz * 0x1000_0000 < (shown + 1) * sample_rate_hz
            &&& shown + opposite == 0x1000_0000 || (shown == 0 && opposite == 0)
        }),
{
    let a = offset_hz * 0x1000_0000;
    let r = sample_rate_hz;
    assert(0 <= a / r <= 0x800_0000 && a / r * r <= a && a < (a / r + 1) * r) by (nonlinear_arith)
        requires
            a == offset_hz * 0x1000_0000,
            0 <= 2 * offset_hz <= r,
            0 < r,
    ;
}

} // verus!
