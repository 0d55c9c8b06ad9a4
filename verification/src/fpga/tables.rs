//! Taps of the three decimating stages of the down-converter.
//!
//! 8 MSPS to 62.5 kSPS in steps of 4, 4 and 8. The taps are in units of 2^-17
//! and each stage has unit gain at zero frequency.

use vstd::prelude::*;

verus! {

/// Decimation of the first stage.
pub const P25_DEC1: usize = 4;

/// Decimation of the second stage.
pub const P25_DEC2: usize = 4;

/// Decimation of the third stage.
pub const P25_DEC3: usize = 8;

/// First stage (folded): passband to 200 kHz, stopband from 1 MHz.
pub const P25_FIR1_COEFFS: [i32; 176] = [
    0, 0, 0, 0, 0, 0, 0, 0,
    0, 0, 0, 0, 0, 0, 0, 0,
    0, 0, 0, 0, 0, 0, 0, 0,
    0, 0, 0, 1, 1, 1, 0, 0,
    -1, -3, -4, -5, -5, -3, 0, 6,
    12, 19, 23, 23, 17, 3, -18, -42,
    -66, -82, -83, -62, -18, 48, 124, 196,
    243, 244, 186, 63, -113, -316, -501, -618,
    -620, -474, -174, 249, 726, 1157, 1428, 1433,
    1102, 423, -535, -1627, -2636, -3308, -3393, -2692,
    -1099, 1360, 4521, 8090, 11681, 14869, 17255, 18532,
    18532, 17255, 14869, 11681, 8090, 4521, 1360, -1099,
    -2692, -3393, -3308, -2636, -1627, -535, 423, 1102,
    1433, 1428, 1157, 726, 249, -174, -474, -620,
    -618, -501, -316, -113, 63, 186, 244, 243,
    196, 124, 48, -18, -62, -83, -82, -66,
    -42, -18, 3, 17, 23, 23, 19, 12,
    6, 0, -3, -5, -5, -4, -3, -1,
    0, 0, 1, 1, 1, 0, 0, 0,
    0, 0, 0, 0, 0, 0, 0, 0,
    0, 0, 0, 0, 0, 0, 0, 0,
    0, 0, 0, 0, 0, 0, 0, 0,
];

/// Second stage (plain).
pub const P25_FIR2_COEFFS: [i32; 128] = [
    0, 0, 0, 0, 0, 0, 0, 0,
    0, 0, 0, 0, -1, -1, -1, 0,
    1, 2, 4, 6, 7, 6, 2, -5,
    -15, -27, -36, -40, -32, -10, 26, 72,
    119, 153, 158, 118, 28, -106, -264, -409,
    -496, -478, -325, -32, 368, 802, 1164, 1335,
    1210, 731, -86, -1136, -2221, -3076, -3412, -2970,
    -1581, 784, 3988, 7732, 11588, 15068, 17703, 19122,
    19122, 17703, 15068, 11588, 7732, 3988, 784, -1581,
    -2970, -3412, -3076, -2221, -1136, -86, 731, 1210,
    1335, 1164, 802, 368, -32, -325, -478, -496,
    -409, -264, -106, 28, 118, 158, 153, 119,
    72, 26, -10, -32, -40, -36, -27, -15,
    -5, 2, 6, 7, 6, 4, 2, 1,
    0, -1, -1, -1, 0, 0, 0, 0,
    0, 0, 0, 0, 0, 0, 0, 0,
];

/// Third stage (folded): passband to 7.25 kHz.
pub const P25_FIR3_COEFFS: [i32; 256] = [
    0, 0, 0, 0, 0, 0, 0, 0,
    0, 0, 0, 0, 0, 0, 0, 0,
    0, 0, 0, 0, 0, 0, 0, 0,
    0, 0, 0, 0, -1, -1, -1, -1,
    -1, -1, -2, -2, -2, -2, -2, -2,
    -2, -1, -1, 0, 1, 2, 4, 6,
    8, 10, 13, 15, 18, 20, 21, 23,
    23, 22, 20, 17, 12, 5, -3, -13,
    -25, -38, -52, -67, -81, -94, -106, -115,
    -120, -121, -116, -105, -87, -62, -30, 9,
    55, 106, 160, 217, 272, 324, 370, 406,
    430, 437, 427, 395, 340, 262, 161, 38,
    -105, -265, -435, -611, -786, -950, -1096, -1214,
    -1295, -1330, -1311, -1230, -1081, -860, -564, -193,
    250, 760, 1332, 1954, 2616, 3303, 4002, 4694,
    5365, 5996, 6573, 7079, 7502, 7830, 8053, 8166,
    8166, 8053, 7830, 7502, 7079, 6573, 5996, 5365,
    4694, 4002, 3303, 2616, 1954, 1332, 760, 250,
    -193, -564, -860, -1081, -1230, -1311, -1330, -1295,
    -1214, -1096, -950, -786, -611, -435, -265, -105,
    38, 161, 262, 340, 395, 427, 437, 430,
    406, 370, 324, 272, 217, 160, 106, 55,
    9, -30, -62, -87, -105, -116, -121, -120,
    -115, -106, -94, -81, -67, -52, -38, -25,
    -13, -3, 5, 12, 17, 20, 22, 23,
    23, 21, 20, 18, 15, 13, 10, 8,
    6, 4, 2, 1, 0, -1, -1, -2,
    -2, -2, -2, -2, -2, -2, -1, -1,
    -1, -1, -1, -1, 0, 0, 0, 0,
    0, 0, 0, 0, 0, 0, 0, 0,
    0, 0, 0, 0, 0, 0, 0, 0,
    0, 0, 0, 0, 0, 0, 0, 0,
];

} // verus!
