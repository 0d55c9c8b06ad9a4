//! Decoding of the sub-buffers of the IQ ring.
//!
//! A sub-buffer is a run of little-endian 16-bit pairs in the order
//! `re, im, re, im, ...`. A sample at full scale is 1 when divided by 32768.

use vstd::prelude::*;
use crate::lsm::Complex16;

verus! {

/// Rate of the IQ stream in the ring, in hertz.
pub const IQ_DMA_SAMPLE_RATE_HZ: u32 = 62_500;

/// The two's complement value of two bytes, low byte first.
pub open spec fn i16_of_bytes(low: u8, high: u8) -> int {
    let unsigned = low + 256 * high;
    if unsigned < 32768 {
        unsigned
    } else {
        unsigned - 65536
    }
}

/// Sample `k` of a sub-buffer.
pub open spec fn sample_at(buf: Seq<u8>, k: int) -> Complex16 {
    Complex16 {
        re: i16_of_bytes(buf[4 * k], buf[4 * k + 1]) as i16,
        im: i16_of_bytes(buf[4 * k + 2], buf[4 * k + 3]) as i16,
    }
}

/// The samples of a sub-buffer, in order. Bytes behind the last whole sample
/// count for nothing.
pub open spec fn samples(buf: Seq<u8>) -> Seq<Complex16> {
    Seq::new(buf.len() / 4, |k: int| sample_at(buf, k))
}

/// The samples of the sub-buffers, one sub-buffer after the other.
pub open spec fn joined_samples(buffers: Seq<&[u8]>) -> Seq<Complex16>
    decreases buffers.len(),
{
    if buffers.len() == 0 {
        seq![]
    } else {
        joined_samples(buffers.drop_last()) + samples(buffers.last()@)
    }
}

/// Two bytes, low byte first, as a signed 16-bit number.
pub fn i16_from_le(low: u8, high: u8) -> (v: i16)
    ensures
        v == i16_of_bytes(low, high),
{
    let unsigned: i32 = low as i32 + 256 * (high as i32);
    if unsigned < 32768 {
        unsigned as i16
    } else {
        (unsigned - 65536) as i16
    }
}

fn append_samples(out: &mut Vec<Complex16>, buf: &[u8])
    ensures
        final(out)@ == old(out)@ + samples(buf@),
{
    let ghost before = out@;
    let n: usize = buf.len() / 4;
    let mut k: usize = 0;
    while k < n
        invariant
            n == buf@.len() / 4,
            buf@.len() <= usize::MAX,
            k <= n,
            out@ == before + Seq::new(k as nat, |j: int| sample_at(buf@, j)),
        decreases n - k,
    {
        let at: usize = 4 * k;
        out.push(
            Complex16 {
                re: i16_from_le(buf[at], buf[at + 1]),
                im: i16_from_le(buf[at + 2], buf[at + 3]),
            },
        );
        k = k + 1;
    }
}

/// The samples of one sub-buffer.
pub fn sub_buffer_to_complex(buf: &[u8]) -> (out: Vec<Complex16>)
    ensures
        out@ == samples(buf@),
{
    let mut out: Vec<Complex16> = Vec::new();
    append_samples(&mut out, buf);
    out
}

/// The samples of several sub-buffers as one stream.
pub fn sub_buffers_to_complex(buffers: &[&[u8]]) -> (out: Vec<Complex16>)
    ensures
        out@ == joined_samples(buffers@),
{
    let mut out: Vec<Complex16> = Vec::new();
    let mut i: usize = 0;
    while i < buffers.len()
        invariant
            i <= buffers@.len(),
            out@ == joined_samples(buffers@.take(i as int)),
        decreases buffers@.len() - i,
    {
        append_samples(&mut out, buffers[i]);
        proof {
            assert(buffers@.take(i + 1).drop_last() =~= buffers@.take(i as int));
        }
        i = i + 1;
    }
    assert(buffers@.take(i as int) =~= buffers@);
    out
}

/// Sub-buffers whose length is a whole number of samples may be joined before
/// or after decoding.
pub proof fn decoding_joined_buffers(a: Seq<u8>, b: Seq<u8>)
    requires
        a.len() % 4 == 0,
    ensures
        samples(a + b) == samples(a) + samples(b),
{
    assert(samples(a + b) =~= samples(a) + samples(b));
}

/// Two bytes are the two's complement number whose remainder modulo 2^16 they
/// are, low byte first.
pub proof fn bytes_are_a_number(low: u8, high: u8)
    ensures
        -32768 <= i16_of_bytes(low, high) < 32768,
        (i16_of_bytes(low, high) - low - 256 * high) % 65536 == 0,
{
}

/// Sample `k` comes from bytes `4k` to `4k + 3`: two for the real part, two for
/// the imaginary one, and there is one for every four bytes.
pub proof fn samples_come_from_their_bytes(buf: Seq<u8>, k: int)
    requires
        0 <= k,
        4 * k + 4 <= buf.len(),
    ensures
        k < samples(buf).len(),
        samples(buf).len() == buf.len() / 4,
        (samples(buf)[k].re - buf[4 * k] - 256 * buf[4 * k + 1]) % 65536 == 0,
        (samples(buf)[k].im - buf[4 * k + 2] - 256 * buf[4 * k + 3]) % 65536 == 0,
{
    bytes_are_a_number(buf[4 * k], buf[4 * k + 1]);
    bytes_are_a_number(buf[4 * k + 2], buf[4 * k + 3]);
}

/// The stream of several sub-buffers is that of the first ones and then that of
/// the last.
pub proof fn streams_join(a: Seq<&[u8]>, b: Seq<&[u8]>)
    ensures
        joined_samples(a + b) == joined_samples(a) + joined_samples(b),
        a.len() == 1 ==> joined_samples(a) == samples(a[0]@),
        a.len() == 0 ==> joined_samples(a).len() == 0,
    decreases b.len(),
{
    reveal_with_fuel(joined_samples, 2);
    if a.len() == 1 {
        assert(a.drop_last().len() == 0);
        assert(joined_samples(a) =~= samples(a[0]@));
    }
    if b.len() == 0 {
        assert(a + b =~= a);
        assert(joined_samples(a) + joined_samples(b) =~= joined_samples(a));
    } else {
        streams_join(a, b.drop_last());
        assert((a + b).drop_last() =~= a + b.drop_last());
        assert((a + b).last() == b.last());
        assert(joined_samples(a + b) =~= joined_samples(a) + joined_samples(b));
    }
}

} // verus!
