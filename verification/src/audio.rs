//! Decoded audio: 16-bit samples at 8 kHz, one channel.

use vstd::prelude::*;
use crate::slices::append_copies;
use crate::voice::{ImbeFrameRaw, ImbeRecord};

verus! {

/// One chunk of decoded audio: 20 ms, one voice frame.
#[derive(Debug, Clone)]
pub struct AudioChunk {
    pub pcm: [i16; 160],
    /// Number of the chunk, for noticing gaps.
    pub seq: u64,
    /// Talkgroup that the audio came from.
    pub talkgroup: u16,
}

/// A number as bytes, the lowest first.
pub open spec fn le_bytes(n: int, count: nat) -> Seq<u8>
    decreases count,
{
    if count == 0 {
        Seq::empty()
    } else {
        seq![(n % 256) as u8] + le_bytes(n / 256, (count - 1) as nat)
    }
}

/// A sample as two bytes, the lower first, in two's complement.
pub open spec fn sample_bytes(sample: i16) -> Seq<u8> {
    let unsigned = if sample < 0 {
        sample + 65536
    } else {
        sample as int
    };
    seq![(unsigned % 256) as u8, (unsigned / 256) as u8]
}

/// Samples as bytes.
pub open spec fn pcm_bytes(pcm: Seq<i16>) -> Seq<u8> {
    Seq::new(2 * pcm.len(), |i: int| sample_bytes(pcm[i / 2])[i % 2])
}

/// The header of a WAV file with the two sizes that it names: of what follows
/// the first, and of the samples.
pub open spec fn wav_header(riff_size: int, data_size: int) -> Seq<u8> {
    seq![0x52u8, 0x49, 0x46, 0x46] + le_bytes(riff_size, 4) + seq![
        0x57u8,
        0x41,
        0x56,
        0x45,
        0x66,
        0x6d,
        0x74,
        0x20,
    ] + le_bytes(16, 4) + le_bytes(1, 2) + le_bytes(1, 2) + le_bytes(8000, 4) + le_bytes(16000, 4)
        + le_bytes(2, 2) + le_bytes(16, 2) + seq![0x64u8, 0x61, 0x74, 0x61] + le_bytes(data_size, 4)
}

/// A size that is not known yet.
pub const UNKNOWN_SIZE: u32 = 0xFFFF_FFFF;

fn header_with(riff_size: u32, data_size: u32) -> (h: [u8; 44])
    ensures
        h@ == wav_header(riff_size as int, data_size as int),
{
    let h: [u8; 44] = [
        0x52,
        0x49,
        0x46,
        0x46,
        (riff_size % 256) as u8,
        (riff_size / 256 % 256) as u8,
        (riff_size / 65536 % 256) as u8,
        (riff_size / 16777216 % 256) as u8,
        0x57,
        0x41,
        0x56,
        0x45,
        0x66,
        0x6d,
        0x74,
        0x20,
        16,
        0,
        0,
        0,
        1,
        0,
        1,
        0,
        0x40,
        0x1f,
        0,
        0,
        0x80,
        0x3e,
        0,
        0,
        2,
        0,
        16,
        0,
        0x64,
        0x61,
        0x74,
        0x61,
        (data_size % 256) as u8,
        (data_size / 256 % 256) as u8,
        (data_size / 65536 % 256) as u8,
        (data_size / 16777216 % 256) as u8,
    ];
    proof {
        four_bytes(riff_size as int);
        four_bytes(data_size as int);
        four_bytes(16);
        four_bytes(8000);
        four_bytes(16000);
        two_bytes(1);
        two_bytes(2);
        two_bytes(16);
        assert(h@ =~= wav_header(riff_size as int, data_size as int));
    }
    h
}

proof fn four_bytes(n: int)
    requires
        0 <= n,
    ensures
        le_bytes(n, 4) == seq![
            (n % 256) as u8,
            (n / 256 % 256) as u8,
            (n / 65536 % 256) as u8,
            (n / 16777216 % 256) as u8,
        ],
{
    reveal_with_fuel(le_bytes, 5);
    assert(n / 256 / 256 == n / 65536);
    assert(n / 256 / 256 / 256 == n / 16777216);
    assert(le_bytes(n, 4) =~= seq![
        (n % 256) as u8,
        (n / 256 % 256) as u8,
        (n / 65536 % 256) as u8,
        (n / 16777216 % 256) as u8,
    ]);
}

proof fn two_bytes(n: int)
    requires
        0 <= n,
    ensures
        le_bytes(n, 2) == seq![(n % 256) as u8, (n / 256 % 256) as u8],
{
    reveal_with_fuel(le_bytes, 3);
    assert(le_bytes(n, 2) =~= seq![(n % 256) as u8, (n / 256 % 256) as u8]);
}

/// The header of a WAV stream whose length is not known.
pub fn wav_header_8k_16bit_mono() -> (h: [u8; 44])
    ensures
        h@ == wav_header(0xFFFF_FFFF, 0xFFFF_FFFF),
{
    header_with(UNKNOWN_SIZE, UNKNOWN_SIZE)
}

/// Samples as bytes, the lower byte of each first.
pub fn to_le_bytes(pcm: &[i16]) -> (bytes: Vec<u8>)
    ensures
        bytes@ == pcm_bytes(pcm@),
{
    let mut bytes: Vec<u8> = Vec::new();
    let mut i: usize = 0;
    while i < pcm.len()
        invariant
            i <= pcm@.len(),
            bytes@ == pcm_bytes(pcm@.take(i as int)),
        decreases pcm@.len() - i,
    {
        let sample: i16 = pcm[i];
        let unsigned: u16 = if sample < 0 {
            (sample as i32 + 65536) as u16
        } else {
            sample as u16
        };
        let ghost before = bytes@;
        bytes.push((unsigned % 256) as u8);
        bytes.push((unsigned / 256) as u8);
        proof {
            let part = pcm@.take(i + 1);
            assert forall|k: int| 0 <= k < bytes@.len() implies bytes@[k] == pcm_bytes(part)[k] by {
                if k < before.len() {
                    assert(bytes@[k] == before[k]);
                    assert(before[k] == sample_bytes(pcm@.take(i as int)[k / 2])[k % 2]);
                } else {
                    assert(k / 2 == i);
                }
            }
            assert(bytes@ =~= pcm_bytes(part));
        }
        i = i + 1;
    }
    assert(pcm@.take(i as int) =~= pcm@);
    bytes
}

/// A WAV file with the given samples.
pub fn wav_file(pcm: &[i16]) -> (file: Vec<u8>)
    requires
        36 + 2 * pcm@.len() <= u32::MAX,
    ensures
        file@ == wav_header(36 + 2 * pcm@.len() as int, 2 * pcm@.len() as int) + pcm_bytes(pcm@),
{
    let data_size: u32 = 2 * (pcm.len() as u32);
    let header: [u8; 44] = header_with(36 + data_size, data_size);
    let mut file: Vec<u8> = Vec::new();
    append_copies(&mut file, header.as_slice());
    let data: Vec<u8> = to_le_bytes(pcm);
    append_copies(&mut file, data.as_slice());
    assert(file@ =~= header@ + pcm_bytes(pcm@));
    file
}

/// The frames of calls that are not encrypted, in order.
pub open spec fn clear_frames_of(ring: Seq<ImbeRecord>) -> Seq<ImbeFrameRaw>
    decreases ring.len(),
{
    if ring.len() == 0 {
        Seq::empty()
    } else if ring.last().encrypted {
        clear_frames_of(ring.drop_last())
    } else {
        clear_frames_of(ring.drop_last()).push(ImbeFrameRaw { bits: ring.last().bits })
    }
}

/// The frames of calls that are not encrypted, in order.
pub fn clear_frames(ring: &Vec<ImbeRecord>) -> (frames: Vec<ImbeFrameRaw>)
    ensures
        frames@ == clear_frames_of(ring@),
{
    let mut frames: Vec<ImbeFrameRaw> = Vec::new();
    let mut i: usize = 0;
    assert(ring@.take(0) =~= Seq::<ImbeRecord>::empty());
    while i < ring.len()
        invariant
            i <= ring@.len(),
            frames@ == clear_frames_of(ring@.take(i as int)),
        decreases ring@.len() - i,
    {
        if !ring[i].encrypted {
            frames.push(ImbeFrameRaw { bits: ring[i].bits });
        }
        assert(ring@.take(i + 1).drop_last() =~= ring@.take(i as int));
        i = i + 1;
    }
    assert(ring@.take(i as int) =~= ring@);
    frames
}

/// The type of an audio stream: WAV where that is asked for, bare samples
/// otherwise.
pub fn stream_type(wav: bool) -> (name: &'static str)
    ensures
        name@ == if wav {
            "audio/wav"@
        } else {
            "audio/L16;rate=8000;channels=1"@
        },
{
    if wav {
        "audio/wav"
    } else {
        "audio/L16;rate=8000;channels=1"
    }
}

/// Bytes of a stream read back as the samples they came from.
pub proof fn samples_read_back(pcm: Seq<i16>, i: int)
    requires
        0 <= i < pcm.len(),
    ensures
        crate::lsm::ring::i16_of_bytes(pcm_bytes(pcm)[2 * i], pcm_bytes(pcm)[2 * i + 1]) == pcm[i],
{
    assert((2 * i) / 2 == i && (2 * i) % 2 == 0);
    assert((2 * i + 1) / 2 == i && (2 * i + 1) % 2 == 1);
    assert(pcm_bytes(pcm)[2 * i] == sample_bytes(pcm[i])[0]);
    assert(pcm_bytes(pcm)[2 * i + 1] == sample_bytes(pcm[i])[1]);
}

/// A header has 44 bytes.
pub proof fn header_length(riff_size: int, data_size: int)
    requires
        0 <= riff_size,
        0 <= data_size,
    ensures
        wav_header(riff_size, data_size).len() == 44,
{
    four_bytes(riff_size);
    four_bytes(data_size);
    four_bytes(16);
    four_bytes(8000);
    four_bytes(16000);
    two_bytes(1);
    two_bytes(2);
    two_bytes(16);
}

/// The sizes that a file's header names: what follows the first eight bytes,
/// and what follows the header.
pub proof fn file_sizes_agree(pcm: Seq<i16>)
    ensures
        ({
            let data_size = 2 * pcm.len() as int;
            let file = wav_header(36 + data_size, data_size) + pcm_bytes(pcm);
            file.len() == 8 + (36 + data_size) && file.len() == 44 + data_size
        }),
{
    header_length(36 + 2 * pcm.len() as int, 2 * pcm.len() as int);
}

/// Four bytes of a header read as a number, the lowest first.
pub open spec fn read_four(bytes: Seq<u8>, at: int) -> int {
    bytes[at] + 0x100 * bytes[at + 1] + 0x1_0000 * bytes[at + 2] + 0x100_0000 * bytes[at + 3]
}

/// A header is a RIFF header of a WAVE file with one PCM format block and the
/// samples behind it: one channel, 8000 samples a second of 16 bits, which is
/// two bytes a sample and so many bytes a second as follow from that. The two
/// sizes stand where a reader looks for them.
pub proof fn header_fields_are_in_place(riff_size: u32, data_size: u32)
    ensures
        ({
            let h = wav_header(riff_size as int, data_size as int);
            &&& h.subrange(0, 4) == seq!['R' as u8, 'I' as u8, 'F' as u8, 'F' as u8]
            &&& read_four(h, 4) == riff_size
            &&& h.subrange(8, 12) == seq!['W' as u8, 'A' as u8, 'V' as u8, 'E' as u8]
            &&& h.subrange(12, 16) == seq!['f' as u8, 'm' as u8, 't' as u8, ' ' as u8]
            &&& read_four(h, 16) == 16
            &&& h[20] == 1 && h[21] == 0
            &&& h[22] == 1 && h[23] == 0
            &&& read_four(h, 24) == 8000
            &&& read_four(h, 28) == 2 * read_four(h, 24)
            &&& h[32] == 2 && h[33] == 0
            &&& h[34] == 16 && h[35] == 0
            &&& h.subrange(36, 40) == seq!['d' as u8, 'a' as u8, 't' as u8, 'a' as u8]
            &&& read_four(h, 40) == data_size
        }),
{
    header_length(riff_size as int, data_size as int);
    four_bytes(riff_size as int);
    four_bytes(data_size as int);
    four_bytes(16);
    four_bytes(8000);
    four_bytes(16000);
    two_bytes(1);
    two_bytes(2);
    two_bytes(16);
    let h = wav_header(riff_size as int, data_size as int);
    assert(h.subrange(0, 4) =~= seq!['R' as u8, 'I' as u8, 'F' as u8, 'F' as u8]);
    assert(h.subrange(8, 12) =~= seq!['W' as u8, 'A' as u8, 'V' as u8, 'E' as u8]);
    assert(h.subrange(12, 16) =~= seq!['f' as u8, 'm' as u8, 't' as u8, ' ' as u8]);
    assert(h.subrange(36, 40) =~= seq!['d' as u8, 'a' as u8, 't' as u8, 'a' as u8]);
    assert(read_four(h, 4) == riff_size);
    assert(read_four(h, 16) == 16);
    assert(read_four(h, 24) == 8000);
    assert(read_four(h, 28) == 16000);
    assert(read_four(h, 40) == data_size);
}

/// Samples one after the other give their bytes one after the other, two each.
pub proof fn sample_bytes_join(a: Seq<i16>, b: Seq<i16>)
    ensures
        pcm_bytes(a + b) == pcm_bytes(a) + pcm_bytes(b),
        pcm_bytes(a).len() == 2 * a.len(),
{
    let all = pcm_bytes(a + b);
    let parts = pcm_bytes(a) + pcm_bytes(b);
    assert forall|i: int| 0 <= i < all.len() implies all[i] == parts[i] by {
        if i < 2 * a.len() {
            assert((a + b)[i / 2] == a[i / 2]);
        } else {
            let j = i - 2 * a.len();
            assert(i / 2 == a.len() + j / 2 && i % 2 == j % 2);
            assert((a + b)[i / 2] == b[j / 2]);
        }
    }
    assert(all =~= parts);
}

/// Every clear frame of the ring is handed out, in order and as it came, and no
/// encrypted one.
pub proof fn clear_frames_join(a: Seq<ImbeRecord>, b: Seq<ImbeRecord>)
    ensures
        clear_frames_of(a + b) == clear_frames_of(a) + clear_frames_of(b),
        a.len() == 0 ==> clear_frames_of(a).len() == 0,
        a.len() == 1 && a[0].encrypted ==> clear_frames_of(a).len() == 0,
        a.len() == 1 && !a[0].encrypted ==> clear_frames_of(a) == seq![
            ImbeFrameRaw { bits: a[0].bits },
        ],
    decreases b.len(),
{
    reveal_with_fuel(clear_frames_of, 2);
    if a.len() == 1 {
        assert(a.drop_last() =~= Seq::<ImbeRecord>::empty());
        if !a[0].encrypted {
            assert(clear_frames_of(a) =~= seq![ImbeFrameRaw { bits: a[0].bits }]);
        }
    }
    if b.len() == 0 {
        assert(a + b =~= a);
        assert(clear_frames_of(a) + clear_frames_of(b) =~= clear_frames_of(a));
    } else {
        clear_frames_join(a, b.drop_last());
        assert((a + b).drop_last() =~= a + b.drop_last());
        assert((a + b).last() == b.last());
        assert(clear_frames_of(a + b) =~= clear_frames_of(a) + clear_frames_of(b));
    }
}

} // verus!
