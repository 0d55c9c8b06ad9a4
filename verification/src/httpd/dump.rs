//! Dibits and voice frames as text, and sums over histograms.

use vstd::prelude::*;
use crate::httpd::base64::base64_text;
use crate::slices::sum_slice;
use crate::text::{append_lower_hex, append_upper_hex};

verus! {

/// A byte as two hexadecimal digits.
pub open spec fn upper_byte(b: u8) -> Seq<char> {
    crate::text::zero_padded(crate::text::upper_hex(b as nat), 2)
}

/// Bytes as hexadecimal digits, two a byte.
pub open spec fn upper_bytes(bytes: Seq<u8>) -> Seq<char>
    decreases bytes.len(),
{
    if bytes.len() == 0 {
        Seq::empty()
    } else {
        upper_bytes(bytes.drop_last()) + upper_byte(bytes.last())
    }
}

/// Bytes as lower-case hexadecimal digits, two a byte.
pub open spec fn lower_bytes(bytes: Seq<u8>) -> Seq<char>
    decreases bytes.len(),
{
    if bytes.len() == 0 {
        Seq::empty()
    } else {
        lower_bytes(bytes.drop_last()) + crate::text::zero_padded(
            crate::text::lower_hex(bytes.last() as nat),
            2,
        )
    }
}

/// The dibit in the low bits of a byte, zero past the end.
pub open spec fn dibit_at(dibits: Seq<u8>, i: int) -> int {
    if 0 <= i < dibits.len() {
        dibits[i] as int % 4
    } else {
        0
    }
}

/// The byte that holds four dibits, the first in its lowest bits.
pub open spec fn packed_byte(dibits: Seq<u8>, k: int) -> int {
    dibit_at(dibits, 4 * k) + 4 * dibit_at(dibits, 4 * k + 1) + 16 * dibit_at(dibits, 4 * k + 2)
        + 64 * dibit_at(dibits, 4 * k + 3)
}

/// Dibits four a byte, the first in the lowest bits.
pub open spec fn packs(packed: Seq<u8>, dibits: Seq<u8>) -> bool {
    &&& packed.len() == (dibits.len() + 3) / 4
    &&& forall|k: int| 0 <= k < packed.len() ==> (#[trigger] packed[k]) == packed_byte(dibits, k)
}

fn dibit_or_zero(dibits: &[u8], i: usize) -> (d: u8)
    ensures
        d == dibit_at(dibits@, i as int),
        d < 4,
{
    if i < dibits.len() {
        dibits[i] % 4
    } else {
        0
    }
}

/// Pack dibits four a byte, the first in the lowest bits.
pub fn pack_dibits(dibits: &[u8]) -> (packed: Vec<u8>)
    requires
        dibits@.len() + 3 <= usize::MAX,
    ensures
        packs(packed@, dibits@),
{
    let count: usize = (dibits.len() + 3) / 4;
    let mut packed: Vec<u8> = Vec::new();
    let mut k: usize = 0;
    while k < count
        invariant
            k <= count,
            count == (dibits@.len() + 3) / 4,
            dibits@.len() + 3 <= usize::MAX,
            packed@.len() == k,
            forall|i: int| 0 <= i < k ==> (#[trigger] packed@[i]) == packed_byte(dibits@, i),
        decreases count - k,
    {
        let a: u8 = dibit_or_zero(dibits, 4 * k);
        let b: u8 = dibit_or_zero(dibits, 4 * k + 1);
        let c: u8 = dibit_or_zero(dibits, 4 * k + 2);
        let d: u8 = dibit_or_zero(dibits, 4 * k + 3);
        packed.push(a + 4 * b + 16 * c + 64 * d);
        k = k + 1;
    }
    packed
}

/// Bytes as hexadecimal digits, two a byte.
pub fn upper_hex_text(bytes: &[u8]) -> (s: String)
    ensures
        s@ == upper_bytes(bytes@),
{
    let mut s = String::new();
    let mut i: usize = 0;
    assert(bytes@.take(0) =~= Seq::<u8>::empty());
    while i < bytes.len()
        invariant
            i <= bytes@.len(),
            s@ == upper_bytes(bytes@.take(i as int)),
        decreases bytes@.len() - i,
    {
        append_upper_hex(&mut s, bytes[i] as u64, 2);
        assert(bytes@.take(i + 1).drop_last() =~= bytes@.take(i as int));
        i = i + 1;
    }
    assert(bytes@.take(i as int) =~= bytes@);
    s
}

/// The bytes of a voice frame as lower-case hexadecimal digits.
pub fn lower_hex_text(bytes: &[u8]) -> (s: String)
    ensures
        s@ == lower_bytes(bytes@),
{
    let mut s = String::new();
    let mut i: usize = 0;
    assert(bytes@.take(0) =~= Seq::<u8>::empty());
    while i < bytes.len()
        invariant
            i <= bytes@.len(),
            s@ == lower_bytes(bytes@.take(i as int)),
        decreases bytes@.len() - i,
    {
        append_lower_hex(&mut s, bytes[i] as u64, 2);
        assert(bytes@.take(i + 1).drop_last() =~= bytes@.take(i as int));
        i = i + 1;
    }
    assert(bytes@.take(i as int) =~= bytes@);
    s
}

/// Dibits as digits, one a dibit.
pub open spec fn dibit_digits(dibits: Seq<u8>) -> Seq<char> {
    dibits.map_values(|d: u8| crate::text::upper_digit(d as int % 4))
}

/// Dibits as digits, one a dibit.
pub fn dibit_text(dibits: &[u8]) -> (s: String)
    ensures
        s@ == dibit_digits(dibits@),
{
    let mut s = String::new();
    let mut i: usize = 0;
    assert(s@ =~= dibit_digits(dibits@.take(0)));
    while i < dibits.len()
        invariant
            i <= dibits@.len(),
            s@ == dibit_digits(dibits@.take(i as int)),
        decreases dibits@.len() - i,
    {
        let d: u8 = dibits[i] % 4;
        s.append(
            match d {
                0 => "0",
                1 => "1",
                2 => "2",
                _ => "3",
            },
        );
        proof {
            reveal_strlit("0");
            reveal_strlit("1");
            reveal_strlit("2");
            reveal_strlit("3");
            assert(s@ =~= dibit_digits(dibits@.take(i + 1)));
        }
        i = i + 1;
    }
    assert(dibits@.take(i as int) =~= dibits@);
    s
}

/// Dibits one a byte, in its low bits.
pub open spec fn dibit_bytes(dibits: Seq<u8>) -> Seq<u8> {
    dibits.map_values(|d: u8| (d % 4) as u8)
}

/// Dibits in base64, one a byte.
pub fn dibit_base64(dibits: &[u8]) -> (s: String)
    ensures
        s@ == crate::httpd::base64::base64(dibit_bytes(dibits@)),
{
    let mut bytes: Vec<u8> = Vec::new();
    let mut i: usize = 0;
    while i < dibits.len()
        invariant
            i <= dibits@.len(),
            bytes@ == dibit_bytes(dibits@).take(i as int),
        decreases dibits@.len() - i,
    {
        bytes.push(dibits[i] % 4);
        assert(bytes@ =~= dibit_bytes(dibits@).take(i + 1));
        i = i + 1;
    }
    assert(bytes@ =~= dibit_bytes(dibits@));
    base64_text(bytes.as_slice())
}

/// What is shown of the rolling capture: the dibits in base64, one a byte, and
/// as digits.
pub struct CaptureReport {
    pub captured: usize,
    /// Dibits received in all.
    pub total_dibits: u64,
    pub dibits_base64: String,
    pub dibits_hex: String,
}

/// What is shown of the rolling capture.
pub fn capture_report(dibits: &[u8], total_dibits: u64) -> (r: CaptureReport)
    ensures
        r.captured == dibits@.len(),
        r.total_dibits == total_dibits,
        r.dibits_base64@ == crate::httpd::base64::base64(dibit_bytes(dibits@)),
        r.dibits_hex@ == dibit_digits(dibits@),
{
    CaptureReport {
        captured: dibits.len(),
        total_dibits,
        dibits_base64: dibit_base64(dibits),
        dibits_hex: dibit_text(dibits),
    }
}

/// What is shown of the dibits that were captured last, and of the histograms.
pub struct DibitDump {
    pub dibits_hex: String,
    pub captured: usize,
    /// Dibits of the inner symbols.
    pub inner: u64,
    /// Dibits of the outer symbols.
    pub outer: u64,
    /// Data units in all.
    pub raw_duid_total: u64,
}

/// What is shown of captured dibits, of the counts of each dibit and of the
/// counts of each data unit's identifier.
pub fn dibit_dump(dibits: &[u8], hist: &[u64; 4], raw_duid_hist: &[u64; 16]) -> (dump: DibitDump)
    requires
        dibits@.len() + 3 <= usize::MAX,
        hist@[0] + hist@[2] <= u64::MAX,
        hist@[1] + hist@[3] <= u64::MAX,
        crate::slices::sum_of(raw_duid_hist@) <= u64::MAX,
    ensures
        exists|packed: Seq<u8>| #[trigger]
            packs(packed, dibits@) && dump.dibits_hex@ == upper_bytes(packed),
        dump.captured == dibits@.len(),
        dump.inner == hist@[0] + hist@[2],
        dump.outer == hist@[1] + hist@[3],
        dump.raw_duid_total == crate::slices::sum_of(raw_duid_hist@),
{
    let packed: Vec<u8> = pack_dibits(dibits);
    let dibits_hex: String = upper_hex_text(packed.as_slice());
    assert(packs(packed@, dibits@));
    DibitDump {
        dibits_hex,
        captured: dibits.len(),
        inner: hist[0] + hist[2],
        outer: hist[1] + hist[3],
        raw_duid_total: sum_slice(raw_duid_hist.as_slice()),
    }
}

/// Packed dibits can be read back.
pub proof fn packing_keeps_every_dibit(packed: Seq<u8>, dibits: Seq<u8>, i: int)
    requires
        packs(packed, dibits),
        0 <= i < dibits.len(),
    ensures
        0 <= i / 4 < packed.len(),
        dibits[i] as int % 4 == if i % 4 == 0 {
            packed[i / 4] as int % 4
        } else if i % 4 == 1 {
            packed[i / 4] as int / 4 % 4
        } else if i % 4 == 2 {
            packed[i / 4] as int / 16 % 4
        } else {
            packed[i / 4] as int / 64 % 4
        },
{
    let k = i / 4;
    assert(i == 4 * k + i % 4);
    let a = dibit_at(dibits, 4 * k);
    let b = dibit_at(dibits, 4 * k + 1);
    let c = dibit_at(dibits, 4 * k + 2);
    let d = dibit_at(dibits, 4 * k + 3);
    assert(packed[k] == a + 4 * b + 16 * c + 64 * d);
    assert(0 <= a < 4 && 0 <= b < 4 && 0 <= c < 4 && 0 <= d < 4);
}

/// Only one row of bytes packs given dibits.
pub proof fn packing_is_unique(p: Seq<u8>, q: Seq<u8>, dibits: Seq<u8>)
    requires
        packs(p, dibits),
        packs(q, dibits),
    ensures
        p == q,
{
    assert(p =~= q);
}

/// Bytes are shown one after the other, two digits each, which denote the byte.
pub proof fn bytes_are_shown_in_two_digits(bytes: Seq<u8>, i: int)
    ensures
        upper_bytes(bytes).len() == 2 * bytes.len(),
        lower_bytes(bytes).len() == 2 * bytes.len(),
        0 <= i < bytes.len() ==> crate::text::hex_value(
            upper_bytes(bytes).subrange(2 * i, 2 * i + 2),
        ) == bytes[i],
        0 <= i < bytes.len() ==> crate::text::hex_value(
            lower_bytes(bytes).subrange(2 * i, 2 * i + 2),
        ) == bytes[i],
    decreases bytes.len(),
{
    if bytes.len() > 0 {
        let rest = bytes.drop_last();
        let last = bytes.last();
        bytes_are_shown_in_two_digits(rest, i);
        lemma_two_digits(last);
        crate::text::hexadecimal_denotes_the_number(last as nat, 2);
        let lower = crate::text::zero_padded(crate::text::lower_hex(last as nat), 2);
        if 0 <= i < rest.len() {
            assert(upper_bytes(bytes).subrange(2 * i, 2 * i + 2) =~= upper_bytes(rest).subrange(
                2 * i,
                2 * i + 2,
            ));
            assert(lower_bytes(bytes).subrange(2 * i, 2 * i + 2) =~= lower_bytes(rest).subrange(
                2 * i,
                2 * i + 2,
            ));
        } else if i == rest.len() {
            assert(upper_bytes(bytes).subrange(2 * i, 2 * i + 2) =~= upper_byte(last));
            assert(lower_bytes(bytes).subrange(2 * i, 2 * i + 2) =~= lower);
        }
    }
}

proof fn lemma_two_digits(b: u8)
    ensures
        upper_byte(b).len() == 2,
        crate::text::zero_padded(crate::text::lower_hex(b as nat), 2).len() == 2,
{
    reveal_with_fuel(crate::text::upper_hex, 3);
    reveal_with_fuel(crate::text::lower_hex, 3);
}

/// Voice frames are shown with small letters and dibits with capitals.
pub proof fn letters_differ_in_size(b: u8)
    requires
        b / 16 >= 10,
    ensures
        'A' <= upper_bytes(seq![b])[0] && upper_bytes(seq![b])[0] <= 'F',
        'a' <= lower_bytes(seq![b])[0] && lower_bytes(seq![b])[0] <= 'f',
{
    reveal_with_fuel(upper_bytes, 2);
    reveal_with_fuel(lower_bytes, 2);
    reveal_with_fuel(crate::text::upper_hex, 3);
    reveal_with_fuel(crate::text::lower_hex, 3);
    assert(seq![b].drop_last() =~= Seq::<u8>::empty());
}

/// Every dibit is one digit and one byte of the value in its two low bits.
pub proof fn dibits_are_shown_one_by_one(dibits: Seq<u8>, i: int)
    requires
        0 <= i < dibits.len(),
    ensures
        dibit_digits(dibits).len() == dibits.len(),
        crate::text::digit_value(dibit_digits(dibits)[i]) == dibits[i] as int % 4,
        dibit_bytes(dibits).len() == dibits.len(),
        dibit_bytes(dibits)[i] == dibits[i] as int % 4,
{
}

} // verus!
