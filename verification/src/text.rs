//! Numbers as text: decimal and hexadecimal rendering, decimal parsing.

use vstd::prelude::*;

verus! {

/// The character of a digit below sixteen, with capital letters.
pub open spec fn upper_digit(d: int) -> char {
    if d == 0 { '0' } else if d == 1 { '1' } else if d == 2 { '2' } else if d == 3 { '3' }
    else if d == 4 { '4' } else if d == 5 { '5' } else if d == 6 { '6' } else if d == 7 { '7' }
    else if d == 8 { '8' } else if d == 9 { '9' } else if d == 10 { 'A' } else if d == 11 { 'B' }
    else if d == 12 { 'C' } else if d == 13 { 'D' } else if d == 14 { 'E' } else { 'F' }
}

/// The character of a digit below sixteen, with small letters.
pub open spec fn lower_digit(d: int) -> char {
    if d == 10 { 'a' } else if d == 11 { 'b' } else if d == 12 { 'c' } else if d == 13 { 'd' }
    else if d == 14 { 'e' } else if d == 15 { 'f' } else { upper_digit(d) }
}

/// A natural number in decimal.
pub open spec fn decimal(n: nat) -> Seq<char>
    decreases n,
{
    if n < 10 {
        seq![upper_digit(n as int)]
    } else {
        decimal(n / 10).push(upper_digit((n % 10) as int))
    }
}

/// An integer in decimal, with a minus sign where it is negative.
pub open spec fn signed_decimal(n: int) -> Seq<char> {
    if n < 0 {
        seq!['-'] + decimal((-n) as nat)
    } else {
        decimal(n as nat)
    }
}

/// A natural number in hexadecimal with capital letters.
pub open spec fn upper_hex(n: nat) -> Seq<char>
    decreases n,
{
    if n < 16 {
        seq![upper_digit(n as int)]
    } else {
        upper_hex(n / 16).push(upper_digit((n % 16) as int))
    }
}

/// A natural number in hexadecimal with small letters.
pub open spec fn lower_hex(n: nat) -> Seq<char>
    decreases n,
{
    if n < 16 {
        seq![lower_digit(n as int)]
    } else {
        lower_hex(n / 16).push(lower_digit((n % 16) as int))
    }
}

/// `s` with zeros in front up to `width` characters.
pub open spec fn zero_padded(s: Seq<char>, width: nat) -> Seq<char> {
    if s.len() >= width {
        s
    } else {
        Seq::new((width - s.len()) as nat, |i: int| '0') + s
    }
}

fn upper_digit_text(d: u8) -> (s: &'static str)
    requires
        d < 16,
    ensures
        s@ == seq![upper_digit(d as int)],
{
    proof {
        reveal_strlit("0");
        reveal_strlit("1");
        reveal_strlit("2");
        reveal_strlit("3");
        reveal_strlit("4");
        reveal_strlit("5");
        reveal_strlit("6");
        reveal_strlit("7");
        reveal_strlit("8");
        reveal_strlit("9");
        reveal_strlit("A");
        reveal_strlit("B");
        reveal_strlit("C");
        reveal_strlit("D");
        reveal_strlit("E");
        reveal_strlit("F");
    }
    match d {
        0 => "0",
        1 => "1",
        2 => "2",
        3 => "3",
        4 => "4",
        5 => "5",
        6 => "6",
        7 => "7",
        8 => "8",
        9 => "9",
        10 => "A",
        11 => "B",
        12 => "C",
        13 => "D",
        14 => "E",
        _ => "F",
    }
}

fn lower_digit_text(d: u8) -> (s: &'static str)
    requires
        d < 16,
    ensures
        s@ == seq![lower_digit(d as int)],
{
    proof {
        reveal_strlit("a");
        reveal_strlit("b");
        reveal_strlit("c");
        reveal_strlit("d");
        reveal_strlit("e");
        reveal_strlit("f");
    }
    match d {
        10 => "a",
        11 => "b",
        12 => "c",
        13 => "d",
        14 => "e",
        15 => "f",
        _ => upper_digit_text(d),
    }
}

/// Append `n` in decimal.
pub fn append_decimal(s: &mut String, n: u64)
    ensures
        final(s)@ == old(s)@ + decimal(n as nat),
    decreases n,
{
    if n < 10 {
        s.append(upper_digit_text(n as u8));
    } else {
        let ghost before = s@;
        append_decimal(s, n / 10);
        s.append(upper_digit_text((n % 10) as u8));
        assert(s@ =~= before + decimal(n as nat));
    }
}

/// Append `n` in decimal, with a minus sign where it is negative.
pub fn append_signed(s: &mut String, n: i64)
    ensures
        final(s)@ == old(s)@ + signed_decimal(n as int),
{
    if n < 0 {
        let ghost before = s@;
        proof {
            reveal_strlit("-");
        }
        s.append("-");
        let magnitude: u64 = (-(n as i128)) as u64;
        append_decimal(s, magnitude);
        assert(s@ =~= before + signed_decimal(n as int));
    } else {
        append_decimal(s, n as u64);
    }
}

fn append_zeros(s: &mut String, count: usize)
    ensures
        final(s)@ == old(s)@ + Seq::new(count as nat, |i: int| '0'),
{
    let ghost before = s@;
    proof {
        reveal_strlit("0");
    }
    let mut i: usize = 0;
    while i < count
        invariant
            i <= count,
            "0"@ == seq!['0'],
            s@ == before + Seq::new(i as nat, |k: int| '0'),
        decreases count - i,
    {
        s.append("0");
        i = i + 1;
        assert(s@ =~= before + Seq::new(i as nat, |k: int| '0'));
    }
}

/// Number of decimal digits of `n`.
fn decimal_width(n: u64) -> (w: u64)
    ensures
        w == decimal(n as nat).len(),
{
    let mut w: u64 = 1;
    let mut rest: u64 = n;
    while rest >= 10
        invariant
            decimal(n as nat).len() == decimal(rest as nat).len() + w - 1,
            1 <= w,
            w + rest <= n + 1,
        decreases rest,
    {
        rest = rest / 10;
        w = w + 1;
    }
    w
}

/// Append `n` in decimal with leading zeros up to `width` digits.
pub fn append_padded(s: &mut String, n: u64, width: u8)
    ensures
        final(s)@ == old(s)@ + zero_padded(decimal(n as nat), width as nat),
{
    let ghost before = s@;
    let w: u64 = decimal_width(n);
    if w < width as u64 {
        append_zeros(s, (width as u64 - w) as usize);
    }
    append_decimal(s, n);
    assert(s@ =~= before + zero_padded(decimal(n as nat), width as nat));
}

/// An integer in decimal with leading zeros up to `width` characters, the sign
/// among them.
pub open spec fn signed_padded(n: int, width: nat) -> Seq<char> {
    if n < 0 {
        seq!['-'] + zero_padded(
            decimal((-n) as nat),
            if width == 0 {
                0
            } else {
                (width - 1) as nat
            },
        )
    } else {
        zero_padded(decimal(n as nat), width)
    }
}

/// Append `n` in decimal with leading zeros up to `width` characters, the sign
/// among them.
pub fn append_signed_padded(s: &mut String, n: i64, width: u8)
    ensures
        final(s)@ == old(s)@ + signed_padded(n as int, width as nat),
{
    if n < 0 {
        let ghost before = s@;
        proof {
            reveal_strlit("-");
        }
        s.append("-");
        let magnitude: u64 = (-(n as i128)) as u64;
        append_padded(
            s,
            magnitude,
            if width == 0 {
                0
            } else {
                width - 1
            },
        );
        assert(s@ =~= before + signed_padded(n as int, width as nat));
    } else {
        append_padded(s, n as u64, width);
    }
}

/// Number of hexadecimal digits of `n`.
fn hex_width(n: u64) -> (w: u64)
    ensures
        w == upper_hex(n as nat).len(),
        w == lower_hex(n as nat).len(),
{
    let mut w: u64 = 1;
    let mut rest: u64 = n;
    while rest >= 16
        invariant
            upper_hex(n as nat).len() == upper_hex(rest as nat).len() + w - 1,
            lower_hex(n as nat).len() == lower_hex(rest as nat).len() + w - 1,
            1 <= w,
            w + rest <= n + 1,
        decreases rest,
    {
        rest = rest / 16;
        w = w + 1;
    }
    w
}

fn append_upper_digits(s: &mut String, n: u64)
    ensures
        final(s)@ == old(s)@ + upper_hex(n as nat),
    decreases n,
{
    if n < 16 {
        s.append(upper_digit_text(n as u8));
    } else {
        let ghost before = s@;
        append_upper_digits(s, n / 16);
        s.append(upper_digit_text((n % 16) as u8));
        assert(s@ =~= before + upper_hex(n as nat));
    }
}

fn append_lower_digits(s: &mut String, n: u64)
    ensures
        final(s)@ == old(s)@ + lower_hex(n as nat),
    decreases n,
{
    if n < 16 {
        s.append(lower_digit_text(n as u8));
    } else {
        let ghost before = s@;
        append_lower_digits(s, n / 16);
        s.append(lower_digit_text((n % 16) as u8));
        assert(s@ =~= before + lower_hex(n as nat));
    }
}

/// Append `n` in hexadecimal with capital letters and leading zeros up to
/// `width` digits.
pub fn append_upper_hex(s: &mut String, n: u64, width: u8)
    ensures
        final(s)@ == old(s)@ + zero_padded(upper_hex(n as nat), width as nat),
{
    let ghost before = s@;
    let w: u64 = hex_width(n);
    if w < width as u64 {
        append_zeros(s, (width as u64 - w) as usize);
    }
    append_upper_digits(s, n);
    assert(s@ =~= before + zero_padded(upper_hex(n as nat), width as nat));
}

/// Append `n` in hexadecimal with small letters and leading zeros up to
/// `width` digits.
pub fn append_lower_hex(s: &mut String, n: u64, width: u8)
    ensures
        final(s)@ == old(s)@ + zero_padded(lower_hex(n as nat), width as nat),
{
    let ghost before = s@;
    let w: u64 = hex_width(n);
    if w < width as u64 {
        append_zeros(s, (width as u64 - w) as usize);
    }
    append_lower_digits(s, n);
    assert(s@ =~= before + zero_padded(lower_hex(n as nat), width as nat));
}

/// `0x` and `n` in hexadecimal with capital letters and leading zeros up to
/// `width` digits.
pub fn prefixed_hex(n: u64, width: u8) -> (s: String)
    ensures
        s@ == seq!['0', 'x'] + zero_padded(upper_hex(n as nat), width as nat),
{
    proof {
        reveal_strlit("0x");
        assert("0x"@ =~= seq!['0', 'x']);
    }
    let mut s = "0x".to_owned();
    append_upper_hex(&mut s, n, width);
    s
}

// ---------------------------------------------------------------------------
// Parsing
// ---------------------------------------------------------------------------

/// The value of a decimal digit character; -1 for any other character.
pub open spec fn digit_value(c: char) -> int {
    if '0' <= c && c <= '9' {
        c as int - '0' as int
    } else {
        -1
    }
}

pub open spec fn all_digits(s: Seq<char>) -> bool {
    forall|i: int| 0 <= i < s.len() ==> digit_value(#[trigger] s[i]) >= 0
}

/// The number that a run of decimal digits denotes.
pub open spec fn decimal_value(s: Seq<char>) -> int
    decreases s.len(),
{
    if s.len() == 0 {
        0
    } else {
        decimal_value(s.drop_last()) * 10 + digit_value(s.last())
    }
}

/// The magnitude that a text of one or more digits denotes, where it does not
/// exceed `max`.
pub open spec fn bounded_value(digits: Seq<char>, max: int) -> Option<int> {
    if digits.len() > 0 && all_digits(digits) && decimal_value(digits) <= max {
        Some(decimal_value(digits))
    } else {
        None
    }
}

/// An unsigned number not above `max`: digits, with an optional plus sign.
pub open spec fn unsigned_value(s: Seq<char>, max: int) -> Option<int> {
    if s.len() > 0 && s[0] == '+' {
        bounded_value(s.skip(1), max)
    } else {
        bounded_value(s, max)
    }
}

/// A 64-bit signed number: digits, with an optional sign.
pub open spec fn signed_value(s: Seq<char>) -> Option<int> {
    if s.len() > 0 && s[0] == '-' {
        match bounded_value(s.skip(1), 0x8000_0000_0000_0000) {
            Some(v) => Some(-v),
            None => None,
        }
    } else {
        unsigned_value(s, 0x7FFF_FFFF_FFFF_FFFF)
    }
}

/// The characters of a text.
pub fn chars_of(s: &str) -> (v: Vec<char>)
    ensures
        v@ == s@,
{
    let mut v: Vec<char> = Vec::new();
    for c in it: s.chars()
        invariant
            v@ == it.seq().take(it.index()),
            it.seq() == s@,
    {
        v.push(c);
        assert(v@ =~= it.seq().take(it.index() + 1));
    }
    assert(v@ =~= s@);
    v
}

proof fn lemma_decimal_value_prefix(s: Seq<char>, k: int)
    requires
        all_digits(s),
        0 <= k <= s.len(),
    ensures
        0 <= decimal_value(s.take(k)) <= decimal_value(s),
    decreases s.len() - k, k,
{
    if k < s.len() {
        lemma_decimal_value_prefix(s, k + 1);
        assert(s.take(k + 1).drop_last() =~= s.take(k));
        assert(digit_value(s[k]) >= 0);
    } else {
        assert(s.take(k) =~= s);
    }
    lemma_decimal_value_nonneg(s.take(k));
}

proof fn lemma_decimal_value_nonneg(s: Seq<char>)
    requires
        all_digits(s),
    ensures
        decimal_value(s) >= 0,
    decreases s.len(),
{
    if s.len() > 0 {
        lemma_decimal_value_nonneg(s.drop_last());
        assert(digit_value(s[s.len() - 1]) >= 0);
    }
}

/// The number denoted by the characters from `from` on, where they are one or
/// more digits and the number does not exceed `max`.
fn parse_digits(s: &Vec<char>, from: usize, max: u64) -> (r: Option<u64>)
    requires
        from <= s@.len(),
    ensures
        match bounded_value(s@.skip(from as int), max as int) {
            Some(v) => r is Some && r->0 == v,
            None => r is None,
        },
{
    let ghost digits = s@.skip(from as int);
    if from == s.len() {
        return None;
    }
    let mut value: u64 = 0;
    let mut i: usize = from;
    while i < s.len()
        invariant
            from <= i <= s@.len(),
            digits == s@.skip(from as int),
            forall|k: int| 0 <= k < i - from ==> digit_value(#[trigger] digits[k]) >= 0,
            value == decimal_value(digits.take(i - from)),
            value <= max,
        decreases s@.len() - i,
    {
        let c: char = s[i];
        if c < '0' || c > '9' {
            assert(digits[i - from] == c);
            return None;
        }
        let d: u64 = c as u64 - '0' as u64;
        let wide: u128 = value as u128 * 10 + d as u128;
        proof {
            assert(digits.take(i + 1 - from).drop_last() =~= digits.take(i - from));
            assert(digits.take(i + 1 - from).last() == c);
        }
        if wide > max as u128 {
            proof {
                if all_digits(digits) {
                    lemma_decimal_value_prefix(digits, i + 1 - from);
                }
            }
            return None;
        }
        value = wide as u64;
        i = i + 1;
    }
    assert(digits.take(i - from) =~= digits);
    Some(value)
}

/// Parse an unsigned number not above `max`: one or more decimal digits with
/// an optional plus sign in front.
pub fn parse_unsigned(s: &str, max: u64) -> (r: Option<u64>)
    ensures
        match unsigned_value(s@, max as int) {
            Some(v) => r is Some && r->0 == v,
            None => r is None,
        },
{
    let chars: Vec<char> = chars_of(s);
    let from: usize = if chars.len() > 0 && chars[0] == '+' {
        1
    } else {
        0
    };
    assert(s@.skip(0) =~= s@);
    parse_digits(&chars, from, max)
}

/// Parse a signed 64-bit number: one or more decimal digits with an optional
/// sign in front.
pub fn parse_signed(s: &str) -> (r: Option<i64>)
    ensures
        match signed_value(s@) {
            Some(v) => r is Some && r->0 == v,
            None => r is None,
        },
{
    let chars: Vec<char> = chars_of(s);
    if chars.len() > 0 && chars[0] == '-' {
        proof {
            if all_digits(s@.skip(1)) {
                lemma_decimal_value_nonneg(s@.skip(1));
            }
        }
        match parse_digits(&chars, 1, 0x8000_0000_0000_0000) {
            Some(v) => {
                let negative: i128 = -(v as i128);
                Some(negative as i64)
            },
            None => None,
        }
    } else {
        match parse_unsigned(s, 0x7FFF_FFFF_FFFF_FFFF) {
            Some(v) => Some(v as i64),
            None => None,
        }
    }
}

/// Whether two texts are the same.
pub fn same_text(a: &str, b: &str) -> (r: bool)
    ensures
        r == (a@ == b@),
{
    a.to_owned() == b.to_owned()
}

/// Whether `value` is there and is the text `text`.
pub fn is_text(value: Option<&str>, text: &str) -> (r: bool)
    ensures
        r == (value is Some && value->0@ == text@),
{
    match value {
        Some(v) => same_text(v, text),
        None => false,
    }
}

proof fn lemma_decimal_is_digits(n: nat)
    ensures
        decimal(n).len() > 0,
        all_digits(decimal(n)),
        decimal_value(decimal(n)) == n,
    decreases n,
{
    if n < 10 {
        let s = decimal(n);
        assert(s.drop_last() =~= Seq::<char>::empty());
        assert(decimal_value(s.drop_last()) == 0);
    } else {
        lemma_decimal_is_digits(n / 10);
        let s = decimal(n);
        assert(s.drop_last() =~= decimal(n / 10));
        assert(s.last() == upper_digit((n % 10) as int));
        assert forall|i: int| 0 <= i < s.len() implies digit_value(#[trigger] s[i]) >= 0 by {
            if i < s.len() - 1 {
                assert(s[i] == decimal(n / 10)[i]);
            }
        }
    }
}

/// Parsing a rendered number gives it back.
pub proof fn parsing_undoes_rendering(n: nat, max: int)
    requires
        n <= max,
    ensures
        unsigned_value(decimal(n), max) == Some(n as int),
{
    lemma_decimal_is_digits(n);
    assert(digit_value(decimal(n)[0]) >= 0);
}

/// Parsing a rendered 64-bit signed number gives it back.
pub proof fn parsing_undoes_signed_rendering(n: i64)
    ensures
        signed_value(signed_decimal(n as int)) == Some(n as int),
{
    if n < 0 {
        let s = signed_decimal(n as int);
        assert(s.skip(1) =~= decimal((-n) as nat));
        lemma_decimal_is_digits((-n) as nat);
    } else {
        lemma_decimal_is_digits(n as nat);
        assert(digit_value(decimal(n as nat)[0]) >= 0);
        parsing_undoes_rendering(n as nat, 0x7FFF_FFFF_FFFF_FFFF);
    }
}

/// How `Debug` shows a text: in quotes, with escapes.
pub uninterp spec fn quoted(s: Seq<char>) -> Seq<char>;

/// `<str as Debug>::fmt`, through `format!`. The result is a function of the
/// text; which characters are escaped, and how, is left unsaid here.
#[verifier::external_body]
pub(crate) fn quoted_text(s: &str) -> (shown: String)
    ensures
        shown@ == quoted(s@),
{
    format!("{:?}", s)
}

/// A number above the largest that is allowed is refused.
pub proof fn too_large_numbers_are_refused(n: nat, max: int)
    requires
        n > max,
    ensures
        unsigned_value(decimal(n), max) is None,
{
    lemma_decimal_is_digits(n);
    assert(digit_value(decimal(n)[0]) >= 0);
}

/// A plus sign in front changes nothing.
pub proof fn plus_signs_are_allowed(n: nat, max: int)
    requires
        n <= max,
    ensures
        unsigned_value(seq!['+'] + decimal(n), max) == Some(n as int),
{
    lemma_decimal_is_digits(n);
    assert((seq!['+'] + decimal(n)).skip(1) =~= decimal(n));
}

proof fn lemma_leading_zero(s: Seq<char>)
    requires
        all_digits(s),
    ensures
        decimal_value(seq!['0'] + s) == decimal_value(s),
        all_digits(seq!['0'] + s),
    decreases s.len(),
{
    let t = seq!['0'] + s;
    assert forall|i: int| 0 <= i < t.len() implies digit_value(#[trigger] t[i]) >= 0 by {
        if i > 0 {
            assert(t[i] == s[i - 1]);
        }
    }
    if s.len() == 0 {
        reveal_with_fuel(decimal_value, 2);
        assert(t.drop_last() =~= s);
    } else {
        assert(all_digits(s.drop_last()));
        lemma_leading_zero(s.drop_last());
        assert(t.drop_last() =~= seq!['0'] + s.drop_last());
        assert(t.last() == s.last());
    }
}

/// Zeros in front change nothing.
pub proof fn leading_zeros_are_allowed(n: nat, max: int)
    requires
        n <= max,
    ensures
        unsigned_value(seq!['0'] + decimal(n), max) == Some(n as int),
{
    lemma_decimal_is_digits(n);
    lemma_leading_zero(decimal(n));
    assert((seq!['0'] + decimal(n))[0] == '0');
}

/// A text with anything but digits in it, after a sign in front, is no number,
/// and neither is a text without a digit.
pub proof fn other_texts_are_no_numbers(s: Seq<char>, max: int, i: int)
    ensures
        0 < i < s.len() && !('0' <= s[i] && s[i] <= '9') ==> unsigned_value(s, max) is None
            && signed_value(s) is None,
        s.len() > 0 && s[0] != '+' && !('0' <= s[0] && s[0] <= '9') ==> unsigned_value(s, max) is None,
        s.len() > 0 && s[0] != '+' && s[0] != '-' && !('0' <= s[0] && s[0] <= '9') ==> signed_value(
            s,
        ) is None,
        s.len() == 0 ==> unsigned_value(s, max) is None && signed_value(s) is None,
        s.len() == 1 && s[0] == '+' ==> unsigned_value(s, max) is None,
{
    if 0 < i < s.len() && !('0' <= s[i] && s[i] <= '9') {
        assert(s.skip(1)[i - 1] == s[i]);
    }
}

/// Whatever reads as a number is in its range.
pub proof fn numbers_are_in_range(s: Seq<char>, max: int)
    ensures
        unsigned_value(s, max) matches Some(v) ==> 0 <= v <= max,
        signed_value(s) matches Some(v) ==> -0x8000_0000_0000_0000 <= v <= 0x7FFF_FFFF_FFFF_FFFF,
{
    if all_digits(s) {
        lemma_decimal_value_nonneg(s);
    }
    if s.len() > 0 && all_digits(s.skip(1)) {
        lemma_decimal_value_nonneg(s.skip(1));
    }
}

/// Different numbers have different texts.
pub proof fn decimals_are_unique(a: nat, b: nat)
    requires
        decimal(a) == decimal(b),
    ensures
        a == b,
{
    lemma_decimal_is_digits(a);
    lemma_decimal_is_digits(b);
}

/// The value of a hexadecimal digit character.
pub open spec fn hex_digit_value(c: char) -> int {
    if '0' <= c && c <= '9' {
        c as int - '0' as int
    } else if 'A' <= c && c <= 'F' {
        c as int - 'A' as int + 10
    } else if 'a' <= c && c <= 'f' {
        c as int - 'a' as int + 10
    } else {
        -1
    }
}

/// The number that hexadecimal digits denote.
pub open spec fn hex_value(s: Seq<char>) -> int
    decreases s.len(),
{
    if s.len() == 0 {
        0
    } else {
        hex_value(s.drop_last()) * 16 + hex_digit_value(s.last())
    }
}

/// A number in hexadecimal, with leading zeros or without, denotes that number.
pub proof fn hexadecimal_denotes_the_number(n: nat, width: nat)
    ensures
        hex_value(upper_hex(n)) == n,
        hex_value(lower_hex(n)) == n,
        hex_value(zero_padded(upper_hex(n), width)) == n,
        hex_value(zero_padded(lower_hex(n), width)) == n,
        zero_padded(upper_hex(n), width).len() >= width,
{
    lemma_upper_hex_value(n);
    lemma_lower_hex_value(n);
    let k = if upper_hex(n).len() < width {
        (width - upper_hex(n).len()) as nat
    } else {
        0
    };
    let j = if lower_hex(n).len() < width {
        (width - lower_hex(n).len()) as nat
    } else {
        0
    };
    lemma_hex_zeros(k, upper_hex(n));
    lemma_hex_zeros(j, lower_hex(n));
    assert(zero_padded(upper_hex(n), width) =~= Seq::new(k, |i: int| '0') + upper_hex(n));
    assert(zero_padded(lower_hex(n), width) =~= Seq::new(j, |i: int| '0') + lower_hex(n));
}

proof fn lemma_upper_hex_value(n: nat)
    ensures
        hex_value(upper_hex(n)) == n,
    decreases n,
{
    let s = upper_hex(n);
    if n < 16 {
        reveal_with_fuel(hex_value, 2);
        assert(s.drop_last() =~= Seq::<char>::empty());
    } else {
        lemma_upper_hex_value(n / 16);
        assert(s.drop_last() =~= upper_hex(n / 16));
    }
}

proof fn lemma_lower_hex_value(n: nat)
    ensures
        hex_value(lower_hex(n)) == n,
    decreases n,
{
    let s = lower_hex(n);
    if n < 16 {
        reveal_with_fuel(hex_value, 2);
        assert(s.drop_last() =~= Seq::<char>::empty());
    } else {
        lemma_lower_hex_value(n / 16);
        assert(s.drop_last() =~= lower_hex(n / 16));
    }
}

proof fn lemma_hex_zeros(k: nat, s: Seq<char>)
    ensures
        hex_value(Seq::new(k, |i: int| '0') + s) == hex_value(s),
    decreases s.len(), k,
{
    let zeros = Seq::new(k, |i: int| '0');
    let t = zeros + s;
    if s.len() > 0 {
        lemma_hex_zeros(k, s.drop_last());
        assert(t.drop_last() =~= zeros + s.drop_last());
        assert(t.last() == s.last());
    } else if k > 0 {
        lemma_hex_zeros((k - 1) as nat, s);
        assert(t.drop_last() =~= Seq::new((k - 1) as nat, |i: int| '0') + s);
        assert(t.last() == '0');
    } else {
        assert(t =~= s);
    }
}

/// Leading zeros fill a text up to its width and change nothing else.
pub proof fn padding_fills_up(s: Seq<char>, width: nat, i: int)
    ensures
        zero_padded(s, width).len() == if s.len() < width {
            width
        } else {
            s.len()
        },
        0 < i <= s.len() ==> zero_padded(s, width)[zero_padded(s, width).len() - i] == s[s.len()
            - i],
        0 <= i < zero_padded(s, width).len() - s.len() ==> zero_padded(s, width)[i] == '0',
{
}

proof fn lemma_zeros_in_front(k: nat, s: Seq<char>)
    requires
        all_digits(s),
    ensures
        decimal_value(Seq::new(k, |i: int| '0') + s) == decimal_value(s),
    decreases s.len(), k,
{
    let zeros = Seq::new(k, |i: int| '0');
    let t = zeros + s;
    if s.len() > 0 {
        assert(all_digits(s.drop_last()));
        lemma_zeros_in_front(k, s.drop_last());
        assert(t.drop_last() =~= zeros + s.drop_last());
        assert(t.last() == s.last());
    } else if k > 0 {
        lemma_zeros_in_front((k - 1) as nat, s);
        assert(t.drop_last() =~= Seq::new((k - 1) as nat, |i: int| '0') + s);
        assert(t.last() == '0');
    } else {
        assert(t =~= s);
    }
}

/// A number with leading zeros denotes that number; below a hundred two digits
/// hold it, below ten thousand four, below a thousand three.
pub proof fn padded_decimals_denote_numbers(n: nat, width: nat)
    ensures
        decimal_value(zero_padded(decimal(n), width)) == n,
        n < 100 ==> zero_padded(decimal(n), 2).len() == 2,
        n < 1000 ==> zero_padded(decimal(n), 3).len() == 3,
        n < 10000 ==> zero_padded(decimal(n), 4).len() == 4,
        n < 10000 ==> signed_padded(n as int, 4) == zero_padded(decimal(n), 4),
{
    lemma_decimal_is_digits(n);
    let k = if decimal(n).len() < width {
        (width - decimal(n).len()) as nat
    } else {
        0
    };
    lemma_zeros_in_front(k, decimal(n));
    assert(zero_padded(decimal(n), width) =~= Seq::new(k, |i: int| '0') + decimal(n));
    reveal_with_fuel(decimal, 5);
}

/// A negative number is shown with its sign in front, which counts toward the
/// width.
pub proof fn signs_count_toward_the_width(n: nat, width: nat)
    requires
        0 < n,
        0 < width,
    ensures
        signed_padded(-(n as int), width)[0] == '-',
        signed_padded(-(n as int), width).len() >= width,
        decimal_value(signed_padded(-(n as int), width).skip(1)) == n,
{
    padded_decimals_denote_numbers(n, (width - 1) as nat);
    assert(signed_padded(-(n as int), width).skip(1) =~= zero_padded(
        decimal(n),
        (width - 1) as nat,
    ));
}

} // verus!
