//! Bytes as base64 text, padded.

use vstd::prelude::*;

verus! {

/// The 64 symbols, in order of value.
pub open spec fn alphabet() -> Seq<char> {
    "ABCDEFGHIJKLMNOPQRSTUVWXYZabcdefghijklmnopqrstuvwxyz0123456789+/"@
}

/// A byte, zero past the end.
pub open spec fn byte_at(bytes: Seq<u8>, i: int) -> int {
    if 0 <= i < bytes.len() {
        bytes[i] as int
    } else {
        0
    }
}

/// Six bits of the stream, the highest of each byte first: three bytes make
/// four groups of six.
pub open spec fn sextet(bytes: Seq<u8>, i: int) -> int {
    let k = 3 * (i / 4);
    if i % 4 == 0 {
        byte_at(bytes, k) / 4
    } else if i % 4 == 1 {
        byte_at(bytes, k) % 4 * 16 + byte_at(bytes, k + 1) / 16
    } else if i % 4 == 2 {
        byte_at(bytes, k + 1) % 16 * 4 + byte_at(bytes, k + 2) / 64
    } else {
        byte_at(bytes, k + 2) % 64
    }
}

/// Whether six bits lie past the end of the bytes.
pub open spec fn is_padding(n_bytes: int, i: int) -> bool {
    6 * i >= 8 * n_bytes
}

/// Bytes in base64: a symbol for six bits, and padding up to a multiple of four.
pub open spec fn base64(bytes: Seq<u8>) -> Seq<char> {
    Seq::new(
        ((bytes.len() + 2) / 3 * 4) as nat,
        |i: int|
            if is_padding(bytes.len() as int, i) {
                '='
            } else {
                alphabet()[sextet(bytes, i)]
            },
    )
}

fn append_symbol(s: &mut String, v: u8)
    requires
        v < 64,
    ensures
        final(s)@ == old(s)@.push(alphabet()[v as int]),
{
    let symbols: &'static str = "ABCDEFGHIJKLMNOPQRSTUVWXYZabcdefghijklmnopqrstuvwxyz0123456789+/";
    proof {
        reveal_strlit("ABCDEFGHIJKLMNOPQRSTUVWXYZabcdefghijklmnopqrstuvwxyz0123456789+/");
    }
    s.append(symbols.substring_char(v as usize, v as usize + 1));
    assert(s@ =~= old(s)@.push(alphabet()[v as int]));
}

fn append_padding(s: &mut String)
    ensures
        final(s)@ == old(s)@.push('='),
{
    proof {
        reveal_strlit("=");
    }
    s.append("=");
    assert(s@ =~= old(s)@.push('='));
}

/// Bytes as base64 text, padded.
pub fn base64_text(bytes: &[u8]) -> (s: String)
    ensures
        s@ == base64(bytes@),
{
    let n: usize = bytes.len();
    let ghost all = base64(bytes@);
    let mut s = String::new();
    let mut k: usize = 0;
    let ghost mut groups: int = 0;
    while k < n
        invariant
            n == bytes@.len(),
            all == base64(bytes@),
            0 <= groups,
            k == if 3 * groups < n {
                3 * groups
            } else {
                n as int
            },
            3 * groups < n + 3,
            s@.len() == 4 * groups,
            forall|i: int| 0 <= i < 4 * groups ==> s@[i] == all[i],
        decreases n - k,
    {
        let rest: usize = n - k;
        let a: u8 = bytes[k];
        let b: u8 = if rest > 1 {
            bytes[k + 1]
        } else {
            0
        };
        let c: u8 = if rest > 2 {
            bytes[k + 2]
        } else {
            0
        };
        let ghost i = 4 * groups;
        append_symbol(&mut s, a / 4);
        append_symbol(&mut s, a % 4 * 16 + b / 16);
        if rest > 1 {
            append_symbol(&mut s, b % 16 * 4 + c / 64);
        } else {
            append_padding(&mut s);
        }
        if rest > 2 {
            append_symbol(&mut s, c % 64);
        } else {
            append_padding(&mut s);
        }
        assert(s@[i] == all[i] && s@[i + 1] == all[i + 1] && s@[i + 2] == all[i + 2] && s@[i + 3]
            == all[i + 3]);
        k = if rest > 3 {
            k + 3
        } else {
            n
        };
        proof {
            groups = groups + 1;
        }
    }
    assert(s@ =~= all);
    s
}

/// The value of a symbol.
pub open spec fn symbol_value(c: char) -> int {
    let code = c as int;
    if 'A' as int <= code <= 'Z' as int {
        code - 'A' as int
    } else if 'a' as int <= code <= 'z' as int {
        code - 'a' as int + 26
    } else if '0' as int <= code <= '9' as int {
        code - '0' as int + 52
    } else if c == '+' {
        62
    } else {
        63
    }
}

proof fn lemma_symbols_differ(v: int)
    requires
        0 <= v < 64,
    ensures
        symbol_value(alphabet()[v]) == v,
        alphabet()[v] != '=',
{
    reveal_strlit("ABCDEFGHIJKLMNOPQRSTUVWXYZabcdefghijklmnopqrstuvwxyz0123456789+/");
}

proof fn lemma_same_sextets(a: Seq<u8>, b: Seq<u8>, i: int)
    requires
        base64(a) == base64(b),
        0 <= i < base64(a).len(),
        a.len() == b.len(),
    ensures
        !is_padding(a.len() as int, i) ==> sextet(a, i) == sextet(b, i),
{
    if !is_padding(a.len() as int, i) {
        assert(0 <= sextet(a, i) < 64 && 0 <= sextet(b, i) < 64);
        lemma_symbols_differ(sextet(a, i));
        lemma_symbols_differ(sextet(b, i));
        assert(base64(a)[i] == alphabet()[sextet(a, i)]);
        assert(base64(b)[i] == alphabet()[sextet(b, i)]);
    }
}

/// No byte is lost: different bytes have different base64 texts.
pub proof fn base64_is_unique(a: Seq<u8>, b: Seq<u8>)
    requires
        base64(a) == base64(b),
    ensures
        a == b,
{
    lemma_same_length(a, b);
    assert forall|k: int| 0 <= k < a.len() implies a[k] == b[k] by {
        let i = k / 3 * 4 + k % 3;
        lemma_same_sextets(a, b, i);
        lemma_same_sextets(a, b, i + 1);
        assert(a[k] == byte_at(a, k) && b[k] == byte_at(b, k));
        assert(i / 4 == k / 3 && i % 4 == k % 3);
        assert((i + 1) / 4 == k / 3 && (i + 1) % 4 == k % 3 + 1);
    }
    assert(a =~= b);
}

proof fn lemma_same_length(a: Seq<u8>, b: Seq<u8>)
    requires
        base64(a) == base64(b),
    ensures
        a.len() == b.len(),
{
    assert(base64(a).len() == base64(b).len());
    if a.len() < b.len() {
        lemma_fewer_padding(a, b);
    } else if b.len() < a.len() {
        lemma_fewer_padding(b, a);
    }
}

proof fn lemma_fewer_padding(a: Seq<u8>, b: Seq<u8>)
    requires
        a.len() < b.len(),
        base64(a).len() == base64(b).len(),
    ensures
        base64(a) != base64(b),
{
    // The symbol that the next byte adds is padding in the shorter text.
    let n = a.len() as int;
    let i = n / 3 * 4 + n % 3 + 1;
    assert(is_padding(n, i));
    assert(!is_padding(b.len() as int, i));
    assert(0 <= sextet(b, i) < 64);
    lemma_symbols_differ(sextet(b, i));
    assert(base64(a)[i] == '=');
    assert(base64(b)[i] != '=');
}

/// Bytes can be read back from their text: six bits a symbol, the highest
/// first.
pub proof fn base64_reads_back(bytes: Seq<u8>, k: int)
    requires
        0 <= k < bytes.len(),
    ensures
        ({
            let i = k / 3 * 4 + k % 3;
            let t = base64(bytes);
            let first = symbol_value(t[i]);
            let second = symbol_value(t[i + 1]);
            &&& 0 <= i && i + 1 < t.len()
            &&& bytes[k] == if k % 3 == 0 {
                first * 4 + second / 16
            } else if k % 3 == 1 {
                first % 16 * 16 + second / 4
            } else {
                first % 4 * 64 + second
            }
        }),
{
    let i = k / 3 * 4 + k % 3;
    assert(i / 4 == k / 3 && i % 4 == k % 3);
    assert((i + 1) / 4 == k / 3 && (i + 1) % 4 == k % 3 + 1);
    assert(0 <= sextet(bytes, i) < 64 && 0 <= sextet(bytes, i + 1) < 64);
    lemma_symbols_differ(sextet(bytes, i));
    lemma_symbols_differ(sextet(bytes, i + 1));
    assert(!is_padding(bytes.len() as int, i) && !is_padding(bytes.len() as int, i + 1));
    assert(base64(bytes)[i] == alphabet()[sextet(bytes, i)]);
    assert(base64(bytes)[i + 1] == alphabet()[sextet(bytes, i + 1)]);
    assert(bytes[k] == byte_at(bytes, k));
}

/// The text has four characters for every three bytes that were begun: letters,
/// digits, `+` and `/`, and as much padding at the end as bytes are missing.
pub proof fn base64_is_padded_to_fours(bytes: Seq<u8>, i: int)
    requires
        0 <= i < base64(bytes).len(),
    ensures
        base64(bytes).len() % 4 == 0,
        3 * base64(bytes).len() == 4 * (bytes.len() + (3 - bytes.len() % 3) % 3),
        base64(bytes)[i] == '=' <==> i >= base64(bytes).len() - (3 - bytes.len() % 3) % 3,
        ({
            let c = base64(bytes)[i];
            c == '=' || c == '+' || c == '/' || ('A' <= c && c <= 'Z') || ('a' <= c && c <= 'z') || (
            '0' <= c && c <= '9')
        }),
{
    reveal_strlit("ABCDEFGHIJKLMNOPQRSTUVWXYZabcdefghijklmnopqrstuvwxyz0123456789+/");
    if !is_padding(bytes.len() as int, i) {
        assert(0 <= sextet(bytes, i) < 64);
        lemma_symbols_differ(sextet(bytes, i));
    }
}

} // verus!
