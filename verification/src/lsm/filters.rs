//! Front-end filters: the decimator by two, the filter taps, and the sample
//! history that lets a filter run over a stream chunk by chunk.

use vstd::prelude::*;
use crate::slices::append_copies;

verus! {

/// Taps are whole multiples of 10^-14.
pub const TAP_SCALE: i64 = 100_000_000_000_000;

/// Sample rate behind the decimator, in hertz.
pub const POST_DECIMATION_RATE_HZ: u32 = 31_250;

/// 83-tap equiripple baseband low-pass at 31.25 kSPS, passband to 7250 Hz,
/// stopband from 8000 Hz.
pub const LPF_TAPS_31250: [i64; 83] = [
    18599540676, -626206495610, -36394699086, 263953697190,
    51450542933, -316118075560, -88228333582, 372030466540,
    135945513680, -431452178520, -196708680060, 493959771230,
    272301761120, -558732232180, -365206026890, 625058185400,
    478399198870, -691866709180, -615567007570, 758509550630,
    781560796220, -823601503600, -982587938910, 886836307040,
    1228905658200, -945544147240, -1534946570300, 1001268884400,
    1924145434000, -1050857643600, -2438809393900, 1094365680800,
    3156935088100, -1131720614700, -4246596653300, 1161242806500,
    6148570306500, -1182663797300, -10478690800000, 1195296691900,
    31786922263000, 48800390754000, 31786922263000, 1195296691900,
    -10478690800000, -1182663797300, 6148570306500, 1161242806500,
    -4246596653300, -1131720614700, 3156935088100, 1094365680800,
    -2438809393900, -1050857643600, 1924145434000, 1001268884400,
    -1534946570300, -945544147240, 1228905658200, 886836307040,
    -982587938910, -823601503600, 781560796220, 758509550630,
    -615567007570, -691866709180, 478399198870, 625058185400,
    -365206026890, -558732232180, 272301761120, 493959771230,
    -196708680060, -431452178520, 135945513680, 372030466540,
    -88228333582, -316118075560, 51450542933, 263953697190,
    -36394699086, -626206495610, 18599540676,
];

/// 105-tap unit-energy root raised cosine matched filter at 31250/4800 samples
/// per symbol, roll-off 0.2, 16 symbols.
pub const RRC_TAPS_31250: [i64; 105] = [
    -102739036080, 49391790526, 192102743310, 278591271490,
    277804257350, 185827759560, 29086196446, -142359605520,
    -269990158270, -306127429940, -231255474500, -63365290407,
    144586630630, 319448462690, 391188543290, 317851756700,
    103958684490, -194608070890, -482544163240, -652083707970,
    -618049083280, -350560713560, 105608254670, 633211573590,
    1068662293300, 1247301977100, 1056343503300, 480067590250,
    -377903319900, -1305561699000, -2028433606000, -2282007597400,
    -1893224380900, -848516263070, 673354929310, 2318392321500,
    3627125918900, 4145612567700, 3553566709200, 1777911558700,
    -939959660170, -4046610370300, -6756903231100, -8201797306500,
    -7615453004800, -4521392285800, 1125727966400, 8878944814200,
    17838372290000, 26789104939000, 34413120151000, 39532911777000,
    41336068511000, 39532911777000, 34413120151000, 26789104939000,
    17838372290000, 8878944814200, 1125727966400, -4521392285800,
    -7615453004800, -8201797306500, -6756903231100, -4046610370300,
    -939959660170, 1777911558700, 3553566709200, 4145612567700,
    3627125918900, 2318392321500, 673354929310, -848516263070,
    -1893224380900, -2282007597400, -2028433606000, -1305561699000,
    -377903319900, 480067590250, 1056343503300, 1247301977100,
    1068662293300, 633211573590, 105608254670, -350560713560,
    -618049083280, -652083707970, -482544163240, -194608070890,
    103958684490, 317851756700, 391188543290, 319448462690,
    144586630630, -63365290407, -231255474500, -306127429940,
    -269990158270, -142359605520, 29086196446, 185827759560,
    277804257350, 278591271490, 192102743310, 49391790526,
    -102739036080,
];

/// Every second item of `s`, beginning with item `start`.
pub open spec fn every_second<T>(s: Seq<T>, start: nat) -> Seq<T> {
    Seq::new(
        if start < s.len() {
            ((s.len() - start + 1) / 2) as nat
        } else {
            0
        },
        |i: int| s[start + 2 * i],
    )
}

fn take_every_second<T: Copy>(input: &[T], start: usize) -> (out: Vec<T>)
    ensures
        out@ == every_second(input@, start as nat),
{
    let n: usize = input.len();
    let count: usize = if start < n {
        (n - start - 1) / 2 + 1
    } else {
        0
    };
    let mut out: Vec<T> = Vec::new();
    let mut k: usize = 0;
    while k < count
        invariant
            n == input@.len(),
            k <= count,
            count > 0 ==> start + 2 * (count - 1) < n,
            out@.len() == k,
            forall|j: int| 0 <= j < k ==> out@[j] == input@[start + 2 * j],
        decreases count - k,
    {
        out.push(input[start + 2 * k]);
        k = k + 1;
    }
    out
}

/// Decimate by two: keep the samples at even positions.
pub fn decimate_by_2<T: Copy>(input: &[T]) -> (out: Vec<T>)
    ensures
        out@ == every_second(input@, 0),
{
    take_every_second(input, 0)
}

/// Streaming decimator by two that keeps its phase from chunk to chunk.
#[derive(Debug, Clone, Copy, PartialEq, Eq, Structural)]
pub struct StreamingDecimator2 {
    /// Whether the next chunk begins at an odd position of the stream.
    skip: bool,
}

impl StreamingDecimator2 {
    /// Samples of the next chunk to pass over before the even grid.
    pub closed spec fn phase(self) -> nat {
        if self.skip {
            1
        } else {
            0
        }
    }

    /// A decimator at the start of a stream.
    pub fn new() -> (d: Self)
        ensures
            d.phase() == 0,
    {
        StreamingDecimator2 { skip: false }
    }

    /// Decimate the next chunk of the stream.
    pub fn process<T: Copy>(&mut self, input: &[T]) -> (out: Vec<T>)
        ensures
            out@ == every_second(input@, old(self).phase()),
            final(self).phase() == (old(self).phase() + input@.len()) % 2,
    {
        let start: usize = if self.skip {
            1
        } else {
            0
        };
        let out = take_every_second(input, start);
        self.skip = self.skip != (input.len() % 2 == 1);
        out
    }
}

impl Default for StreamingDecimator2 {
    fn default() -> (d: Self)
        ensures
            d.phase() == 0,
    {
        StreamingDecimator2::new()
    }
}

/// Chunks do not matter: decimating `a` and then `b`, with the phase that `a`
/// leaves behind, is decimating `a` and `b` joined.
pub proof fn decimating_chunks_is_decimating_the_stream<T>(a: Seq<T>, b: Seq<T>, phase: nat)
    requires
        phase <= 1,
    ensures
        every_second(a, phase) + every_second(b, (phase + a.len()) % 2) == every_second(
            a + b,
            phase,
        ),
{
    let left = every_second(a, phase) + every_second(b, (phase + a.len()) % 2);
    let right = every_second(a + b, phase);
    assert(left.len() == right.len());
    assert forall|i: int| 0 <= i < left.len() implies left[i] == right[i] by {
        let n = every_second(a, phase).len();
        if i >= n {
            assert(left[i] == every_second(b, (phase + a.len()) % 2)[i - n]);
        }
    }
    assert(left =~= right);
}

/// What a decimator gives of a run of chunks, joined: each chunk is decimated
/// with the phase that the chunks before it leave behind.
pub open spec fn decimated<T>(chunks: Seq<Seq<T>>, phase: nat) -> Seq<T>
    decreases chunks.len(),
{
    if chunks.len() == 0 {
        Seq::empty()
    } else {
        every_second(chunks.first(), phase) + decimated(
            chunks.drop_first(),
            (phase + chunks.first().len()) % 2,
        )
    }
}

/// However a stream is cut into chunks, of any lengths, what a decimator gives
/// of them is every second sample of the stream.
pub proof fn decimating_any_chunks_is_decimating_the_stream<T>(chunks: Seq<Seq<T>>, phase: nat)
    requires
        phase <= 1,
    ensures
        decimated(chunks, phase) == every_second(chunks.flatten(), phase),
    decreases chunks.len(),
{
    if chunks.len() == 0 {
        assert(decimated(chunks, phase) =~= every_second(chunks.flatten(), phase));
    } else {
        let first = chunks.first();
        let rest = chunks.drop_first();
        decimating_any_chunks_is_decimating_the_stream(rest, (phase + first.len()) % 2);
        decimating_chunks_is_decimating_the_stream(first, rest.flatten(), phase);
    }
}

/// The last `n` items of `s`.
pub open spec fn last_n<T>(s: Seq<T>, n: nat) -> Seq<T> {
    s.subrange(s.len() - n, s.len() as int)
}

/// Sample history of a filter that runs over a stream chunk by chunk: the last
/// samples before the next chunk, one fewer than there are taps.
pub struct StreamingFir<T> {
    history: Vec<T>,
}

impl<T: Copy> StreamingFir<T> {
    /// The samples before the next chunk, oldest first.
    pub closed spec fn history(self) -> Seq<T> {
        self.history@
    }

    /// A filter with `n_taps` taps at the start of a stream, all history
    /// `zero`.
    pub fn new(n_taps: usize, zero: T) -> (f: Self)
        ensures
            f.history() == Seq::new(
                if n_taps == 0 {
                    0
                } else {
                    (n_taps - 1) as nat
                },
                |i: int| zero,
            ),
    {
        let mut history: Vec<T> = Vec::new();
        let n: usize = if n_taps == 0 {
            0
        } else {
            n_taps - 1
        };
        let mut i: usize = 0;
        while i < n
            invariant
                i <= n,
                history@ == Seq::new(i as nat, |k: int| zero),
            decreases n - i,
        {
            history.push(zero);
            i = i + 1;
        }
        StreamingFir { history }
    }

    /// Take in the next chunk. The result is the history followed by the
    /// chunk: output `i` of the chunk is the sum over the taps `k` of tap `k`
    /// times item `history length + i - k` of it. An empty chunk gives an
    /// empty result and changes nothing.
    pub fn process(&mut self, input: &[T]) -> (extended: Vec<T>)
        ensures
            input@.len() == 0 ==> extended@.len() == 0,
            input@.len() > 0 ==> extended@ == old(self).history() + input@,
            forall|i: int|
                0 <= i < input@.len() ==> #[trigger] windows(old(self).history(), input@)[i]
                    == extended@.subrange(i, i + old(self).history().len() + 1),
            final(self).history() == last_n(
                old(self).history() + input@,
                old(self).history().len(),
            ),
    {
        let mut extended: Vec<T> = Vec::new();
        if input.len() == 0 {
            assert(last_n(self.history@ + input@, self.history@.len()) =~= self.history@);
            return extended;
        }
        append_copies(&mut extended, self.history.as_slice());
        append_copies(&mut extended, input);
        let h: usize = self.history.len();
        let total: usize = extended.len();
        let ghost before = self.history@;
        assert(extended@ =~= before + input@);
        let mut k: usize = 0;
        while k < h
            invariant
                k <= h,
                h == before.len(),
                self.history@.len() == h,
                extended@ == before + input@,
                total == extended@.len(),
                total == h + input@.len(),
                forall|j: int| 0 <= j < k ==> self.history@[j] == extended@[total - h + j],
            decreases h - k,
        {
            let sample: T = extended[total - h + k];
            self.history.set(k, sample);
            k = k + 1;
        }
        assert(self.history@ =~= last_n(before + input@, h as nat));
        extended
    }
}

/// Chunks do not matter: whatever the split, every window of `n + 1` samples
/// that the filter sees over `a` and then `b` is the window that it sees over
/// `a` and `b` joined, and the history left behind is the same.
pub proof fn filtering_chunks_is_filtering_the_stream<T>(history: Seq<T>, a: Seq<T>, b: Seq<T>)
    ensures
        ({
            let n = history.len();
            let between = last_n(history + a, n);
            let whole = history + (a + b);
            &&& last_n(between + b, n) == last_n(whole, n)
            &&& forall|i: int, k: int|
                #![trigger whole[n + i - k]]
                0 <= k <= n && 0 <= i < a.len() ==> (history + a)[n + i - k] == whole[n + i - k]
            &&& forall|i: int, k: int|
                #![trigger (between + b)[n + i - k]]
                0 <= k <= n && 0 <= i < b.len() ==> (between + b)[n + i - k] == whole[n + a.len()
                    + i - k]
        }),
{
    let n = history.len();
    let between = last_n(history + a, n);
    let whole = history + (a + b);
    assert(last_n(between + b, n) =~= last_n(whole, n));
}

/// The windows that a filter sees over a chunk: for each sample of it, the
/// sample and the `history` length of samples before it, oldest first.
pub open spec fn windows<T>(history: Seq<T>, input: Seq<T>) -> Seq<Seq<T>> {
    Seq::new(input.len(), |i: int| (history + input).subrange(i, i + history.len() + 1))
}

/// The history that a run of chunks leaves behind.
pub open spec fn history_after<T>(history: Seq<T>, chunks: Seq<Seq<T>>) -> Seq<T>
    decreases chunks.len(),
{
    if chunks.len() == 0 {
        history
    } else {
        history_after(last_n(history + chunks.first(), history.len()), chunks.drop_first())
    }
}

/// The windows that a filter sees over a run of chunks, joined: over each chunk
/// with the history that the chunks before it leave behind.
pub open spec fn windows_of_run<T>(history: Seq<T>, chunks: Seq<Seq<T>>) -> Seq<Seq<T>>
    decreases chunks.len(),
{
    if chunks.len() == 0 {
        Seq::empty()
    } else {
        windows(history, chunks.first()) + windows_of_run(
            last_n(history + chunks.first(), history.len()),
            chunks.drop_first(),
        )
    }
}

/// However a stream is cut into chunks, of any lengths, the windows that a
/// filter sees over them are the windows of the stream, one for each sample,
/// and the history left behind is the end of the stream.
pub proof fn filtering_any_chunks_is_filtering_the_stream<T>(
    history: Seq<T>,
    chunks: Seq<Seq<T>>,
)
    ensures
        windows_of_run(history, chunks) == windows(history, chunks.flatten()),
        history_after(history, chunks) == last_n(history + chunks.flatten(), history.len()),
    decreases chunks.len(),
{
    if chunks.len() == 0 {
        assert(windows_of_run(history, chunks) =~= windows(history, chunks.flatten()));
        assert(last_n(history + chunks.flatten(), history.len()) =~= history);
    } else {
        let n = history.len();
        let first = chunks.first();
        let rest = chunks.drop_first();
        let between = last_n(history + first, n);
        filtering_any_chunks_is_filtering_the_stream(between, rest);
        filtering_chunks_is_filtering_the_stream(history, first, rest.flatten());
        let whole = first + rest.flatten();
        let left = windows(history, first) + windows(between, rest.flatten());
        let right = windows(history, whole);
        assert forall|i: int| 0 <= i < right.len() implies left[i] == right[i] by {
            if i < first.len() {
                assert(left[i] == windows(history, first)[i]);
            } else {
                assert(left[i] == windows(between, rest.flatten())[i - first.len()]);
            }
            assert(left[i] =~= right[i]);
        }
        assert(left =~= right);
    }
}

/// The window at place `i` of chunk `c` is the window of the stream at the
/// lengths of the chunks before it plus `i`.
pub proof fn window_of_a_chunk_is_a_window_of_the_stream<T>(
    history: Seq<T>,
    chunks: Seq<Seq<T>>,
    c: int,
    i: int,
)
    requires
        0 <= c < chunks.len(),
        0 <= i < chunks[c].len(),
    ensures
        ({
            let before = chunks.take(c);
            let place = before.flatten().len() + i;
            &&& place < chunks.flatten().len()
            &&& windows(history_after(history, before), chunks[c])[i] == windows(
                history,
                chunks.flatten(),
            )[place]
        }),
    decreases c,
{
    let first = chunks.first();
    let rest = chunks.drop_first();
    let n = history.len();
    let between = last_n(history + first, n);
    filtering_any_chunks_is_filtering_the_stream(history, chunks);
    filtering_any_chunks_is_filtering_the_stream(between, rest);
    if c == 0 {
        assert(chunks.take(0).flatten().len() == 0);
        assert(windows_of_run(history, chunks)[i] == windows(history, first)[i]);
    } else {
        window_of_a_chunk_is_a_window_of_the_stream(between, rest, c - 1, i);
        assert(chunks.take(c).first() == first);
        assert(chunks.take(c).drop_first() =~= rest.take(c - 1));
        let place = rest.take(c - 1).flatten().len() + i;
        assert(windows_of_run(history, chunks)[first.len() + place] == windows_of_run(
            between,
            rest,
        )[place]);
    }
}

/// At the start of a stream the samples before the first one are `zero`: item
/// `k` back from the end of window `i` is sample `i - k`, or `zero` where there
/// is none.
pub proof fn stream_begins_after_zeros<T>(n: nat, zero: T, stream: Seq<T>, i: int, k: int)
    requires
        0 <= i < stream.len(),
        0 <= k <= n,
    ensures
        windows(Seq::new(n, |j: int| zero), stream)[i][n - k] == if k <= i {
            stream[i - k]
        } else {
            zero
        },
{
}

/// Every sample at an even place of the stream is kept, in order, and none at an
/// odd place; with one sample to pass over it is the other way round.
pub proof fn even_places_are_kept<T>(s: Seq<T>, phase: nat, j: int)
    requires
        phase <= 1,
        phase <= j < s.len(),
        j % 2 == phase,
    ensures
        0 <= j / 2 < every_second(s, phase).len(),
        every_second(s, phase)[j / 2] == s[j],
        2 * every_second(s, phase).len() <= s.len() + 1,
        every_second(s, phase).len() + every_second(s, (1 - phase) as nat).len() == s.len(),
{
}

/// A history is the end of what was seen, item for item counted from the last.
pub proof fn histories_are_the_end<T>(s: Seq<T>, n: nat, i: int)
    requires
        n <= s.len(),
        0 < i <= n,
    ensures
        last_n(s, n).len() == n,
        last_n(s, n)[n - i] == s[s.len() - i],
{
}

} // verus!
