//! Dibit words as they come from the rings, and counts of them.
//!
//! A ring delivers 64-bit words, low byte first, of 32 dibits each, the first
//! dibit in the lowest bits.

use vstd::prelude::*;

verus! {

/// The word of eight bytes, low byte first.
pub open spec fn word_of_bytes(b: Seq<u8>) -> int {
    b[0] + 0x100 * b[1] + 0x1_0000 * b[2] + 0x100_0000 * b[3] + 0x1_0000_0000 * b[4]
        + 0x100_0000_0000 * b[5] + 0x1_0000_0000_0000 * b[6] + 0x100_0000_0000_0000 * b[7]
}

/// The words of a buffer. Bytes behind the last whole word count for nothing.
pub open spec fn words_of(buffer: Seq<u8>) -> Seq<u64> {
    Seq::new(
        buffer.len() / 8,
        |k: int| word_of_bytes(buffer.subrange(8 * k, 8 * k + 8)) as u64,
    )
}

/// The words of a buffer.
pub fn buffer_words(buffer: &[u8]) -> (words: Vec<u64>)
    ensures
        words@ == words_of(buffer@),
{
    let mut words: Vec<u64> = Vec::new();
    let n: usize = buffer.len() / 8;
    let mut k: usize = 0;
    while k < n
        invariant
            n == buffer@.len() / 8,
            buffer@.len() <= usize::MAX,
            k <= n,
            words@ == words_of(buffer@).take(k as int),
        decreases n - k,
    {
        let at: usize = 8 * k;
        let word: u64 = buffer[at] as u64 + 0x100 * (buffer[at + 1] as u64) + 0x1_0000 * (buffer[at
            + 2] as u64) + 0x100_0000 * (buffer[at + 3] as u64) + 0x1_0000_0000 * (buffer[at
            + 4] as u64) + 0x100_0000_0000 * (buffer[at + 5] as u64) + 0x1_0000_0000_0000 * (
        buffer[at + 6] as u64) + 0x100_0000_0000_0000 * (buffer[at + 7] as u64);
        words.push(word);
        proof {
            let all = words_of(buffer@);
            assert(all[k as int] == word);
            assert(all.take(k + 1) =~= all.take(k as int).push(word));
        }
        k = k + 1;
    }
    assert(words_of(buffer@).take(n as int) =~= words_of(buffer@));
    words
}

/// Dibit `i` of a word.
pub open spec fn dibit_at(word: u64, i: nat) -> u64 {
    (word >> ((2 * i) as u64)) & 3
}

/// How many of the first `k` dibits of a word are `d`.
pub open spec fn dibits_in_word(word: u64, d: u64, k: nat) -> nat
    decreases k,
{
    if k == 0 {
        0
    } else {
        dibits_in_word(word, d, (k - 1) as nat) + (if dibit_at(word, (k - 1) as nat) == d {
            1nat
        } else {
            0
        })
    }
}

/// How many dibits of the words are `d`.
pub open spec fn dibits_in_words(words: Seq<u64>, d: u64) -> nat
    decreases words.len(),
{
    if words.len() == 0 {
        0
    } else {
        dibits_in_words(words.drop_last(), d) + dibits_in_word(words.last(), d, 32)
    }
}

/// How many dibits of the buffers are `d`.
pub open spec fn dibits_in_buffers(buffers: Seq<Vec<u8>>, d: u64) -> nat
    decreases buffers.len(),
{
    if buffers.len() == 0 {
        0
    } else {
        dibits_in_buffers(buffers.drop_last(), d) + dibits_in_words(words_of(buffers.last()@), d)
    }
}

/// Bytes of the buffers.
pub open spec fn bytes_in_buffers(buffers: Seq<Vec<u8>>) -> nat
    decreases buffers.len(),
{
    if buffers.len() == 0 {
        0
    } else {
        bytes_in_buffers(buffers.drop_last()) + buffers.last()@.len()
    }
}

/// Dibits of the buffers: 32 for every whole word.
pub open spec fn dibits_total(buffers: Seq<Vec<u8>>) -> nat
    decreases buffers.len(),
{
    if buffers.len() == 0 {
        0
    } else {
        dibits_total(buffers.drop_last()) + 32 * (buffers.last()@.len() / 8)
    }
}

/// Counts of the four dibits.
#[derive(Debug, Clone, Copy, PartialEq, Eq, Structural)]
pub struct DibitHistogram {
    pub zeros: u64,
    pub ones: u64,
    pub twos: u64,
    pub threes: u64,
}

impl DibitHistogram {
    pub open spec fn count(self, d: u64) -> u64 {
        if d == 0 {
            self.zeros
        } else if d == 1 {
            self.ones
        } else if d == 2 {
            self.twos
        } else {
            self.threes
        }
    }

    pub open spec fn sum(self) -> int {
        self.zeros + self.ones + self.twos + self.threes
    }

    /// No dibit counted.
    pub fn new() -> (h: DibitHistogram)
        ensures
            h == (DibitHistogram { zeros: 0, ones: 0, twos: 0, threes: 0 }),
    {
        DibitHistogram { zeros: 0, ones: 0, twos: 0, threes: 0 }
    }

    /// All dibits counted.
    pub fn total(&self) -> (n: u64)
        requires
            self.sum() <= u64::MAX,
        ensures
            n == self.sum(),
    {
        self.zeros + self.ones + self.twos + self.threes
    }

    fn bump(&mut self, d: u64)
        requires
            d < 4,
            old(self).sum() < u64::MAX,
        ensures
            final(self).sum() == old(self).sum() + 1,
            forall|e: u64|
                e < 4 ==> #[trigger] final(self).count(e) == old(self).count(e) + (if e == d {
                    1int
                } else {
                    0
                }),
    {
        if d == 0 {
            self.zeros = self.zeros + 1;
        } else if d == 1 {
            self.ones = self.ones + 1;
        } else if d == 2 {
            self.twos = self.twos + 1;
        } else {
            self.threes = self.threes + 1;
        }
    }

    fn count_word(&mut self, word: u64)
        requires
            old(self).sum() + 32 <= u64::MAX,
        ensures
            final(self).sum() == old(self).sum() + 32,
            forall|d: u64|
                d < 4 ==> #[trigger] final(self).count(d) == old(self).count(d) + dibits_in_word(
                    word,
                    d,
                    32,
                ),
    {
        let ghost before = *self;
        let mut i: u64 = 0;
        while i < 32
            invariant
                i <= 32,
                before.sum() + 32 <= u64::MAX,
                self.sum() == before.sum() + i,
                forall|d: u64|
                    d < 4 ==> #[trigger] self.count(d) == before.count(d) + dibits_in_word(
                        word,
                        d,
                        i as nat,
                    ),
            decreases 32 - i,
        {
            let d: u64 = (word >> (2 * i)) & 3;
            proof {
                crate::lsm::nid_fec::lemma_masked(word >> (2 * i), 3);
            }
            self.bump(d);
            i = i + 1;
        }
    }

    fn count_words(&mut self, words: &Vec<u64>)
        requires
            old(self).sum() + 32 * words@.len() <= u64::MAX,
        ensures
            final(self).sum() == old(self).sum() + 32 * words@.len(),
            forall|d: u64|
                d < 4 ==> #[trigger] final(self).count(d) == old(self).count(d) + dibits_in_words(
                    words@,
                    d,
                ),
    {
        let ghost before = *self;
        let mut i: usize = 0;
        assert(words@.take(0) =~= Seq::<u64>::empty());
        while i < words.len()
            invariant
                i <= words@.len(),
                before.sum() + 32 * words@.len() <= u64::MAX,
                self.sum() == before.sum() + 32 * i,
                forall|d: u64|
                    d < 4 ==> #[trigger] self.count(d) == before.count(d) + dibits_in_words(
                        words@.take(i as int),
                        d,
                    ),
            decreases words@.len() - i,
        {
            self.count_word(words[i]);
            assert(words@.take(i + 1).drop_last() =~= words@.take(i as int));
            i = i + 1;
        }
        assert(words@.take(i as int) =~= words@);
    }

    /// Add the counts of another histogram.
    pub fn merge(&mut self, other: &DibitHistogram)
        requires
            old(self).sum() + other.sum() <= u64::MAX,
        ensures
            *final(self) == (DibitHistogram {
                zeros: (old(self).zeros + other.zeros) as u64,
                ones: (old(self).ones + other.ones) as u64,
                twos: (old(self).twos + other.twos) as u64,
                threes: (old(self).threes + other.threes) as u64,
            }),
            final(self).sum() == old(self).sum() + other.sum(),
    {
        self.zeros = self.zeros + other.zeros;
        self.ones = self.ones + other.ones;
        self.twos = self.twos + other.twos;
        self.threes = self.threes + other.threes;
    }
}

/// What one wake of a reader brought.
#[derive(Debug, Clone, Copy, PartialEq, Eq, Structural)]
pub struct WakeTally {
    pub buffers: u64,
    pub bytes: u64,
    pub dibits: u64,
    pub histogram: DibitHistogram,
}

/// Whether `t` counts the buffers, their bytes and their dibits.
pub open spec fn tallies(t: WakeTally, buffers: Seq<Vec<u8>>) -> bool {
    &&& t.buffers == buffers.len()
    &&& t.bytes == bytes_in_buffers(buffers)
    &&& t.dibits == dibits_total(buffers)
    &&& t.histogram.sum() == t.dibits
    &&& forall|d: u64|
        d < 4 ==> #[trigger] t.histogram.count(d) == dibits_in_buffers(buffers, d)
}

/// Count the buffers that one wake of a reader brought.
pub fn tally_buffers(buffers: &Vec<Vec<u8>>) -> (t: WakeTally)
    requires
        4 * bytes_in_buffers(buffers@) <= u64::MAX,
    ensures
        tallies(t, buffers@),
{
    let mut bytes: u64 = 0;
    let mut histogram: DibitHistogram = DibitHistogram::new();
    let mut i: usize = 0;
    assert(buffers@.take(0) =~= Seq::<Vec<u8>>::empty());
    while i < buffers.len()
        invariant
            i <= buffers@.len(),
            4 * bytes_in_buffers(buffers@) <= u64::MAX,
            bytes == bytes_in_buffers(buffers@.take(i as int)),
            histogram.sum() == dibits_total(buffers@.take(i as int)),
            histogram.sum() <= 4 * bytes,
            forall|d: u64|
                d < 4 ==> #[trigger] histogram.count(d) == dibits_in_buffers(
                    buffers@.take(i as int),
                    d,
                ),
        decreases buffers@.len() - i,
    {
        proof {
            lemma_bytes_prefix(buffers@, i + 1);
            assert(buffers@.take(i + 1).drop_last() =~= buffers@.take(i as int));
            assert(buffers@.take(i + 1).last() == buffers@[i as int]);
        }
        let words: Vec<u64> = buffer_words(buffers[i].as_slice());
        bytes = bytes + buffers[i].len() as u64;
        histogram.count_words(&words);
        i = i + 1;
    }
    assert(buffers@.take(i as int) =~= buffers@);
    WakeTally { buffers: buffers.len() as u64, bytes, dibits: histogram.total(), histogram }
}

proof fn lemma_bytes_prefix(buffers: Seq<Vec<u8>>, k: int)
    requires
        0 <= k <= buffers.len(),
    ensures
        bytes_in_buffers(buffers.take(k)) <= bytes_in_buffers(buffers),
    decreases buffers.len() - k,
{
    if k < buffers.len() {
        lemma_bytes_prefix(buffers, k + 1);
        assert(buffers.take(k + 1).drop_last() =~= buffers.take(k));
    } else {
        assert(buffers.take(k) =~= buffers);
    }
}

proof fn lemma_word_counts_add_up(word: u64, k: nat)
    ensures
        dibits_in_word(word, 0, k) + dibits_in_word(word, 1, k) + dibits_in_word(word, 2, k)
            + dibits_in_word(word, 3, k) == k,
    decreases k,
{
    if k > 0 {
        lemma_word_counts_add_up(word, (k - 1) as nat);
        crate::lsm::nid_fec::lemma_masked(word >> ((2 * (k - 1)) as u64), 3);
    }
}

/// Every dibit is counted once: the four counts of the words add up to 32 per
/// word.
pub proof fn dibit_counts_add_up(words: Seq<u64>)
    ensures
        dibits_in_words(words, 0) + dibits_in_words(words, 1) + dibits_in_words(words, 2)
            + dibits_in_words(words, 3) == 32 * words.len(),
    decreases words.len(),
{
    if words.len() > 0 {
        dibit_counts_add_up(words.drop_last());
        lemma_word_counts_add_up(words.last(), 32);
    }
}

/// Running totals of a dibit reader.
#[derive(Debug, Clone, Copy, PartialEq, Eq, Structural)]
pub struct ReaderTotals {
    pub wakeups: u64,
    pub buffers: u64,
    pub bytes: u64,
    pub histogram: DibitHistogram,
}

/// Whether wake number `n` of a reader is logged: the first five, then every
/// `period`th.
pub open spec fn logs_wake(n: u64, period: u64) -> bool {
    n <= 5 || n % period == 0
}

impl ReaderTotals {
    /// No wake yet.
    pub fn new() -> (t: ReaderTotals)
        ensures
            t.wakeups == 0,
            t.buffers == 0,
            t.bytes == 0,
            t.histogram == (DibitHistogram { zeros: 0, ones: 0, twos: 0, threes: 0 }),
    {
        ReaderTotals { wakeups: 0, buffers: 0, bytes: 0, histogram: DibitHistogram::new() }
    }

    /// Add one wake. The result says whether it is logged: the first five
    /// wakes, then every sixteenth.
    pub fn record(&mut self, tally: &WakeTally) -> (log: bool)
        requires
            old(self).wakeups < u64::MAX,
            old(self).buffers + tally.buffers <= u64::MAX,
            old(self).bytes + tally.bytes <= u64::MAX,
            old(self).histogram.sum() + tally.histogram.sum() <= u64::MAX,
        ensures
            final(self).wakeups == old(self).wakeups + 1,
            final(self).buffers == old(self).buffers + tally.buffers,
            final(self).bytes == old(self).bytes + tally.bytes,
            final(self).histogram.sum() == old(self).histogram.sum() + tally.histogram.sum(),
            forall|d: u64|
                d < 4 ==> #[trigger] final(self).histogram.count(d) == old(self).histogram.count(d)
                    + tally.histogram.count(d),
            log == logs_wake(final(self).wakeups, 16),
    {
        self.wakeups = self.wakeups + 1;
        self.buffers = self.buffers + tally.buffers;
        self.bytes = self.bytes + tally.bytes;
        self.histogram.merge(&tally.histogram);
        self.wakeups <= 5 || self.wakeups % 16 == 0
    }
}

/// The first dibit of a word is in its lowest bits, and each next one two bits
/// higher.
pub proof fn dibits_begin_at_the_lowest_bits(word: u64, i: nat)
    ensures
        dibit_at(word, 0) == word % 4,
        i < 31 ==> dibit_at(word, i + 1) == dibit_at(word / 4, i),
        dibit_at(word, i) < 4,
{
    assert((word >> 0u64) & 3 == word % 4) by (bit_vector);
    if i < 31 {
        let k = (2 * i) as u64;
        assert((word >> ((k + 2) as u64)) & 3 == ((word / 4) >> k) & 3) by (bit_vector)
            requires
                k <= 62,
        ;
        assert((2 * (i + 1)) as u64 == (k + 2) as u64);
    }
    crate::lsm::nid_fec::lemma_masked(word >> ((2 * i) as u64), 3);
}

/// The first byte of a word is its lowest, and a word holds all its bytes.
pub proof fn bytes_begin_at_the_lowest(buffer: Seq<u8>, k: int)
    requires
        0 <= k,
        8 * k + 8 <= buffer.len(),
    ensures
        words_of(buffer).len() == buffer.len() / 8,
        ({
            let w = words_of(buffer)[k] as int;
            &&& w % 0x100 == buffer[8 * k]
            &&& w / 0x100 % 0x100 == buffer[8 * k + 1]
            &&& w / 0x1_0000 % 0x100 == buffer[8 * k + 2]
            &&& w / 0x100_0000 % 0x100 == buffer[8 * k + 3]
            &&& w / 0x1_0000_0000 % 0x100 == buffer[8 * k + 4]
            &&& w / 0x100_0000_0000 % 0x100 == buffer[8 * k + 5]
            &&& w / 0x1_0000_0000_0000 % 0x100 == buffer[8 * k + 6]
            &&& w / 0x100_0000_0000_0000 == buffer[8 * k + 7]
        }),
{
    let b = buffer.subrange(8 * k, 8 * k + 8);
    let w = word_of_bytes(b);
    assert(0 <= w <= u64::MAX);
    assert(words_of(buffer)[k] == w);
    let r7 = b[7] as int;
    let r6 = b[6] + 0x100 * r7;
    let r5 = b[5] + 0x100 * r6;
    let r4 = b[4] + 0x100 * r5;
    let r3 = b[3] + 0x100 * r4;
    let r2 = b[2] + 0x100 * r3;
    let r1 = b[1] + 0x100 * r2;
    lemma_split(w, b[0] as int, r1, 0x100);
    lemma_split(w, b[0] + 0x100 * b[1], r2, 0x1_0000);
    lemma_split(w, b[0] + 0x100 * b[1] + 0x1_0000 * b[2], r3, 0x100_0000);
    lemma_split(
        w,
        b[0] + 0x100 * b[1] + 0x1_0000 * b[2] + 0x100_0000 * b[3],
        r4,
        0x1_0000_0000,
    );
    lemma_split(
        w,
        b[0] + 0x100 * b[1] + 0x1_0000 * b[2] + 0x100_0000 * b[3] + 0x1_0000_0000 * b[4],
        r5,
        0x100_0000_0000,
    );
    lemma_split(
        w,
        b[0] + 0x100 * b[1] + 0x1_0000 * b[2] + 0x100_0000 * b[3] + 0x1_0000_0000 * b[4]
            + 0x100_0000_0000 * b[5],
        r6,
        0x1_0000_0000_0000,
    );
    lemma_split(
        w,
        b[0] + 0x100 * b[1] + 0x1_0000 * b[2] + 0x100_0000 * b[3] + 0x1_0000_0000 * b[4]
            + 0x100_0000_0000 * b[5] + 0x1_0000_0000_0000 * b[6],
        r7,
        0x100_0000_0000_0000,
    );
    lemma_split(r1, b[1] as int, r2, 0x100);
    lemma_split(r2, b[2] as int, r3, 0x100);
    lemma_split(r3, b[3] as int, r4, 0x100);
    lemma_split(r4, b[4] as int, r5, 0x100);
    lemma_split(r5, b[5] as int, r6, 0x100);
    lemma_split(r6, b[6] as int, r7, 0x100);
}

proof fn lemma_split(n: int, low: int, high: int, size: int)
    requires
        n == low + size * high,
        0 <= low < size,
    ensures
        n / size == high,
        n % size == low,
{
    assert(high * size == size * high) by (nonlinear_arith);
    vstd::arithmetic::div_mod::lemma_fundamental_div_mod_converse(n, size, high, low);
}

/// Counts of parts add up to those of the whole.
pub proof fn word_counts_join(a: Seq<u64>, b: Seq<u64>, d: u64)
    ensures
        dibits_in_words(a + b, d) == dibits_in_words(a, d) + dibits_in_words(b, d),
    decreases b.len(),
{
    if b.len() == 0 {
        assert(a + b =~= a);
    } else {
        word_counts_join(a, b.drop_last(), d);
        assert((a + b).drop_last() =~= a + b.drop_last());
        assert((a + b).last() == b.last());
    }
}

/// A dibit counts for its own value: the count of a word's first dibits grows by
/// one at every dibit of that value and at no other.
pub proof fn every_dibit_counts_for_its_value(word: u64, d: u64, k: nat)
    ensures
        dibits_in_word(word, d, 0) == 0,
        dibit_at(word, k) == d ==> dibits_in_word(word, d, k + 1) == dibits_in_word(word, d, k) + 1,
        dibit_at(word, k) != d ==> dibits_in_word(word, d, k + 1) == dibits_in_word(word, d, k),
        dibits_in_word(word, d, k) <= k,
    decreases k,
{
    if k > 0 {
        every_dibit_counts_for_its_value(word, d, (k - 1) as nat);
    }
}

/// What wakes bring adds up: buffers taken together count as they do apart.
pub proof fn buffer_counts_join(a: Seq<Vec<u8>>, b: Seq<Vec<u8>>, d: u64)
    ensures
        dibits_in_buffers(a + b, d) == dibits_in_buffers(a, d) + dibits_in_buffers(b, d),
        bytes_in_buffers(a + b) == bytes_in_buffers(a) + bytes_in_buffers(b),
        dibits_total(a + b) == dibits_total(a) + dibits_total(b),
        b.len() == 1 ==> dibits_in_buffers(b, d) == dibits_in_words(words_of(b[0]@), d)
            && bytes_in_buffers(b) == b[0]@.len() && dibits_total(b) == 32 * (b[0]@.len() / 8),
    decreases b.len(),
{
    reveal_with_fuel(dibits_in_buffers, 2);
    reveal_with_fuel(bytes_in_buffers, 2);
    reveal_with_fuel(dibits_total, 2);
    if b.len() == 0 {
        assert(a + b =~= a);
    } else {
        buffer_counts_join(a, b.drop_last(), d);
        assert((a + b).drop_last() =~= a + b.drop_last());
        assert((a + b).last() == b.last());
        if b.len() == 1 {
            assert(b.drop_last() =~= Seq::<Vec<u8>>::empty());
        }
    }
}

/// Every dibit of every buffer is counted once.
pub proof fn buffer_dibits_add_up(buffers: Seq<Vec<u8>>)
    ensures
        dibits_in_buffers(buffers, 0) + dibits_in_buffers(buffers, 1) + dibits_in_buffers(
            buffers,
            2,
        ) + dibits_in_buffers(buffers, 3) == dibits_total(buffers),
        dibits_total(buffers) <= 4 * bytes_in_buffers(buffers),
    decreases buffers.len(),
{
    if buffers.len() > 0 {
        buffer_dibits_add_up(buffers.drop_last());
        dibit_counts_add_up(words_of(buffers.last()@));
    }
}

/// A tally says how many buffers, bytes and dibits there were, each dibit by its
/// value.
pub proof fn tallies_count_everything(t: WakeTally, buffers: Seq<Vec<u8>>)
    requires
        tallies(t, buffers),
    ensures
        t.buffers == buffers.len(),
        t.bytes == bytes_in_buffers(buffers),
        t.dibits == dibits_total(buffers),
        t.histogram.zeros == dibits_in_buffers(buffers, 0),
        t.histogram.ones == dibits_in_buffers(buffers, 1),
        t.histogram.twos == dibits_in_buffers(buffers, 2),
        t.histogram.threes == dibits_in_buffers(buffers, 3),
        t.histogram.zeros + t.histogram.ones + t.histogram.twos + t.histogram.threes == t.dibits,
{
    assert(t.histogram.count(0) == dibits_in_buffers(buffers, 0));
    assert(t.histogram.count(1) == dibits_in_buffers(buffers, 1));
    assert(t.histogram.count(2) == dibits_in_buffers(buffers, 2));
    assert(t.histogram.count(3) == dibits_in_buffers(buffers, 3));
}

/// The first five wakes are logged, and of the later ones the multiples of the
/// period and no others.
pub proof fn wakes_are_logged_by_period(n: u64, k: u64, period: u64)
    requires
        0 < period,
    ensures
        n <= 5 ==> logs_wake(n, period),
        n == k * period ==> logs_wake(n, period),
        n > 5 && k * period < n < (k + 1) * period ==> !logs_wake(n, period),
{
    let p = period as int;
    if n == k * period {
        vstd::arithmetic::div_mod::lemma_mod_multiples_basic(k as int, p);
    }
    if n > 5 && k * period < n < (k + 1) * period {
        assert((k + 1) * p == k * p + p) by (nonlinear_arith);
        vstd::arithmetic::div_mod::lemma_fundamental_div_mod_converse(
            n as int,
            p,
            k as int,
            n - k * p,
        );
    }
}

} // verus!
