//! Bounded log of structured events.
//!
//! A reader tails the log by the number of the last entry it has seen.

use vstd::prelude::*;
use crate::text::{parse_unsigned, same_text};
use serde_json::Value;
use std::collections::VecDeque;

verus! {

/// What an event is about.
#[derive(Debug, Clone, Copy, PartialEq, Eq, Structural)]
pub enum LogCategory {
    /// A grant as the control channel announced it.
    Grant,
    /// What the follower made of grants, and its retunes.
    Traffic,
    /// Data units on the traffic channel.
    Imbe,
    /// Calls as the vocoder saw them.
    Vocoder,
    /// Anything else.
    System,
}

/// The name of a category.
pub open spec fn category_name(category: LogCategory) -> Seq<char> {
    match category {
        LogCategory::Grant => "grant"@,
        LogCategory::Traffic => "traffic"@,
        LogCategory::Imbe => "imbe"@,
        LogCategory::Vocoder => "vocoder"@,
        LogCategory::System => "system"@,
    }
}

impl LogCategory {
    /// The name of the category.
    pub fn as_str(&self) -> (name: &'static str)
        ensures
            name@ == category_name(*self),
    {
        match self {
            LogCategory::Grant => "grant",
            LogCategory::Traffic => "traffic",
            LogCategory::Imbe => "imbe",
            LogCategory::Vocoder => "vocoder",
            LogCategory::System => "system",
        }
    }
}

/// One entry of the log.
#[derive(Debug, Clone)]
pub struct LogEntry {
    /// Number of the entry, counted from one.
    pub seq: u64,
    /// Milliseconds since the epoch.
    pub timestamp_ms: u64,
    /// Name of the category.
    pub category: &'static str,
    /// One line for a human reader.
    pub message: String,
    /// Whatever else there is to say.
    pub fields: Value,
}

/// The log: the last entries, up to a capacity.
pub struct EventLog {
    entries: VecDeque<LogEntry>,
    capacity: usize,
    next_seq: u64,
}

/// The entries numbered above `since`, at most `limit`, oldest first.
pub open spec fn tail(entries: Seq<LogEntry>, since: u64, limit: nat) -> Seq<LogEntry> {
    let newer = entries.filter(|e: LogEntry| e.seq > since);
    if newer.len() <= limit {
        newer
    } else {
        newer.take(limit as int)
    }
}

/// The entries of a category.
pub open spec fn in_category(entries: Seq<LogEntry>, category: Seq<char>) -> Seq<LogEntry> {
    entries.filter(|e: LogEntry| e.category@ == category)
}

impl EventLog {
    /// The entries held, oldest first.
    pub closed spec fn view(&self) -> Seq<LogEntry> {
        self.entries@
    }

    /// How many entries are held at most; one where the capacity is zero.
    pub closed spec fn room(&self) -> nat {
        if self.capacity == 0 {
            1
        } else {
            self.capacity as nat
        }
    }

    /// The number of the next entry. After the largest number comes zero.
    pub closed spec fn next(&self) -> u64 {
        self.next_seq
    }

    /// One more than the number of the last entry.
    pub open spec fn end(&self) -> int {
        if self.next() == 0 {
            0x1_0000_0000_0000_0000
        } else {
            self.next() as int
        }
    }

    /// The entries held are the last ones, numbered one behind the other.
    pub open spec fn wf(&self) -> bool {
        &&& self@.len() <= self.room()
        &&& forall|i: int|
            0 <= i < self@.len() ==> (#[trigger] self@[i]).seq == (self.end() - self@.len() + i)
                % 0x1_0000_0000_0000_0000
    }

    /// The numbers of the entries held have not gone round: all are above zero.
    /// That is so until 2^64 entries were pushed.
    pub open spec fn counts_up(&self) -> bool {
        self@.len() < self.end()
    }

    /// Whether `history` is every entry ever pushed, numbered from one, and the
    /// log holds the last of them.
    pub open spec fn records(&self, history: Seq<LogEntry>) -> bool {
        &&& history.len() < 0x1_0000_0000_0000_0000
        &&& self.end() == history.len() + 1
        &&& self@ == crate::slices::keep_last(history, self.room())
        &&& forall|i: int| 0 <= i < history.len() ==> (#[trigger] history[i]).seq == i + 1
    }

    /// An empty log.
    pub fn new(capacity: usize) -> (log: EventLog)
        ensures
            log.wf(),
            log.counts_up(),
            log.records(Seq::empty()),
            log@ == Seq::<LogEntry>::empty(),
            log.next() == 1,
            log.room() == if capacity == 0 {
                1
            } else {
                capacity as nat
            },
    {
        EventLog { entries: VecDeque::new(), capacity, next_seq: 1 }
    }

    /// Add an entry. The oldest one leaves when the log is full.
    pub fn push(
        &mut self,
        category: LogCategory,
        message: String,
        fields: Value,
        timestamp_ms: u64,
    )
        requires
            old(self).wf(),
        ensures
            final(self).wf(),
            final(self).next() == if old(self).next() == u64::MAX {
                0
            } else {
                (old(self).next() + 1) as u64
            },
            old(self).counts_up() && old(self).next() != 0 ==> final(self).counts_up(),
            forall|history: Seq<LogEntry>| #[trigger]
                old(self).records(history) && old(self).next() != 0 ==> final(self).records(
                    history.push(final(self)@.last()),
                ),
            final(self).room() == old(self).room(),
            final(self)@.len() > 0,
            final(self)@.last().seq == old(self).next(),
            final(self)@.last().timestamp_ms == timestamp_ms,
            final(self)@.last().category@ == category_name(category),
            final(self)@.last().message == message,
            final(self)@.last().fields == fields,
            final(self)@.drop_last() == if old(self)@.len() < old(self).room() {
                old(self)@
            } else {
                old(self)@.skip(1)
            },
    {
        let ghost before = self.entries@;
        let seq: u64 = self.next_seq;
        self.next_seq = seq.wrapping_add(1);
        let entry = LogEntry {
            seq,
            timestamp_ms,
            category: category.as_str(),
            message,
            fields,
        };
        if self.entries.len() >= self.capacity {
            let _ = self.entries.pop_front();
        }
        self.entries.push_back(entry);
        proof {
            assert(self.entries@.drop_last() =~= if before.len() < old(self).room() {
                before
            } else {
                before.skip(1)
            });
            assert(self.next() == if seq == u64::MAX {
                0
            } else {
                (seq + 1) as u64
            });
            assert forall|i: int| 0 <= i < self@.len() implies (#[trigger] self@[i]).seq == (
            self.end() - self@.len() + i) % 0x1_0000_0000_0000_0000 by {
                if i < self@.len() - 1 {
                    let k = if before.len() < old(self).room() {
                        i
                    } else {
                        i + 1
                    };
                    assert(self@[i] == self@.drop_last()[i]);
                    assert(self@[i] == old(self)@[k]);
                }
            }
            assert forall|history: Seq<LogEntry>| #[trigger]
                old(self).records(history) && old(self).next() != 0 implies self.records(
                history.push(self@.last()),
            ) by {
                assert(self@ =~= self@.drop_last().push(self@.last()));
                assert(self@ =~= crate::slices::keep_last(
                    history.push(self@.last()),
                    self.room(),
                ));
            }
        }
    }

    /// The entries numbered above `since`, at most `limit`, oldest first.
    pub fn recent_since(&self, since: u64, limit: usize) -> (out: Vec<LogEntry>)
        ensures
            out@ == tail(self@, since, limit as nat),
    {
        let mut out: Vec<LogEntry> = Vec::new();
        let mut i: usize = 0;
        let ghost all = self.entries@;
        let ghost newer = |e: LogEntry| e.seq > since;
        proof {
            assert(all.take(0) =~= Seq::<LogEntry>::empty());
            reveal(Seq::filter);
        }
        while i < self.entries.len() && out.len() < limit
            invariant
                all == self.entries@,
                newer == (|e: LogEntry| e.seq > since),
                i <= all.len(),
                out@.len() <= limit,
                out@ == all.take(i as int).filter(newer),
            decreases all.len() - i,
        {
            let ghost at = i as int;
            let e: &LogEntry = &self.entries[i];
            proof {
                reveal(Seq::filter);
                assert(all.take(at + 1).drop_last() =~= all.take(at));
                assert(all.take(at + 1).last() == all[at]);
            }
            if e.seq > since {
                out.push(copy_entry(e));
            }
            i = i + 1;
        }
        proof {
            assert(all.take(all.len() as int) =~= all);
            lemma_filter_prefix(all, newer, i as int);
        }
        out
    }

    /// Number of entries held.
    pub fn len(&self) -> (n: usize)
        ensures
            n == self@.len(),
    {
        self.entries.len()
    }

    /// Number of the last entry pushed; zero before the first.
    pub fn last_seq(&self) -> (seq: u64)
        ensures
            seq == if self.next() == 0 {
                0
            } else {
                (self.next() - 1) as u64
            },
    {
        if self.next_seq == 0 {
            0
        } else {
            self.next_seq - 1
        }
    }
}

fn copy_entry(e: &LogEntry) -> (copy: LogEntry)
    ensures
        copy == *e,
{
    LogEntry {
        seq: e.seq,
        timestamp_ms: e.timestamp_ms,
        category: e.category,
        message: e.message.clone(),
        fields: e.fields.clone(),
    }
}

proof fn lemma_filter_prefix<T>(s: Seq<T>, p: spec_fn(T) -> bool, k: int)
    requires
        0 <= k <= s.len(),
    ensures
        s.take(k).filter(p).len() <= s.filter(p).len(),
        s.filter(p).take(s.take(k).filter(p).len() as int) == s.take(k).filter(p),
    decreases s.len(),
{
    reveal(Seq::filter);
    if k == s.len() {
        assert(s.take(k) =~= s);
        assert(s.filter(p).take(s.filter(p).len() as int) =~= s.filter(p));
    } else {
        let less = s.drop_last();
        lemma_filter_prefix(less, p, k);
        assert(less.take(k) =~= s.take(k));
        let n = s.take(k).filter(p).len() as int;
        assert(s.filter(p).take(n) =~= less.filter(p).take(n));
    }
}

proof fn lemma_consecutive_newer(entries: Seq<LogEntry>, first: int, since: u64)
    requires
        forall|i: int| 0 <= i < entries.len() ==> (#[trigger] entries[i]).seq == first + i,
    ensures
        ({
            let passed = if since < first {
                0
            } else if since - first + 1 > entries.len() {
                entries.len() as int
            } else {
                since - first + 1
            };
            entries.filter(|e: LogEntry| e.seq > since) == entries.skip(passed)
        }),
    decreases entries.len(),
{
    reveal(Seq::filter);
    let newer = |e: LogEntry| e.seq > since;
    if entries.len() == 0 {
        assert(entries.filter(newer) =~= entries.skip(0));
    } else {
        let less = entries.drop_last();
        assert forall|i: int| 0 <= i < less.len() implies (#[trigger] less[i]).seq == first + i by {
            assert(entries[i].seq == first + i);
        }
        lemma_consecutive_newer(less, first, since);
        assert(entries.last() == entries[entries.len() - 1]);
        let passed = if since < first {
            0
        } else if since - first + 1 > entries.len() {
            entries.len() as int
        } else {
            since - first + 1
        };
        assert(entries.filter(newer) =~= entries.skip(passed));
    }
}

/// Tailing misses nothing that is still held: the entries read after `since`
/// are numbered one behind the other, beginning right after `since` or, where
/// that one is gone, with the oldest entry held; and as many come as there are,
/// up to the limit. This holds until the numbers go round.
pub proof fn tailing_misses_nothing_held(log: &EventLog, since: u64, limit: nat)
    requires
        log.wf(),
        log.counts_up(),
    ensures
        ({
            let oldest = log.end() - log@.len();
            let first = if since < oldest {
                oldest
            } else {
                since + 1
            };
            let out = tail(log@, since, limit);
            &&& forall|i: int| 0 <= i < out.len() ==> (#[trigger] out[i]).seq == first + i
            &&& out.len() == if first >= log.end() {
                0
            } else if log.end() - first <= limit {
                log.end() - first
            } else {
                limit as int
            }
        }),
{
    let oldest = log.end() - log@.len();
    lemma_consecutive_newer(log@, oldest, since);
}

/// Tailing by what was pushed: the entries read after `since` are the pushed
/// ones numbered above both `since` and those that left the log, up to the
/// limit, each as it was pushed.
pub proof fn tailing_gives_what_was_pushed(
    log: &EventLog,
    history: Seq<LogEntry>,
    since: u64,
    limit: nat,
)
    requires
        log.wf(),
        log.records(history),
    ensures
        ({
            let k = history.len() as int;
            let gone = if k <= log.room() {
                0
            } else {
                k - log.room()
            };
            let first = if since >= k {
                k
            } else if since > gone {
                since as int
            } else {
                gone
            };
            let last = if k - first <= limit {
                k
            } else {
                first + limit
            };
            tail(log@, since, limit) == history.subrange(first, last)
        }),
{
    let k = history.len() as int;
    let gone = if k <= log.room() {
        0
    } else {
        k - log.room()
    };
    assert forall|i: int| 0 <= i < log@.len() implies (#[trigger] log@[i]).seq == gone + 1 + i by {
        assert(log@[i] == history[gone + i]);
    }
    lemma_consecutive_newer(log@, gone + 1, since);
    let first = if since >= k {
        k
    } else if since > gone {
        since as int
    } else {
        gone
    };
    let last = if k - first <= limit {
        k
    } else {
        first + limit
    };
    assert(tail(log@, since, limit) =~= history.subrange(first, last));
}

/// What a reader of the log asks for and gets.
pub struct LogReport {
    /// Number of the last entry pushed.
    pub last_seq: u64,
    pub entries: Vec<LogEntry>,
}

/// Entries returned when the reader names no limit.
pub const DEFAULT_LIMIT: usize = 200;

/// Entries returned at most.
pub const MAX_LIMIT: usize = 1000;

/// The number that a parameter asks for: its value where it parses, else zero.
pub open spec fn since_asked(since: Option<&str>) -> int {
    match since {
        Some(s) => match crate::text::unsigned_value(s@, u64::MAX as int) {
            Some(v) => v,
            None => 0,
        },
        None => 0,
    }
}

/// The limit that a parameter asks for, never above the maximum.
pub open spec fn limit_asked(limit: Option<&str>) -> int {
    let wanted = match limit {
        Some(s) => match crate::text::unsigned_value(s@, usize::MAX as int) {
            Some(v) => v,
            None => DEFAULT_LIMIT as int,
        },
        None => DEFAULT_LIMIT as int,
    };
    if wanted < MAX_LIMIT {
        wanted
    } else {
        MAX_LIMIT as int
    }
}

/// Tail the log as the query parameters ask: entries after `since`, at most
/// `limit` of them, then only those of `category` where one is named.
pub fn get_event_log(
    log: &EventLog,
    since: Option<&str>,
    limit: Option<&str>,
    category: Option<&str>,
) -> (report: LogReport)
    ensures
        report.last_seq == if log.next() == 0 {
            0
        } else {
            (log.next() - 1) as u64
        },
        report.entries@ == match category {
            Some(c) => in_category(
                tail(log@, since_asked(since) as u64, limit_asked(limit) as nat),
                c@,
            ),
            None => tail(log@, since_asked(since) as u64, limit_asked(limit) as nat),
        },
{
    let from: u64 = match since {
        Some(s) => match parse_unsigned(s, u64::MAX) {
            Some(v) => v,
            None => 0,
        },
        None => 0,
    };
    let wanted: usize = match limit {
        Some(s) => match parse_unsigned(s, usize::MAX as u64) {
            Some(v) => v as usize,
            None => DEFAULT_LIMIT,
        },
        None => DEFAULT_LIMIT,
    };
    let at_most: usize = if wanted < MAX_LIMIT {
        wanted
    } else {
        MAX_LIMIT
    };
    let found: Vec<LogEntry> = log.recent_since(from, at_most);
    let entries: Vec<LogEntry> = match category {
        None => found,
        Some(c) => retain_category(&found, c),
    };
    LogReport { last_seq: log.last_seq(), entries }
}

fn retain_category(entries: &Vec<LogEntry>, category: &str) -> (kept: Vec<LogEntry>)
    ensures
        kept@ == in_category(entries@, category@),
{
    let mut kept: Vec<LogEntry> = Vec::new();
    let mut i: usize = 0;
    let ghost all = entries@;
    let ghost matching = |e: LogEntry| e.category@ == category@;
    proof {
        assert(all.take(0) =~= Seq::<LogEntry>::empty());
        reveal(Seq::filter);
    }
    while i < entries.len()
        invariant
            all == entries@,
            matching == (|e: LogEntry| e.category@ == category@),
            i <= all.len(),
            kept@ == all.take(i as int).filter(matching),
        decreases all.len() - i,
    {
        let ghost at = i as int;
        let e: &LogEntry = &entries[i];
        proof {
            reveal(Seq::filter);
            assert(all.take(at + 1).drop_last() =~= all.take(at));
            assert(all.take(at + 1).last() == all[at]);
        }
        if same_text(e.category, category) {
            kept.push(copy_entry(e));
        }
        i = i + 1;
    }
    assert(all.take(all.len() as int) =~= all);
    kept
}

/// No two categories have the same name.
pub proof fn categories_have_their_own_names(a: LogCategory, b: LogCategory)
    requires
        category_name(a) == category_name(b),
    ensures
        a == b,
{
    reveal_strlit("grant");
    reveal_strlit("traffic");
    reveal_strlit("imbe");
    reveal_strlit("vocoder");
    reveal_strlit("system");
    assert("grant"@[0] == 'g' && "traffic"@[0] == 't' && "imbe"@[0] == 'i' && "vocoder"@[0] == 'v'
        && "system"@[0] == 's');
}

/// The number after which a reader tails is taken as it stands; without one, or
/// without a number that can be read, the reader begins at the start.
pub proof fn readers_tail_from_where_they_ask(since: Option<&str>, n: nat, i: int)
    ensures
        since is None ==> since_asked(since) == 0,
        since matches Some(v) ==> v@ == crate::text::decimal(n) && n <= u64::MAX ==> since_asked(
            since,
        ) == n,
        since matches Some(v) ==> 0 < i < v@.len() && !('0' <= v@[i] && v@[i] <= '9')
            ==> since_asked(since) == 0,
        0 <= since_asked(since) <= u64::MAX,
{
    if let Some(v) = since {
        crate::text::numbers_are_in_range(v@, u64::MAX as int);
        crate::text::other_texts_are_no_numbers(v@, u64::MAX as int, i);
        if n <= u64::MAX {
            crate::text::parsing_undoes_rendering(n, u64::MAX as int);
        }
    }
}

/// A reader gets as many entries as it asks for, up to 1000, and up to 200 where
/// it names no number.
pub proof fn readers_get_what_they_ask_for(limit: Option<&str>, n: nat)
    ensures
        limit is None ==> limit_asked(limit) == 200,
        limit matches Some(v) ==> v@ == crate::text::decimal(n) && n <= 1000 ==> limit_asked(limit)
            == n,
        limit matches Some(v) ==> v@ == crate::text::decimal(n) && 1000 < n <= usize::MAX
            ==> limit_asked(limit) == 1000,
        limit matches Some(v) ==> v@.len() == 0 ==> limit_asked(limit) == 200,
        0 <= limit_asked(limit) <= 1000,
{
    if let Some(v) = limit {
        crate::text::numbers_are_in_range(v@, usize::MAX as int);
        crate::text::other_texts_are_no_numbers(v@, usize::MAX as int, 0);
        if n <= usize::MAX {
            crate::text::parsing_undoes_rendering(n, usize::MAX as int);
        }
    }
}

/// Choosing a category keeps its entries, all of them and in their order, and no
/// others.
pub proof fn categories_are_kept_whole(a: Seq<LogEntry>, b: Seq<LogEntry>, category: Seq<char>)
    ensures
        in_category(a + b, category) == in_category(a, category) + in_category(b, category),
        a.len() == 0 ==> in_category(a, category).len() == 0,
        a.len() == 1 && a[0].category@ == category ==> in_category(a, category) == a,
        a.len() == 1 && a[0].category@ != category ==> in_category(a, category).len() == 0,
    decreases b.len(),
{
    reveal(Seq::filter);
    reveal_with_fuel(Seq::filter, 2);
    if a.len() == 1 {
        assert(a.drop_last() =~= Seq::<LogEntry>::empty());
        if a[0].category@ == category {
            assert(in_category(a, category) =~= a);
        }
    }
    if b.len() == 0 {
        assert(a + b =~= a);
        assert(in_category(a, category) + in_category(b, category) =~= in_category(a, category));
    } else {
        categories_are_kept_whole(a, b.drop_last(), category);
        assert((a + b).drop_last() =~= a + b.drop_last());
        assert((a + b).last() == b.last());
        assert(in_category(a + b, category) =~= in_category(a, category) + in_category(
            b,
            category,
        ));
    }
}

} // verus!
