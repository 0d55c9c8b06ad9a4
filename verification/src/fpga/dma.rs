//! Rings of sub-buffers that the logic fills by direct memory access.
//!
//! The logic reports the index of the sub-buffer that it completed last. A
//! reader remembers the index it saw last and reads what was completed since.

use vstd::prelude::*;
use crate::lsm::nid_fec;

verus! {

/// One ring: how many sub-buffers it has, and the last completion report that
/// the reader has seen.
#[derive(Debug, Clone, Copy, PartialEq, Eq, Structural)]
pub struct DmaRing {
    pub num_buffers: u32,
    pub last_seen: Option<u8>,
}

/// The sub-buffer that a completion report denotes: its low bits. A report of
/// all ones denotes the last sub-buffer.
pub open spec fn reported_index(num_buffers: u32, report: u8) -> u64 {
    (report as u64) & ((num_buffers - 1) as u64)
}

/// The sub-buffers completed after `previous`, up to and with `current`, in
/// the order of completion. Nothing when the report has not moved.
pub open spec fn completed_since(num_buffers: u32, previous: u8, current: u8) -> Seq<usize> {
    let n = num_buffers as int;
    let from = reported_index(num_buffers, previous) as int;
    let to = reported_index(num_buffers, current) as int;
    Seq::new(((to - from + n) % n) as nat, |i: int| ((from + 1 + i) % n) as usize)
}

/// What a reader of the ring reads when the logic reports `current`.
pub open spec fn new_buffers(ring: DmaRing, current: u8) -> Seq<usize> {
    if ring.num_buffers == 0 {
        seq![]
    } else {
        match ring.last_seen {
            None => seq![],
            Some(previous) => completed_since(ring.num_buffers, previous, current),
        }
    }
}

/// The ring after the reader has seen the report `current`. A report that
/// denotes the sub-buffer already seen leaves it as it is.
pub open spec fn after_report(ring: DmaRing, current: u8) -> DmaRing {
    if ring.num_buffers == 0 {
        ring
    } else if ring.last_seen is Some && reported_index(ring.num_buffers, ring.last_seen->0)
        == reported_index(ring.num_buffers, current) {
        ring
    } else {
        DmaRing { last_seen: Some(current), ..ring }
    }
}

proof fn lemma_reported_index(num_buffers: u32, report: u8)
    requires
        0 < num_buffers,
    ensures
        reported_index(num_buffers, report) < num_buffers,
{
    nid_fec::lemma_masked(report as u64, (num_buffers - 1) as u64);
}

impl DmaRing {
    /// A ring that no reader has looked at yet.
    pub fn new(num_buffers: u32) -> (ring: DmaRing)
        ensures
            ring == (DmaRing { num_buffers, last_seen: None }),
    {
        DmaRing { num_buffers, last_seen: None }
    }

    /// The sub-buffers to read, oldest first, when the logic reports
    /// `current`. The first report only sets the starting point.
    pub fn read_new(&mut self, current: u8) -> (buffers: Vec<usize>)
        ensures
            buffers@ == new_buffers(*old(self), current),
            *final(self) == after_report(*old(self), current),
    {
        let mut buffers: Vec<usize> = Vec::new();
        if self.num_buffers == 0 {
            return buffers;
        }
        let n: u64 = self.num_buffers as u64;
        let current_idx: u64 = (current as u64) & ((self.num_buffers - 1) as u64);
        match self.last_seen {
            None => {
                self.last_seen = Some(current);
            },
            Some(previous) => {
                let previous_idx: u64 = (previous as u64) & ((self.num_buffers - 1) as u64);
                proof {
                    lemma_reported_index(self.num_buffers, previous);
                    lemma_reported_index(self.num_buffers, current);
                    // A whole turn of the ring adds nothing to an index.
                    if current_idx >= previous_idx {
                        vstd::arithmetic::div_mod::lemma_fundamental_div_mod_converse(
                            current_idx - previous_idx + n,
                            n as int,
                            1,
                            current_idx - previous_idx,
                        );
                    } else {
                        vstd::arithmetic::div_mod::lemma_small_mod(
                            (current_idx - previous_idx + n) as nat,
                            n as nat,
                        );
                    }
                }
                if previous_idx == current_idx {
                    assert(buffers@ =~= new_buffers(*self, current));
                    return buffers;
                }
                let ghost plan = completed_since(self.num_buffers, previous, current);
                self.last_seen = Some(current);
                let mut idx: u64 = previous_idx;
                while idx != current_idx
                    invariant
                        n == self.num_buffers,
                        0 < n,
                        idx < n,
                        previous_idx < n,
                        current_idx < n,
                        previous_idx == reported_index(self.num_buffers, previous),
                        current_idx == reported_index(self.num_buffers, current),
                        plan == completed_since(self.num_buffers, previous, current),
                        plan.len() == if current_idx >= previous_idx {
                            current_idx - previous_idx
                        } else {
                            current_idx - previous_idx + n
                        },
                        buffers@.len() == if idx >= previous_idx {
                            idx - previous_idx
                        } else {
                            idx - previous_idx + n
                        },
                        buffers@.len() <= plan.len(),
                        buffers@ == plan.take(buffers@.len() as int),
                    decreases plan.len() - buffers@.len(),
                {
                    let ghost i = buffers@.len() as int;
                    idx = if idx + 1 == n {
                        0
                    } else {
                        idx + 1
                    };
                    proof {
                        if previous_idx + 1 + i < n {
                            vstd::arithmetic::div_mod::lemma_small_mod(
                                (previous_idx + 1 + i) as nat,
                                n as nat,
                            );
                        } else {
                            vstd::arithmetic::div_mod::lemma_fundamental_div_mod_converse(
                                previous_idx + 1 + i,
                                n as int,
                                1,
                                previous_idx + 1 + i - n,
                            );
                        }
                        assert(plan[i] == idx as usize);
                        assert(plan.take(i + 1) =~= plan.take(i).push(idx as usize));
                    }
                    buffers.push(idx as usize);
                }
                assert(plan.take(buffers@.len() as int) =~= plan);
            },
        }
        buffers
    }
}

/// A read ends at the reported sub-buffer, and never reads one twice.
pub proof fn reads_end_at_the_report(num_buffers: u32, previous: u8, current: u8)
    requires
        0 < num_buffers,
    ensures
        ({
            let plan = completed_since(num_buffers, previous, current);
            &&& plan.len() < num_buffers
            &&& plan.len() == 0 <==> reported_index(num_buffers, previous) == reported_index(
                num_buffers,
                current,
            )
            &&& plan.len() > 0 ==> plan.last() == reported_index(num_buffers, current)
            &&& forall|i: int, j: int|
                0 <= i < j < plan.len() ==> #[trigger] plan[i] != #[trigger] plan[j]
        }),
{
    let n = num_buffers as int;
    let from = reported_index(num_buffers, previous) as int;
    let to = reported_index(num_buffers, current) as int;
    lemma_reported_index(num_buffers, previous);
    lemma_reported_index(num_buffers, current);
    let plan = completed_since(num_buffers, previous, current);
    if to >= from {
        vstd::arithmetic::div_mod::lemma_fundamental_div_mod_converse(to - from + n, n, 1, to - from);
    } else {
        vstd::arithmetic::div_mod::lemma_small_mod((to - from + n) as nat, n as nat);
    }
    assert forall|i: int| 0 <= i < plan.len() implies #[trigger] plan[i] == (if from + 1 + i < n {
        from + 1 + i
    } else {
        from + 1 + i - n
    }) by {
        if from + 1 + i < n {
            vstd::arithmetic::div_mod::lemma_small_mod((from + 1 + i) as nat, n as nat);
        } else {
            vstd::arithmetic::div_mod::lemma_fundamental_div_mod_converse(
                from + 1 + i,
                n,
                1,
                from + 1 + i - n,
            );
        }
    }
}

/// No sub-buffer is lost between two reads: the second begins right after the
/// one at which the first ended.
pub proof fn consecutive_reads_are_contiguous(num_buffers: u32, a: u8, b: u8, c: u8)
    requires
        0 < num_buffers,
        completed_since(num_buffers, a, b).len() > 0,
        completed_since(num_buffers, b, c).len() > 0,
    ensures
        completed_since(num_buffers, b, c).first() == (completed_since(num_buffers, a, b).last()
            + 1) % num_buffers as int,
{
    reads_end_at_the_report(num_buffers, a, b);
    lemma_reported_index(num_buffers, b);
    let n = num_buffers as int;
    let at = reported_index(num_buffers, b) as int;
    if at + 1 < n {
        vstd::arithmetic::div_mod::lemma_small_mod((at + 1) as nat, n as nat);
    } else {
        vstd::arithmetic::div_mod::lemma_fundamental_div_mod_converse(at + 1, n, 1, 0);
    }
}

/// In a ring of a power of two up to 256 a report denotes the sub-buffer of that
/// number, counted around the ring.
pub proof fn reports_count_around_the_ring(num_buffers: u32, report: u8)
    requires
        num_buffers == 1 || num_buffers == 2 || num_buffers == 4 || num_buffers == 8 || num_buffers
            == 16 || num_buffers == 32 || num_buffers == 64 || num_buffers == 128 || num_buffers
            == 256,
    ensures
        reported_index(num_buffers, report) == report as int % num_buffers as int,
{
    let r = report as u64;
    assert(r & 0 == r % 1 && r & 1 == r % 2 && r & 3 == r % 4 && r & 7 == r % 8 && r & 15 == r % 16
        && r & 31 == r % 32 && r & 63 == r % 64 && r & 127 == r % 128 && r & 255 == r % 256)
        by (bit_vector);
}

/// A read leaves nothing out: it begins right behind the sub-buffer seen last,
/// goes on one by one around the ring, and ends at the one that is reported.
pub proof fn reads_leave_nothing_out(ring: DmaRing, previous: u8, current: u8, i: int)
    requires
        0 < ring.num_buffers,
        ring.last_seen == Some(previous),
    ensures
        ({
            let plan = new_buffers(ring, current);
            let n = ring.num_buffers as int;
            let from = reported_index(ring.num_buffers, previous) as int;
            let to = reported_index(ring.num_buffers, current) as int;
            &&& from == to ==> plan.len() == 0
            &&& from < to ==> plan.len() == to - from
            &&& to < from ==> plan.len() == to - from + n
            &&& plan.len() > 0 ==> plan[0] == (if from + 1 == n {
                0
            } else {
                from + 1
            }) && plan.last() == to
            &&& 0 <= i < plan.len() - 1 ==> plan[i + 1] == (if plan[i] + 1 == n {
                0
            } else {
                plan[i] + 1
            })
        }),
{
    let n = ring.num_buffers as int;
    let from = reported_index(ring.num_buffers, previous) as int;
    let to = reported_index(ring.num_buffers, current) as int;
    let plan = new_buffers(ring, current);
    lemma_reported_index(ring.num_buffers, previous);
    lemma_reported_index(ring.num_buffers, current);
    reads_end_at_the_report(ring.num_buffers, previous, current);
    if to >= from {
        vstd::arithmetic::div_mod::lemma_fundamental_div_mod_converse(to - from + n, n, 1, to - from);
    } else {
        vstd::arithmetic::div_mod::lemma_small_mod((to - from + n) as nat, n as nat);
    }
    assert forall|j: int| 0 <= j < plan.len() implies #[trigger] plan[j] == (if from + 1 + j < n {
        from + 1 + j
    } else {
        from + 1 + j - n
    }) by {
        if from + 1 + j < n {
            vstd::arithmetic::div_mod::lemma_small_mod((from + 1 + j) as nat, n as nat);
        } else {
            vstd::arithmetic::div_mod::lemma_fundamental_div_mod_converse(
                from + 1 + j,
                n,
                1,
                from + 1 + j - n,
            );
        }
    }
}

/// The first look only sets the starting point; after any look the next read
/// begins behind what was reported then.
pub proof fn looks_set_the_starting_point(ring: DmaRing, current: u8)
    requires
        0 < ring.num_buffers,
    ensures
        ring.last_seen is None ==> new_buffers(ring, current).len() == 0,
        after_report(ring, current).num_buffers == ring.num_buffers,
        after_report(ring, current).last_seen is Some,
        reported_index(ring.num_buffers, after_report(ring, current).last_seen->0)
            == reported_index(ring.num_buffers, current),
{
}

} // verus!
