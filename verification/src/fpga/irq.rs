//! Bookkeeping of the interrupt handler.

use vstd::prelude::*;
use crate::clock::{ms_ago, uptime_secs};

verus! {

/// The sources that one interrupt reports.
#[derive(Debug, Clone, Copy, PartialEq, Eq, Structural)]
pub struct InterruptSources {
    pub dibit: bool,
    pub traffic: bool,
    pub iq: bool,
    pub lsm_dibit: bool,
    pub traffic_lsm_dibit: bool,
}

/// Interrupts counted per source. Times are nanoseconds on one clock.
#[derive(Debug, Clone, Copy, PartialEq, Eq, Structural)]
pub struct IrqStats {
    pub total: u64,
    pub dibit: u64,
    pub traffic: u64,
    pub iq: u64,
    pub lsm_dibit: u64,
    pub traffic_lsm_dibit: u64,
    /// When the first interrupt came.
    pub started_at: Option<u64>,
    /// When the last interrupt came.
    pub last_at: Option<u64>,
}

/// The counts as they are shown. Rates are the counts over the whole seconds
/// of uptime, zero in the first second.
#[derive(Debug, Clone, Copy, PartialEq, Eq, Structural)]
pub struct IrqReport {
    pub running: bool,
    pub uptime_secs: u64,
    pub last_at_ms_ago: Option<u64>,
    pub total: u64,
    pub dibit: u64,
    pub traffic: u64,
    pub iq: u64,
    pub lsm_dibit: u64,
}

pub open spec fn counted(count: u64, fired: bool) -> int {
    if fired {
        count + 1
    } else {
        count as int
    }
}

/// Whether every count by source is within the total.
pub open spec fn irq_stats_wf(s: IrqStats) -> bool {
    &&& s.dibit <= s.total
    &&& s.traffic <= s.total
    &&& s.iq <= s.total
    &&& s.lsm_dibit <= s.total
    &&& s.traffic_lsm_dibit <= s.total
}

/// Whether an interrupt of this number is logged: the first ten, then every
/// 64th.
pub fn logs_interrupt(total: u64) -> (r: bool)
    ensures
        r == (total <= 10 || total % 64 == 0),
{
    total <= 10 || total % 64 == 0
}

fn count(n: u64, fired: bool) -> (r: u64)
    requires
        n < u64::MAX,
    ensures
        r == counted(n, fired),
{
    if fired {
        n + 1
    } else {
        n
    }
}

impl IrqStats {
    /// Nothing counted yet.
    pub fn new() -> (s: IrqStats)
        ensures
            irq_stats_wf(s),
            s == (IrqStats {
                total: 0,
                dibit: 0,
                traffic: 0,
                iq: 0,
                lsm_dibit: 0,
                traffic_lsm_dibit: 0,
                started_at: None,
                last_at: None,
            }),
    {
        IrqStats {
            total: 0,
            dibit: 0,
            traffic: 0,
            iq: 0,
            lsm_dibit: 0,
            traffic_lsm_dibit: 0,
            started_at: None,
            last_at: None,
        }
    }

    /// Count one interrupt that came at `now`. The result says whether it is
    /// logged. The waiters to wake are those of the sources that fired.
    pub fn record(&mut self, sources: InterruptSources, now: u64) -> (log: bool)
        requires
            irq_stats_wf(*old(self)),
            old(self).total < u64::MAX,
        ensures
            irq_stats_wf(*final(self)),
            final(self).total == old(self).total + 1,
            final(self).dibit == counted(old(self).dibit, sources.dibit),
            final(self).traffic == counted(old(self).traffic, sources.traffic),
            final(self).iq == counted(old(self).iq, sources.iq),
            final(self).lsm_dibit == counted(old(self).lsm_dibit, sources.lsm_dibit),
            final(self).traffic_lsm_dibit == counted(
                old(self).traffic_lsm_dibit,
                sources.traffic_lsm_dibit,
            ),
            final(self).started_at == match old(self).started_at {
                Some(t) => Some(t),
                None => Some(now),
            },
            final(self).last_at == Some(now),
            log == (final(self).total <= 10 || final(self).total % 64 == 0),
    {
        self.dibit = count(self.dibit, sources.dibit);
        self.traffic = count(self.traffic, sources.traffic);
        self.iq = count(self.iq, sources.iq);
        self.lsm_dibit = count(self.lsm_dibit, sources.lsm_dibit);
        self.traffic_lsm_dibit = count(self.traffic_lsm_dibit, sources.traffic_lsm_dibit);
        self.total = self.total + 1;
        if self.started_at.is_none() {
            self.started_at = Some(now);
        }
        self.last_at = Some(now);
        logs_interrupt(self.total)
    }

    /// The counts as they are shown at `now`.
    pub fn report(&self, now: u64) -> (r: IrqReport)
        ensures
            r == (IrqReport {
                running: self.started_at is Some,
                uptime_secs: match self.started_at {
                    Some(t) => crate::clock::elapsed(t, now) / 1_000_000_000,
                    None => 0,
                },
                last_at_ms_ago: match self.last_at {
                    Some(t) => Some(crate::clock::elapsed(t, now) / 1_000_000),
                    None => None,
                },
                total: self.total,
                dibit: self.dibit,
                traffic: self.traffic,
                iq: self.iq,
                lsm_dibit: self.lsm_dibit,
            }),
    {
        IrqReport {
            running: self.started_at.is_some(),
            uptime_secs: uptime_secs(self.started_at, now),
            last_at_ms_ago: ms_ago(self.last_at, now),
            total: self.total,
            dibit: self.dibit,
            traffic: self.traffic,
            iq: self.iq,
            lsm_dibit: self.lsm_dibit,
        }
    }
}

/// A source that fired counts once more, one that did not counts as before.
pub proof fn fired_sources_count_once(count: u64, fired: bool)
    ensures
        fired ==> counted(count, fired) == count + 1,
        !fired ==> counted(count, fired) == count,
{
}

} // verus!
