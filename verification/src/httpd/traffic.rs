//! The traffic channel: counters of its dibit reader, manual controls, and what
//! is shown of it.

use vstd::prelude::*;
use crate::clock::elapsed_ns;
use crate::dibits::{DibitHistogram, WakeTally};
use crate::fpga::ip_core;
use crate::fpga::ip_core::IpCore;
use crate::fpga::nco::{freq_to_nco, shown_nco_word};
use crate::fpga::registers::{BusOp, Chain};
use crate::httpd::lines;
use crate::httpd::lines::{push_line, surrounded};
use crate::text::{append_signed, is_text, parse_signed, prefixed_hex};
use crate::voice::ImbeForwarder;

verus! {

/// Counters of the traffic channel's dibit reader. Times are nanoseconds on one
/// clock.
#[derive(Debug, Clone, Copy, PartialEq, Eq, Structural)]
pub struct TrafficStats {
    pub started_at: Option<u64>,
    pub last_at: Option<u64>,
    pub wakeups: u64,
    pub total_buffers: u64,
    pub total_bytes: u64,
    pub total_dibits: u64,
    pub dibit_hist: DibitHistogram,
}

/// Nothing counted.
pub open spec fn no_traffic() -> TrafficStats {
    TrafficStats {
        started_at: None,
        last_at: None,
        wakeups: 0,
        total_buffers: 0,
        total_bytes: 0,
        total_dibits: 0,
        dibit_hist: DibitHistogram { zeros: 0, ones: 0, twos: 0, threes: 0 },
    }
}

impl TrafficStats {
    /// Nothing counted.
    pub fn new() -> (s: TrafficStats)
        ensures
            s == no_traffic(),
    {
        TrafficStats {
            started_at: None,
            last_at: None,
            wakeups: 0,
            total_buffers: 0,
            total_bytes: 0,
            total_dibits: 0,
            dibit_hist: DibitHistogram::new(),
        }
    }

    /// Count one wake of the reader. A wake without a buffer is not counted.
    /// The result says whether the wake is logged: the first five counted,
    /// then every 64th.
    pub fn record(&mut self, tally: &WakeTally, now: u64) -> (log: bool)
        requires
            old(self).wakeups < u64::MAX,
            old(self).total_buffers + tally.buffers <= u64::MAX,
            old(self).total_bytes + tally.bytes <= u64::MAX,
            old(self).total_dibits + tally.dibits <= u64::MAX,
            old(self).dibit_hist.sum() + tally.histogram.sum() <= u64::MAX,
        ensures
            tally.buffers == 0 ==> !log && *final(self) == *old(self),
            tally.buffers > 0 ==> {
                &&& final(self).started_at == match old(self).started_at {
                    Some(t) => Some(t),
                    None => Some(now),
                }
                &&& final(self).last_at == Some(now)
                &&& final(self).wakeups == old(self).wakeups + 1
                &&& final(self).total_buffers == old(self).total_buffers + tally.buffers
                &&& final(self).total_bytes == old(self).total_bytes + tally.bytes
                &&& final(self).total_dibits == old(self).total_dibits + tally.dibits
                &&& forall|d: u64|
                    d < 4 ==> #[trigger] final(self).dibit_hist.count(d) == old(self).dibit_hist.count(d) + tally.histogram.count(d)
                &&& log == crate::dibits::logs_wake(final(self).wakeups, 64)
            },
    {
        if tally.buffers == 0 {
            return false;
        }
        if self.started_at.is_none() {
            self.started_at = Some(now);
        }
        self.last_at = Some(now);
        self.wakeups = self.wakeups + 1;
        self.total_buffers = self.total_buffers + tally.buffers;
        self.total_bytes = self.total_bytes + tally.bytes;
        self.total_dibits = self.total_dibits + tally.dibits;
        self.dibit_hist.merge(&tally.histogram);
        self.wakeups <= 5 || self.wakeups % 64 == 0
    }
}

// ---------------------------------------------------------------------------
// Manual controls
// ---------------------------------------------------------------------------

/// Sample rate that manual tuning counts with, in hertz.
pub const MANUAL_SAMPLE_RATE_HZ: u64 = 8_000_000;

/// The controls of one request, as they were given.
pub struct TrafficControls<'a> {
    pub reset_stats: Option<&'a str>,
    pub follower: Option<&'a str>,
    pub retune_hz: Option<&'a str>,
    pub demod_enable: Option<&'a str>,
    /// The requested offset as a floating-point number, in decimal.
    pub shown_offset: &'a str,
}

/// What is remembered of the last manual tuning.
#[derive(Debug, Clone, Copy, PartialEq, Eq, Structural)]
pub struct ManualTuning {
    pub last_offset_hz: i64,
    pub nco_word: u32,
}

/// What was done, and what was refused.
pub struct ControlReport {
    pub applied: Vec<String>,
    pub errors: Vec<String>,
}

/// A switch: on, off, or what it cannot read.
pub open spec fn switch_value(v: Seq<char>) -> Option<bool> {
    if v == "on"@ || v == "1"@ || v == "true"@ {
        Some(true)
    } else if v == "off"@ || v == "0"@ || v == "false"@ {
        Some(false)
    } else {
        None
    }
}

/// Read a switch; `None` for what is neither on nor off.
pub fn parse_switch(v: &str) -> (r: Option<bool>)
    ensures
        r == switch_value(v@),
{
    if is_text(Some(v), "on") || is_text(Some(v), "1") || is_text(Some(v), "true") {
        Some(true)
    } else if is_text(Some(v), "off") || is_text(Some(v), "0") || is_text(Some(v), "false") {
        Some(false)
    } else {
        None
    }
}

/// Whether the counters are reset.
pub open spec fn resets(c: TrafficControls) -> bool {
    c.reset_stats is Some && c.reset_stats->0@ == "1"@
}

/// The offset to tune to, where one is given that reads as a number.
pub open spec fn offset_asked(c: TrafficControls) -> Option<int> {
    match c.retune_hz {
        Some(v) => crate::text::signed_value(v@),
        None => None,
    }
}

/// Whether an offset is within reach of manual tuning.
pub open spec fn reachable(offset: int) -> bool {
    crate::fpga::nco::in_range(offset, MANUAL_SAMPLE_RATE_HZ as int)
}

pub open spec fn demod_asked(c: TrafficControls) -> Option<bool> {
    match c.demod_enable {
        Some(v) => switch_value(v@),
        None => None,
    }
}

/// What a request does, line by line, in the order in which it is done.
pub open spec fn applied_lines(c: TrafficControls) -> Seq<Seq<char>> {
    lines::line_of(
        if resets(c) {
            Some("reset_stats=1"@)
        } else {
            None
        },
    ) + lines::line_of(
        match c.follower {
            Some(v) => match switch_value(v@) {
                Some(on) => Some(
                    if on {
                        "follower=on"@
                    } else {
                        "follower=off"@
                    },
                ),
                None => None,
            },
            None => None,
        },
    ) + lines::line_of(
        match offset_asked(c) {
            Some(offset) => if reachable(offset) {
                Some("retune_hz="@ + crate::text::signed_decimal(offset))
            } else {
                None
            },
            None => None,
        },
    ) + lines::line_of(
        match demod_asked(c) {
            Some(on) => Some(
                if on {
                    "demod_enable=true"@
                } else {
                    "demod_enable=false"@
                },
            ),
            None => None,
        },
    )
}

/// What a request is refused, line by line.
pub open spec fn error_lines(c: TrafficControls) -> Seq<Seq<char>> {
    lines::line_of(
        match c.follower {
            Some(v) => if switch_value(v@) is None {
                Some("follower="@ + v@ + ": expected on|off|1|0|true|false"@)
            } else {
                None
            },
            None => None,
        },
    ) + lines::line_of(
        match c.retune_hz {
            Some(v) => match crate::text::signed_value(v@) {
                None => Some("retune_hz="@ + v@ + ": expected signed integer Hz offset"@),
                Some(offset) => if reachable(offset) {
                    None
                } else {
                    Some(
                        "retune_hz="@ + crate::text::signed_decimal(offset)
                            + " rejected: traffic DDC frequency "@ + c.shown_offset@
                            + " Hz out of range"@,
                    )
                },
            },
            None => None,
        },
    ) + lines::line_of(
        match c.demod_enable {
            Some(v) => if switch_value(v@) is None {
                Some("demod_enable="@ + v@ + ": expected 0|1|on|off|true|false"@)
            } else {
                None
            },
            None => None,
        },
    )
}

/// The accesses that a request makes: tune first, then switch the demodulator.
pub open spec fn control_ops(c: TrafficControls) -> Seq<BusOp> {
    (match offset_asked(c) {
        Some(offset) => if reachable(offset) {
            seq![
                BusOp::DdcFrequency {
                    chain: Chain::Traffic,
                    word: crate::fpga::nco::word_of(
                        crate::fpga::nco::phase_increment(offset, MANUAL_SAMPLE_RATE_HZ as int),
                    ),
                },
            ]
        } else {
            Seq::<BusOp>::empty()
        },
        None => Seq::<BusOp>::empty(),
    }) + (match demod_asked(c) {
        Some(enable) => seq![BusOp::DemodEnable { chain: Chain::Traffic, enable }],
        None => Seq::<BusOp>::empty(),
    })
}

/// What is remembered of manual tuning after a request.
pub open spec fn tuning_after(c: TrafficControls, before: ManualTuning) -> ManualTuning {
    match offset_asked(c) {
        Some(offset) => if reachable(offset) {
            ManualTuning {
                last_offset_hz: offset as i64,
                nco_word: crate::fpga::nco::truncated_word(offset, MANUAL_SAMPLE_RATE_HZ as int),
            }
        } else {
            before
        },
        None => before,
    }
}

/// Carry out the controls of a request: reset the counters, switch the
/// follower, tune, switch the demodulator, in this order. What cannot be read
/// or reached is refused and changes nothing.
pub fn apply_controls(
    c: &TrafficControls,
    stats: &mut TrafficStats,
    follower_enabled: &mut bool,
    core: &mut IpCore,
    tuning: &mut ManualTuning,
) -> (report: ControlReport)
    ensures
        lines::texts(report.applied@) == applied_lines(*c),
        lines::texts(report.errors@) == error_lines(*c),
        *final(stats) == if resets(*c) {
            no_traffic()
        } else {
            *old(stats)
        },
        *final(follower_enabled) == match c.follower {
            Some(v) => match switch_value(v@) {
                Some(on) => on,
                None => *old(follower_enabled),
            },
            None => *old(follower_enabled),
        },
        ip_core::wrote(*old(core), *final(core), control_ops(*c)),
        *final(tuning) == tuning_after(*c, *old(tuning)),
{
    let mut applied: Vec<String> = Vec::new();
    let mut errors: Vec<String> = Vec::new();
    let ghost start = *core;
    proof {
        assert(lines::texts(applied@) =~= Seq::<Seq<char>>::empty());
        assert(lines::texts(errors@) =~= Seq::<Seq<char>>::empty());
    }

    if is_text(c.reset_stats, "1") {
        *stats = TrafficStats::new();
        push_line(&mut applied, "reset_stats=1".to_owned());
    }
    let ghost applied1 = lines::texts(applied@);

    match c.follower {
        Some(v) => match parse_switch(v) {
            Some(true) => {
                *follower_enabled = true;
                push_line(&mut applied, "follower=on".to_owned());
            },
            Some(false) => {
                *follower_enabled = false;
                push_line(&mut applied, "follower=off".to_owned());
            },
            None => {
                push_line(
                    &mut errors,
                    surrounded("follower=", v, ": expected on|off|1|0|true|false"),
                );
            },
        },
        None => {},
    }
    let ghost applied2 = lines::texts(applied@);
    let ghost errors2 = lines::texts(errors@);

    match c.retune_hz {
        Some(v) => match parse_signed(v) {
            Some(offset) => {
                let mut line = "retune_hz=".to_owned();
                append_signed(&mut line, offset);
                match freq_to_nco(offset, MANUAL_SAMPLE_RATE_HZ) {
                    Some(word) => {
                        core.set_traffic_ddc_frequency_word(word);
                        push_line(&mut applied, line);
                        tuning.last_offset_hz = offset;
                        tuning.nco_word = shown_nco_word(offset, MANUAL_SAMPLE_RATE_HZ);
                    },
                    None => {
                        line.append(" rejected: traffic DDC frequency ");
                        line.append(c.shown_offset);
                        line.append(" Hz out of range");
                        push_line(&mut errors, line);
                    },
                }
            },
            None => {
                push_line(
                    &mut errors,
                    surrounded("retune_hz=", v, ": expected signed integer Hz offset"),
                );
            },
        },
        None => {},
    }
    let ghost applied3 = lines::texts(applied@);
    let ghost errors3 = lines::texts(errors@);
    let ghost tuned = *core;

    match c.demod_enable {
        Some(v) => match parse_switch(v) {
            Some(bit) => {
                core.set_traffic_demod_enable(bit);
                push_line(
                    &mut applied,
                    if bit {
                        "demod_enable=true".to_owned()
                    } else {
                        "demod_enable=false".to_owned()
                    },
                );
            },
            None => {
                push_line(
                    &mut errors,
                    surrounded("demod_enable=", v, ": expected 0|1|on|off|true|false"),
                );
            },
        },
        None => {},
    }
    proof {
        let tune_ops = control_ops(
            TrafficControls { demod_enable: None, ..*c },
        );
        ip_core::lemma_wrote_nothing(start);
        ip_core::lemma_wrote_nothing(tuned);
        assert(tune_ops + Seq::<BusOp>::empty() =~= tune_ops);
        assert(ip_core::wrote(start, tuned, tune_ops));
        let demod_ops = match demod_asked(*c) {
            Some(enable) => seq![BusOp::DemodEnable { chain: Chain::Traffic, enable }],
            None => Seq::<BusOp>::empty(),
        };
        ip_core::lemma_wrote_more(start, tuned, *core, tune_ops, demod_ops);
        assert(tune_ops + demod_ops =~= control_ops(*c));
        assert(lines::texts(applied@) =~= applied_lines(*c));
        assert(lines::texts(errors@) =~= error_lines(*c));
    }
    ControlReport { applied, errors }
}

// ---------------------------------------------------------------------------
// What is shown
// ---------------------------------------------------------------------------

/// The name of a data unit as the traffic page shows it.
pub open spec fn shown_duid(duid: u8) -> Seq<char> {
    if duid == 0 {
        "HDU"@
    } else if duid == 3 {
        "TDU"@
    } else if duid == 5 {
        "LDU1"@
    } else if duid == 7 {
        "TSDU"@
    } else if duid == 0xA {
        "LDU2"@
    } else if duid == 0xC {
        "PDU"@
    } else if duid == 0xF {
        "TDU_LC"@
    } else {
        "?"@
    }
}

/// The name of a data unit as the traffic page shows it.
pub fn traffic_duid_label(duid: u8) -> (label: &'static str)
    ensures
        label@ == shown_duid(duid),
{
    match duid {
        0 => "HDU",
        3 => "TDU",
        5 => "LDU1",
        7 => "TSDU",
        0xA => "LDU2",
        0xC => "PDU",
        0xF => "TDU_LC",
        _ => "?",
    }
}

/// A hexadecimal number with its prefix and at least `width` digits.
pub open spec fn hex_text(n: nat, width: nat) -> Seq<char> {
    seq!['0', 'x'] + crate::text::zero_padded(crate::text::upper_hex(n), width)
}

/// What the traffic page shows in words and in hexadecimal.
pub struct TrafficReport {
    pub nco_word_hex: String,
    pub last_duid_hex: Option<String>,
    pub last_duid_label: Option<&'static str>,
    pub last_nac_hex: Option<String>,
    pub dibit_next_addr_hex: String,
    /// Whether the call that is followed is encrypted; none while none is.
    pub current_call_encrypted: Option<bool>,
    /// Milliseconds since the last voice frames; none before the first.
    pub last_imbe_ms_ago: Option<u64>,
}

/// The traffic page, with what the call state machine last saw.
pub fn traffic_report(
    nco_word: u32,
    last_duid: Option<u8>,
    last_nac: Option<u16>,
    current_talkgroup: Option<u16>,
    dibit_next_address: u32,
    forwarder: &ImbeForwarder,
    now_millis: u64,
) -> (r: TrafficReport)
    ensures
        r.nco_word_hex@ == hex_text(nco_word as nat, 8),
        r.dibit_next_addr_hex@ == hex_text(dibit_next_address as nat, 8),
        r.last_duid_hex is Some <==> last_duid is Some,
        r.last_duid_label is Some <==> last_duid is Some,
        last_duid is Some ==> r.last_duid_hex->0@ == hex_text(last_duid->0 as nat, 0)
            && r.last_duid_label->0@ == shown_duid(last_duid->0),
        r.last_nac_hex is Some <==> last_nac is Some,
        last_nac is Some ==> r.last_nac_hex->0@ == hex_text(last_nac->0 as nat, 3),
        r.current_call_encrypted == if current_talkgroup is Some {
            Some(forwarder.call_encrypted)
        } else {
            None
        },
        r.last_imbe_ms_ago == if forwarder.last_imbe_at_millis == 0 {
            None
        } else {
            Some(crate::clock::elapsed(forwarder.last_imbe_at_millis, now_millis))
        },
{
    let last_duid_hex: Option<String> = match last_duid {
        Some(d) => Some(prefixed_hex(d as u64, 0)),
        None => None,
    };
    let last_duid_label: Option<&'static str> = match last_duid {
        Some(d) => Some(traffic_duid_label(d)),
        None => None,
    };
    let last_nac_hex: Option<String> = match last_nac {
        Some(n) => Some(prefixed_hex(n as u64, 3)),
        None => None,
    };
    TrafficReport {
        nco_word_hex: prefixed_hex(nco_word as u64, 8),
        last_duid_hex,
        last_duid_label,
        last_nac_hex,
        dibit_next_addr_hex: prefixed_hex(dibit_next_address as u64, 8),
        current_call_encrypted: if current_talkgroup.is_some() {
            Some(forwarder.call_encrypted)
        } else {
            None
        },
        last_imbe_ms_ago: if forwarder.last_imbe_at_millis == 0 {
            None
        } else {
            Some(elapsed_ns(forwarder.last_imbe_at_millis, now_millis))
        },
    }
}

/// The best sync distance as it is shown where a number is needed: 99 before
/// the first observation.
pub fn shown_best_distance(best: u32) -> (shown: u32)
    ensures
        shown == if best == u32::MAX {
            99
        } else {
            best
        },
{
    if best == u32::MAX {
        99
    } else {
        best
    }
}

proof fn lemma_switch_words()
    ensures
        "on"@ != "off"@,
        "on"@ != "0"@,
        "on"@ != "false"@,
        "1"@ != "off"@,
        "1"@ != "0"@,
        "1"@ != "false"@,
        "true"@ != "off"@,
        "true"@ != "0"@,
        "true"@ != "false"@,
{
    reveal_strlit("on");
    reveal_strlit("off");
    reveal_strlit("1");
    reveal_strlit("0");
    reveal_strlit("true");
    reveal_strlit("false");
    assert("on"@.len() == 2 && "off"@.len() == 3 && "1"@.len() == 1 && "0"@.len() == 1);
    assert("true"@.len() == 4 && "false"@.len() == 5);
    assert("1"@[0] == '1' && "0"@[0] == '0');
}

/// A switch is on for `on`, `1` and `true`, off for `off`, `0` and `false`, and
/// nothing else is a switch.
pub proof fn switches_are_read(v: Seq<char>)
    ensures
        switch_value(v) == Some(true) <==> v == "on"@ || v == "1"@ || v == "true"@,
        switch_value(v) == Some(false) <==> v == "off"@ || v == "0"@ || v == "false"@,
{
    lemma_switch_words();
}

/// An offset of up to 4 MHz either way is tuned to: the first access gives the
/// traffic chain's oscillator the nearest step of 2^-28 turns at 8 MHz, and the
/// offset is remembered. Any other offset changes nothing and is refused.
pub proof fn manual_tuning_is_obeyed(c: TrafficControls, before: ManualTuning, n: i64)
    requires
        c.retune_hz matches Some(v) && v@ == crate::text::signed_decimal(n as int),
    ensures
        -4_000_000 <= n <= 4_000_000 ==> {
            &&& tuning_after(c, before).last_offset_hz == n
            &&& control_ops(c).len() > 0
            &&& (control_ops(c)[0] matches BusOp::DdcFrequency { chain, word } && chain
                == Chain::Traffic && ({
                let turns = if word < 0x8000_0000 {
                    word as int
                } else {
                    word - 0x1_0000_0000
                };
                -4_000_000 <= turns * 8_000_000 - n * 0x1000_0000 <= 4_000_000
            }))
        },
        !(-4_000_000 <= n <= 4_000_000) ==> {
            &&& tuning_after(c, before) == before
            &&& forall|i: int|
                0 <= i < control_ops(c).len() ==> !((#[trigger] control_ops(c)[i]) is DdcFrequency)
            &&& error_lines(c).len() > 0
        },
{
    crate::text::parsing_undoes_signed_rendering(n);
    if -4_000_000 <= n <= 4_000_000 {
        crate::fpga::nco::increment_is_nearest(n as int, 8_000_000);
        let inc = crate::fpga::nco::phase_increment(n as int, 8_000_000);
        assert(-0x8000_0000 < inc < 0x8000_0000);
    } else {
        let line = lines::line_of(
            Some(
                "retune_hz="@ + crate::text::signed_decimal(n as int)
                    + " rejected: traffic DDC frequency "@ + c.shown_offset@ + " Hz out of range"@,
            ),
        );
        assert(line.len() == 1);
    }
}

/// Without an offset that reads as a number nothing is tuned.
pub proof fn nothing_is_tuned_unasked(c: TrafficControls, before: ManualTuning, i: int)
    requires
        c.retune_hz is None || (0 < i < c.retune_hz->0@.len() && !('0' <= c.retune_hz->0@[i]
            && c.retune_hz->0@[i] <= '9')),
    ensures
        tuning_after(c, before) == before,
        forall|k: int|
            0 <= k < control_ops(c).len() ==> !((#[trigger] control_ops(c)[k]) is DdcFrequency),
{
    if let Some(v) = c.retune_hz {
        crate::text::other_texts_are_no_numbers(v@, 0, i);
    }
}

/// The demodulator is switched as it is asked, after tuning, and not at all
/// where it is not.
pub proof fn demodulator_switch_is_obeyed(c: TrafficControls)
    ensures
        c.demod_enable matches Some(v) ==> v@ == "on"@ || v@ == "1"@ || v@ == "true"@ ==> {
            &&& control_ops(c).len() > 0
            &&& control_ops(c).last() == (BusOp::DemodEnable {
                chain: Chain::Traffic,
                enable: true,
            })
        },
        c.demod_enable matches Some(v) ==> v@ == "off"@ || v@ == "0"@ || v@ == "false"@ ==> {
            &&& control_ops(c).len() > 0
            &&& control_ops(c).last() == (BusOp::DemodEnable {
                chain: Chain::Traffic,
                enable: false,
            })
        },
        c.demod_enable is None ==> forall|i: int|
            0 <= i < control_ops(c).len() ==> !((#[trigger] control_ops(c)[i]) is DemodEnable),
        control_ops(c).len() <= 2,
{
    if let Some(v) = c.demod_enable {
        switches_are_read(v@);
    }
}

/// Every control that is given is answered with one line, carried out or
/// refused; a reset is answered where it is carried out, for `1` alone.
pub proof fn every_control_is_answered_once(c: TrafficControls)
    ensures
        applied_lines(c).len() + error_lines(c).len() == (if c.follower is Some {
            1int
        } else {
            0
        }) + (if c.retune_hz is Some {
            1int
        } else {
            0
        }) + (if c.demod_enable is Some {
            1int
        } else {
            0
        }) + (if c.reset_stats is Some && c.reset_stats->0@ == "1"@ {
            1int
        } else {
            0
        }),
        resets(c) <==> (c.reset_stats matches Some(v) && v@ == "1"@),
{
}

/// A request whose controls can all be read and reached is not refused, and one
/// that asks for nothing does nothing.
pub proof fn readable_controls_are_not_refused(c: TrafficControls, n: i64)
    requires
        c.follower matches Some(v) ==> switch_value(v@) is Some,
        c.demod_enable matches Some(v) ==> switch_value(v@) is Some,
        c.retune_hz matches Some(v) ==> v@ == crate::text::signed_decimal(n as int) && -4_000_000
            <= n <= 4_000_000,
    ensures
        error_lines(c).len() == 0,
        c.follower is None && c.demod_enable is None && c.retune_hz is None && c.reset_stats is None
            ==> applied_lines(c).len() == 0 && control_ops(c).len() == 0,
{
    crate::text::parsing_undoes_signed_rendering(n);
}

/// Counting begins at zero, with no time seen.
pub proof fn counting_begins_at_zero(d: u64)
    ensures
        no_traffic().started_at is None,
        no_traffic().last_at is None,
        no_traffic().wakeups == 0,
        no_traffic().total_buffers == 0,
        no_traffic().total_bytes == 0,
        no_traffic().total_dibits == 0,
        no_traffic().dibit_hist.count(d) == 0,
        no_traffic().dibit_hist.sum() == 0,
{
}

/// A hexadecimal text begins with its prefix, has the digits asked for, and
/// denotes the number.
pub proof fn hexadecimal_texts_denote_numbers(n: nat, width: nat)
    ensures
        hex_text(n, width).len() >= 2 + width,
        hex_text(n, width)[0] == '0',
        hex_text(n, width)[1] == 'x',
        crate::text::hex_value(hex_text(n, width).skip(2)) == n,
{
    crate::text::hexadecimal_denotes_the_number(n, width);
    assert(hex_text(n, width).skip(2) =~= crate::text::zero_padded(
        crate::text::upper_hex(n),
        width,
    ));
}

/// No two data units have the same name, and there are seven with a name: the
/// two that end a call differ from all that carry voice.
pub proof fn data_units_have_their_own_names(a: u8, b: u8)
    ensures
        shown_duid(a) == shown_duid(b) && shown_duid(a) != "?"@ ==> a == b,
        shown_duid(a) != "?"@ <==> a == 0 || a == 3 || a == 5 || a == 7 || a == 10 || a == 12 || a
            == 15,
{
    reveal_strlit("HDU");
    reveal_strlit("TDU");
    reveal_strlit("LDU1");
    reveal_strlit("TSDU");
    reveal_strlit("LDU2");
    reveal_strlit("PDU");
    reveal_strlit("TDU_LC");
    reveal_strlit("?");
    assert("HDU"@[0] == 'H' && "TDU"@[0] == 'T' && "PDU"@[0] == 'P' && "?"@[0] == '?');
    assert("LDU1"@[3] == '1' && "LDU2"@[3] == '2' && "TSDU"@[3] == 'U');
    assert("HDU"@.len() == 3 && "TDU"@.len() == 3 && "PDU"@.len() == 3 && "?"@.len() == 1);
    assert("LDU1"@.len() == 4 && "LDU2"@.len() == 4 && "TSDU"@.len() == 4 && "TDU_LC"@.len() == 6);
}

/// A data unit of a call has the same name in the log and on the traffic page.
pub proof fn data_units_have_one_name(duid: u8)
    ensures
        crate::follower::duid_name(duid) != "DUID?"@ ==> crate::follower::duid_name(duid)
            == shown_duid(duid),
        duid == 0 || duid == 3 || duid == 5 || duid == 10 || duid == 15 ==> crate::follower::duid_name(
            duid,
        ) == shown_duid(duid),
{
}

/// The word that is remembered of manual tuning is that of the offset, cut off
/// to whole steps: at or above the centre the largest that does not go beyond
/// the offset, below it a whole turn less the word of the opposite offset.
pub proof fn remembered_words_are_of_the_offset(c: TrafficControls, before: ManualTuning, n: i64)
    requires
        c.retune_hz matches Some(v) && v@ == crate::text::signed_decimal(n as int),
        -4_000_000 <= n <= 4_000_000,
    ensures
        ({
            let word = tuning_after(c, before).nco_word;
            &&& n >= 0 ==> word * 8_000_000 <= n * 0x1000_0000 < (word + 1) * 8_000_000
            &&& n < 0 && word > 0 ==> (0x1000_0000 - word) * 8_000_000 <= -n * 0x1000_0000 < (
            0x1000_0000 - word + 1) * 8_000_000
            &&& n < 0 && word == 0 ==> -n * 0x1000_0000 < 8_000_000
        }),
{
    crate::text::parsing_undoes_signed_rendering(n);
    if n >= 0 {
        crate::fpga::nco::shown_words_are_cut_off(n as int, 8_000_000);
    } else {
        crate::fpga::nco::shown_words_are_cut_off(-n, 8_000_000);
    }
}

/// What is done is said: the switches as they were set, and the offset tuned to.
pub proof fn what_is_done_is_said(c: TrafficControls, n: i64)
    ensures
        c.follower matches Some(v) ==> switch_value(v@) == Some(true) ==> applied_lines(c).contains(
            "follower=on"@,
        ),
        c.follower matches Some(v) ==> switch_value(v@) == Some(false) ==> applied_lines(c).contains(
            "follower=off"@,
        ),
        c.demod_enable matches Some(v) ==> switch_value(v@) == Some(true) ==> applied_lines(
            c,
        ).contains("demod_enable=true"@),
        c.demod_enable matches Some(v) ==> switch_value(v@) == Some(false) ==> applied_lines(
            c,
        ).contains("demod_enable=false"@),
        c.retune_hz matches Some(v) ==> v@ == crate::text::signed_decimal(n as int) && -4_000_000
            <= n <= 4_000_000 ==> applied_lines(c).contains(
            "retune_hz="@ + crate::text::signed_decimal(n as int),
        ),
        resets(c) ==> applied_lines(c).contains("reset_stats=1"@),
{
    crate::text::parsing_undoes_signed_rendering(n);
    let lines = applied_lines(c);
    let i: int = if resets(c) {
        1
    } else {
        0
    };
    let j: int = i + (if c.follower is Some && switch_value(c.follower->0@) is Some {
        1int
    } else {
        0
    });
    if resets(c) {
        assert(lines[0] == "reset_stats=1"@);
    }
    if let Some(v) = c.follower {
        if switch_value(v@) == Some(true) {
            assert(lines[i] == "follower=on"@);
        } else if switch_value(v@) == Some(false) {
            assert(lines[i] == "follower=off"@);
        }
    }
    if let Some(v) = c.retune_hz {
        if v@ == crate::text::signed_decimal(n as int) && -4_000_000 <= n <= 4_000_000 {
            assert(lines[j] == "retune_hz="@ + crate::text::signed_decimal(n as int));
        }
    }
    if let Some(v) = c.demod_enable {
        if switch_value(v@) == Some(true) {
            assert(lines.last() == "demod_enable=true"@);
        } else if switch_value(v@) == Some(false) {
            assert(lines.last() == "demod_enable=false"@);
        }
    }
}

/// What is refused is said with the text that could not be read.
pub proof fn what_is_refused_is_said(c: TrafficControls)
    ensures
        c.follower matches Some(v) ==> switch_value(v@) is None ==> error_lines(c).contains(
            "follower="@ + v@ + ": expected on|off|1|0|true|false"@,
        ),
        c.demod_enable matches Some(v) ==> switch_value(v@) is None ==> error_lines(c).contains(
            "demod_enable="@ + v@ + ": expected 0|1|on|off|true|false"@,
        ),
        c.retune_hz matches Some(v) ==> crate::text::signed_value(v@) is None ==> error_lines(
            c,
        ).contains("retune_hz="@ + v@ + ": expected signed integer Hz offset"@),
{
    let lines = error_lines(c);
    let i: int = if c.follower is Some && switch_value(c.follower->0@) is None {
        1
    } else {
        0
    };
    if let Some(v) = c.follower {
        if switch_value(v@) is None {
            assert(lines[0] == "follower="@ + v@ + ": expected on|off|1|0|true|false"@);
        }
    }
    if let Some(v) = c.retune_hz {
        if crate::text::signed_value(v@) is None {
            assert(lines[i] == "retune_hz="@ + v@ + ": expected signed integer Hz offset"@);
        }
    }
    if let Some(v) = c.demod_enable {
        if switch_value(v@) is None {
            assert(lines.last() == "demod_enable="@ + v@ + ": expected 0|1|on|off|true|false"@);
        }
    }
}

} // verus!
