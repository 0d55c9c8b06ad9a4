//! Tuning of the frame decoders at run time.

use vstd::prelude::*;
use crate::clock::elapsed_ns;
use crate::fpga::ip_core;
use crate::fpga::ip_core::IpCore;
use crate::fpga::registers::{BusOp, Chain, LsmControlFields};
use crate::httpd::lines;
use crate::httpd::lines::{numbered, surrounded, surrounded_number};
use crate::lsm::nid_fec::T_MAX_ERRORS;
use crate::slices::sum_slice;
use crate::text::{append_decimal, is_text, parse_unsigned, quoted_text, same_text};

verus! {

/// The largest threshold of the frame synchronisation, in wrong dibits.
pub const MAX_SYNC_THRESHOLD: u32 = 24;

/// The number that a text gives, where it is a 32-bit one.
pub open spec fn number_given(given: Option<&str>) -> Option<u32> {
    match given {
        Some(v) => match crate::text::unsigned_value(v@, u32::MAX as int) {
            Some(n) => Some(n as u32),
            None => None,
        },
        None => None,
    }
}

fn read_number(given: Option<&str>) -> (n: Option<u32>)
    ensures
        n == number_given(given),
{
    match given {
        Some(v) => match parse_unsigned(v, u32::MAX as u64) {
            Some(n) => Some(n as u32),
            None => None,
        },
        None => None,
    }
}

// ---------------------------------------------------------------------------
// Threshold of the frame synchronisation
// ---------------------------------------------------------------------------

/// What is shown of the threshold and of the distances that were seen.
pub struct SyncTuneReport {
    pub current_threshold: u32,
    /// The threshold before, where the request changed it.
    pub updated_from: Option<u32>,
    pub total_observations: u64,
    /// How many frames each threshold lets through.
    pub cumulative_at_threshold: Vec<u64>,
}

/// The threshold that a request sets, where it sets one.
pub open spec fn threshold_asked(given: Option<&str>) -> Option<u32> {
    match number_given(given) {
        Some(n) => if n <= MAX_SYNC_THRESHOLD {
            Some(n)
        } else {
            None
        },
        None => None,
    }
}

/// Set the threshold, where one is given that is allowed, and show it with the
/// distances that were seen.
pub fn get_sync_tune(threshold: &mut u32, given: Option<&str>, hist: &[u64; 25]) -> (r:
    SyncTuneReport)
    requires
        crate::slices::sum_of(hist@) <= u64::MAX,
    ensures
        *final(threshold) == match threshold_asked(given) {
            Some(n) => n,
            None => *old(threshold),
        },
        r.current_threshold == *final(threshold),
        r.updated_from == match threshold_asked(given) {
            Some(_) => Some(*old(threshold)),
            None => None,
        },
        r.total_observations == crate::slices::sum_of(hist@),
        r.cumulative_at_threshold@.len() == 25,
        forall|i: int|
            0 <= i < 25 ==> (#[trigger] r.cumulative_at_threshold@[i]) == crate::slices::sum_of(
                hist@.take(i + 1),
            ),
{
    let mut updated_from: Option<u32> = None;
    match read_number(given) {
        Some(n) => {
            if n <= MAX_SYNC_THRESHOLD {
                updated_from = Some(*threshold);
                *threshold = n;
            }
        },
        None => {},
    }
    let mut cumulative: Vec<u64> = Vec::new();
    let mut running: u64 = 0;
    let mut i: usize = 0;
    assert(hist@.take(0) =~= Seq::<u64>::empty());
    while i < 25
        invariant
            i <= 25,
            crate::slices::sum_of(hist@) <= u64::MAX,
            running == crate::slices::sum_of(hist@.take(i as int)),
            cumulative@.len() == i,
            forall|k: int|
                0 <= k < i ==> (#[trigger] cumulative@[k]) == crate::slices::sum_of(
                    hist@.take(k + 1),
                ),
        decreases 25 - i,
    {
        proof {
            crate::slices::sum_of_prefix(hist@, i + 1);
            assert(hist@.take(i + 1).drop_last() =~= hist@.take(i as int));
        }
        running = running + hist[i];
        cumulative.push(running);
        i = i + 1;
    }
    SyncTuneReport {
        current_threshold: *threshold,
        updated_from,
        total_observations: sum_slice(hist.as_slice()),
        cumulative_at_threshold: cumulative,
    }
}

/// What a request does to the thresholds. A decoder's own threshold stands in
/// place of the one for all; `None` takes it away.
#[derive(Debug, Clone, Copy, PartialEq, Eq, Structural)]
pub enum SyncTuneChange {
    Traffic(Option<u32>),
    Control(Option<u32>),
    All(u32),
    Refused,
}

/// The change that a request makes.
pub open spec fn change_asked(side: Option<&str>, given: Option<&str>) -> SyncTuneChange {
    let resets = given is Some && (given->0@ == "reset"@ || given->0@ == "null"@);
    let value = threshold_asked(given);
    match side {
        None => if !resets && value is Some {
            SyncTuneChange::All(value->0)
        } else {
            SyncTuneChange::Refused
        },
        Some(s) => if !resets && value is None {
            SyncTuneChange::Refused
        } else if s@ == "traffic"@ {
            SyncTuneChange::Traffic(
                if resets {
                    None
                } else {
                    value
                },
            )
        } else if s@ == "control"@ {
            SyncTuneChange::Control(
                if resets {
                    None
                } else {
                    value
                },
            )
        } else {
            SyncTuneChange::Refused
        },
    }
}

/// Read a request to change a threshold.
pub fn put_sync_tune(side: Option<&str>, given: Option<&str>) -> (change: SyncTuneChange)
    ensures
        change == change_asked(side, given),
{
    let resets: bool = is_text(given, "reset") || is_text(given, "null");
    let value: Option<u32> = match read_number(given) {
        Some(n) => if n <= MAX_SYNC_THRESHOLD {
            Some(n)
        } else {
            None
        },
        None => None,
    };
    if !resets && value.is_none() {
        return SyncTuneChange::Refused;
    }
    let own: Option<u32> = if resets {
        None
    } else {
        value
    };
    match side {
        None => match own {
            Some(n) => SyncTuneChange::All(n),
            None => SyncTuneChange::Refused,
        },
        Some(s) => if same_text(s, "traffic") {
            SyncTuneChange::Traffic(own)
        } else if same_text(s, "control") {
            SyncTuneChange::Control(own)
        } else {
            SyncTuneChange::Refused
        },
    }
}

impl SyncTuneChange {
    /// The line that is logged: of a decoder's own threshold that was set.
    pub fn log_line(&self) -> (line: Option<String>)
        ensures
            match *self {
                SyncTuneChange::Traffic(Some(n)) => {
                    &&& line is Some
                    &&& line->0@ == "sync threshold: traffic-side -> "@ + crate::text::decimal(
                        n as nat,
                    )
                },
                SyncTuneChange::Control(Some(n)) => {
                    &&& line is Some
                    &&& line->0@ == "sync threshold: control-side -> "@ + crate::text::decimal(
                        n as nat,
                    )
                },
                _ => line is None,
            },
    {
        match self {
            SyncTuneChange::Traffic(Some(n)) => Some(
                numbered("sync threshold: traffic-side -> ", *n as u64),
            ),
            SyncTuneChange::Control(Some(n)) => Some(
                numbered("sync threshold: control-side -> ", *n as u64),
            ),
            _ => None,
        }
    }
}

/// No request sets a threshold that is out of range.
pub proof fn thresholds_stay_in_range(side: Option<&str>, given: Option<&str>)
    ensures
        match change_asked(side, given) {
            SyncTuneChange::Traffic(Some(n)) => n <= 24,
            SyncTuneChange::Control(Some(n)) => n <= 24,
            SyncTuneChange::All(n) => n <= 24,
            _ => true,
        },
{
}

/// A higher threshold lets no fewer frames through, and the highest all.
pub proof fn cumulative_counts_grow(hist: Seq<u64>, i: int, j: int)
    requires
        0 <= i <= j <= hist.len(),
    ensures
        crate::slices::sum_of(hist.take(i)) <= crate::slices::sum_of(hist.take(j)),
        hist.take(hist.len() as int) == hist,
{
    assert(hist.take(j).take(i) =~= hist.take(i));
    crate::slices::sum_of_prefix(hist.take(j), i);
    assert(hist.take(hist.len() as int) =~= hist);
}

// ---------------------------------------------------------------------------
// Error bound of the NID decoder
// ---------------------------------------------------------------------------

/// A new error bound, and the decoders that it is for.
#[derive(Debug, Clone, Copy, PartialEq, Eq, Structural)]
pub struct BchTChange {
    pub control: bool,
    pub traffic: bool,
    /// The bound; `None` for the default.
    pub value: Option<u32>,
}

/// Whether a text asks for the default.
pub open spec fn asks_default(given: Option<&str>) -> bool {
    given is None || given->0@ == "reset"@ || given->0@ == "null"@ || given->0@.len() == 0
}

/// The side that is named, the traffic side where none is.
pub open spec fn side_named(side: Option<&str>) -> Seq<char> {
    match side {
        Some(s) => s@,
        None => "traffic"@,
    }
}

/// The change for a bound.
pub open spec fn bound_change(side: Option<&str>, value: Option<u32>) -> BchTChange {
    BchTChange {
        control: side_named(side) == "control"@ || side_named(side) == "both"@,
        traffic: side_named(side) == "traffic"@ || side_named(side) == "both"@,
        value,
    }
}

/// Read a request for a new error bound.
pub fn put_bch_t(side: Option<&str>, given: Option<&str>) -> (r: Result<BchTChange, String>)
    ensures
        if asks_default(given) {
            r == Ok::<BchTChange, String>(bound_change(side, None))
        } else {
            match number_given(given) {
                Some(n) => if n <= 11 {
                    r == Ok::<BchTChange, String>(bound_change(side, Some(n)))
                } else {
                    r is Err && r->Err_0@ == "value="@ + crate::text::decimal(n as nat)
                        + " out of range (max = "@ + crate::text::decimal(11)
                        + ")"@
                },
                None => r is Err && r->Err_0@ == "value="@ + crate::text::quoted(given->0@)
                    + " not an integer or 'reset'"@,
            }
        },
{
    let name: &str = match side {
        Some(s) => s,
        None => "traffic",
    };
    let both: bool = same_text(name, "both");
    let control: bool = both || same_text(name, "control");
    let traffic: bool = both || same_text(name, "traffic");
    let given_text: &str = match given {
        Some(v) => v,
        None => {
            return Ok(BchTChange { control, traffic, value: None });
        },
    };
    proof {
        reveal_strlit("");
        assert((given_text@ == ""@) == (given_text@.len() == 0)) by {
            if given_text@.len() == 0 {
                assert(given_text@ =~= ""@);
            }
        }
    }
    if same_text(given_text, "reset") || same_text(given_text, "null") || same_text(given_text, "") {
        return Ok(BchTChange { control, traffic, value: None });
    }
    match read_number(given) {
        Some(n) => {
            if n <= T_MAX_ERRORS {
                Ok(BchTChange { control, traffic, value: Some(n) })
            } else {
                let mut s = surrounded_number("value=", n as u64, " out of range (max = ");
                append_decimal(&mut s, T_MAX_ERRORS as u64);
                s.append(")");
                Err(s)
            }
        },
        None => {
            let shown: String = quoted_text(given_text);
            Err(surrounded("value=", shown.as_str(), " not an integer or 'reset'"))
        },
    }
}

/// A value as it is logged.
pub open spec fn shown_value(value: Option<u32>) -> Seq<char> {
    match value {
        Some(n) => "Some("@ + crate::text::decimal(n as nat) + ")"@,
        None => "None"@,
    }
}

/// The line that is logged of a new error bound.
pub fn bch_t_log_line(side: Option<&str>, value: Option<u32>) -> (s: String)
    ensures
        s@ == "bch_t_override set: side="@ + side_named(side) + " value="@ + shown_value(value),
{
    let name: &str = match side {
        Some(s) => s,
        None => "traffic",
    };
    let mut s = surrounded("bch_t_override set: side=", name, " value=");
    match value {
        Some(n) => {
            let shown: String = surrounded_number("Some(", n as u64, ")");
            s.append(shown.as_str());
        },
        None => {
            s.append("None");
        },
    }
    s
}

impl BchTChange {
    /// The decoders that the change is for, by name.
    pub fn applied(&self) -> (names: Vec<&'static str>)
        ensures
            names@.len() == (if self.control {
                1int
            } else {
                0
            }) + (if self.traffic {
                1int
            } else {
                0
            }),
            self.control ==> names@[0]@ == "control"@,
            self.traffic ==> names@.last()@ == "traffic"@,
    {
        let mut names: Vec<&'static str> = Vec::new();
        if self.control {
            names.push("control");
        }
        if self.traffic {
            names.push("traffic");
        }
        names
    }
}

// ---------------------------------------------------------------------------
// Captures
// ---------------------------------------------------------------------------

/// What a request does to the ring of captured NIDs.
#[derive(Debug, Clone, Copy, PartialEq, Eq, Structural)]
pub enum CaptureAction {
    /// Hand the ring out and stop.
    Clear,
    /// Capture into a ring of this size.
    Arm(usize),
    /// Stop capturing; what was captured stays.
    Disarm,
    /// Only look.
    Look,
}

/// NIDs that are captured where no number is given.
pub const DEFAULT_CAPTURE_LIMIT: usize = 256;

/// NIDs that can be captured.
pub const MAX_CAPTURE_LIMIT: usize = 1024;

/// A request for captured NIDs.
#[derive(Debug, Clone, Copy, PartialEq, Eq, Structural)]
pub struct CaptureRequest {
    /// Whether it is for the traffic side.
    pub traffic: bool,
    pub action: CaptureAction,
}

/// The size of the ring that is asked for.
pub open spec fn limit_asked(limit: Option<&str>) -> int {
    match limit {
        Some(v) => match crate::text::unsigned_value(v@, usize::MAX as int) {
            Some(n) => if n <= MAX_CAPTURE_LIMIT {
                n
            } else {
                MAX_CAPTURE_LIMIT as int
            },
            None => DEFAULT_CAPTURE_LIMIT as int,
        },
        None => DEFAULT_CAPTURE_LIMIT as int,
    }
}

/// Read a request for captured NIDs.
pub fn nid_capture_request(
    side: Option<&str>,
    arm: Option<&str>,
    clear: Option<&str>,
    limit: Option<&str>,
) -> (r: CaptureRequest)
    ensures
        r.traffic == (side is Some && side->0@ == "traffic"@),
        r.action == if clear is Some && clear->0@ == "1"@ {
            CaptureAction::Clear
        } else if arm is Some && arm->0@ == "1"@ {
            CaptureAction::Arm(limit_asked(limit) as usize)
        } else if arm is Some && arm->0@ == "0"@ {
            CaptureAction::Disarm
        } else {
            CaptureAction::Look
        },
{
    let size: usize = match limit {
        Some(v) => match parse_unsigned(v, usize::MAX as u64) {
            Some(n) => if n <= MAX_CAPTURE_LIMIT as u64 {
                n as usize
            } else {
                MAX_CAPTURE_LIMIT
            },
            None => DEFAULT_CAPTURE_LIMIT,
        },
        None => DEFAULT_CAPTURE_LIMIT,
    };
    let action: CaptureAction = if is_text(clear, "1") {
        CaptureAction::Clear
    } else if is_text(arm, "1") {
        CaptureAction::Arm(size)
    } else if is_text(arm, "0") {
        CaptureAction::Disarm
    } else {
        CaptureAction::Look
    };
    CaptureRequest { traffic: is_text(side, "traffic"), action }
}

impl CaptureAction {
    /// What is said of the action, line by line.
    pub fn lines(&self) -> (said: Vec<String>)
        ensures
            lines::texts(said@) == match *self {
                CaptureAction::Clear => seq!["cleared"@],
                CaptureAction::Arm(n) => seq!["armed limit="@ + crate::text::decimal(n as nat)],
                CaptureAction::Disarm => seq!["disarmed"@],
                CaptureAction::Look => Seq::<Seq<char>>::empty(),
            },
    {
        let mut said: Vec<String> = Vec::new();
        match self {
            CaptureAction::Clear => said.push("cleared".to_owned()),
            CaptureAction::Arm(n) => said.push(numbered("armed limit=", *n as u64)),
            CaptureAction::Disarm => said.push("disarmed".to_owned()),
            CaptureAction::Look => {},
        }
        proof {
            match *self {
                CaptureAction::Clear => {
                    assert(lines::texts(said@) =~= seq!["cleared"@]);
                },
                CaptureAction::Arm(n) => {
                    assert(lines::texts(said@) =~= seq![
                        "armed limit="@ + crate::text::decimal(n as nat),
                    ]);
                },
                CaptureAction::Disarm => {
                    assert(lines::texts(said@) =~= seq!["disarmed"@]);
                },
                CaptureAction::Look => {
                    assert(lines::texts(said@) =~= Seq::<Seq<char>>::empty());
                },
            }
        }
        said
    }
}

/// How long an aligned capture is waited for, in nanoseconds.
pub const CAPTURE_WAIT_NS: u64 = 2_000_000_000;

/// Time between two looks for an aligned capture, in milliseconds.
pub const CAPTURE_POLL_MS: u64 = 50;

/// What to do after a look for an aligned capture.
#[derive(Debug, Clone, Copy, PartialEq, Eq, Structural)]
pub enum CaptureStep {
    /// Hand the capture out.
    Found,
    /// Give up: stop waiting for a frame.
    TimedOut,
    /// Look again later.
    Wait,
}

/// What to do after a look for an aligned capture that was asked for at
/// `armed_at`.
pub fn capture_step(found: bool, armed_at: u64, now: u64) -> (step: CaptureStep)
    ensures
        step == if found {
            CaptureStep::Found
        } else if now >= armed_at + 2_000_000_000 {
            CaptureStep::TimedOut
        } else {
            CaptureStep::Wait
        },
{
    if found {
        CaptureStep::Found
    } else if elapsed_ns(armed_at, now) >= CAPTURE_WAIT_NS {
        CaptureStep::TimedOut
    } else {
        CaptureStep::Wait
    }
}

// ---------------------------------------------------------------------------
// DC blocker
// ---------------------------------------------------------------------------

/// The state that a text asks of the DC blocker: `1` for on, `0` for off.
pub open spec fn dc_block_asked(given: Option<&str>) -> Option<bool> {
    match given {
        Some(v) => if v@ == "1"@ {
            Some(true)
        } else if v@ == "0"@ {
            Some(false)
        } else {
            None
        },
        None => None,
    }
}

/// Switch the DC blocker of the control channel, where a state is asked for.
/// The result is the state before; any other text changes nothing.
pub fn switch_dc_block(core: &mut IpCore, given: Option<&str>) -> (updated_from: Option<bool>)
    ensures
        match dc_block_asked(given) {
            Some(on) => {
                &&& updated_from == Some(old(core).bank.control.lsm.dc_block_enable)
                &&& ip_core::wrote(
                    *old(core),
                    *final(core),
                    seq![
                        BusOp::LsmControl {
                            chain: Chain::Control,
                            lsm: LsmControlFields {
                                dc_block_enable: Some(on),
                                ..ip_core::no_lsm_fields()
                            },
                        },
                    ],
                )
            },
            None => updated_from is None && *final(core) == *old(core),
        },
{
    let on: bool = if is_text(given, "1") {
        true
    } else if is_text(given, "0") {
        false
    } else {
        return None;
    };
    let (_, _, before) = core.lsm_control_readback();
    core.set_lsm_dc_block_enable(on);
    Some(before)
}

proof fn lemma_words_are_no_numbers(n: nat)
    ensures
        crate::text::decimal(n) != "reset"@,
        crate::text::decimal(n) != "null"@,
        crate::text::decimal(n).len() > 0,
        "traffic"@ != "control"@,
        "traffic"@ != "both"@,
        "control"@ != "both"@,
        "reset"@.len() == 5,
        "null"@.len() == 4,
{
    reveal_strlit("reset");
    reveal_strlit("null");
    reveal_strlit("traffic");
    reveal_strlit("control");
    reveal_strlit("both");
    crate::text::parsing_undoes_rendering(n, n as int);
    crate::text::other_texts_are_no_numbers("reset"@, n as int, 0);
    crate::text::other_texts_are_no_numbers("null"@, n as int, 0);
    crate::text::other_texts_are_no_numbers(crate::text::decimal(n), n as int, 0);
    assert("reset"@[0] == 'r' && "null"@[0] == 'n');
    assert("traffic"@[0] == 't' && "control"@[0] == 'c' && "both"@[0] == 'b');
}

/// A number of 32 bits is read as it stands, and no larger one.
pub proof fn numbers_are_read(given: Option<&str>, n: nat)
    requires
        given matches Some(v) && v@ == crate::text::decimal(n),
    ensures
        n < 0x1_0000_0000 ==> number_given(given) == Some(n as u32),
        n >= 0x1_0000_0000 ==> number_given(given) is None,
{
    if n < 0x1_0000_0000 {
        crate::text::parsing_undoes_rendering(n, u32::MAX as int);
    } else {
        crate::text::too_large_numbers_are_refused(n, u32::MAX as int);
    }
}

/// A threshold of up to 24 is set where it is asked for: for the decoder that is
/// named, or for all where none is. Any other threshold, and any other name, is
/// refused.
pub proof fn thresholds_are_obeyed(side: Option<&str>, given: Option<&str>, n: nat)
    requires
        given matches Some(v) && v@ == crate::text::decimal(n),
    ensures
        threshold_asked(given) == if n <= 24 {
            Some(n as u32)
        } else {
            None
        },
        n <= 24 && side is None ==> change_asked(side, given) == SyncTuneChange::All(n as u32),
        n <= 24 && (side matches Some(s) && s@ == "traffic"@) ==> change_asked(side, given)
            == SyncTuneChange::Traffic(Some(n as u32)),
        n <= 24 && (side matches Some(s) && s@ == "control"@) ==> change_asked(side, given)
            == SyncTuneChange::Control(Some(n as u32)),
        (side matches Some(s) && s@ != "traffic"@ && s@ != "control"@) ==> change_asked(side, given)
            == SyncTuneChange::Refused,
        n > 24 ==> change_asked(side, given) == SyncTuneChange::Refused,
{
    lemma_words_are_no_numbers(n);
    numbers_are_read(given, n);
}

/// `reset` and `null` take a decoder's own threshold away, and none for all.
pub proof fn resets_are_obeyed(side: Option<&str>, given: Option<&str>)
    requires
        given matches Some(v) && (v@ == "reset"@ || v@ == "null"@),
    ensures
        (side matches Some(s) && s@ == "traffic"@) ==> change_asked(side, given)
            == SyncTuneChange::Traffic(None),
        (side matches Some(s) && s@ == "control"@) ==> change_asked(side, given)
            == SyncTuneChange::Control(None),
        side is None ==> change_asked(side, given) == SyncTuneChange::Refused,
        asks_default(given),
        threshold_asked(given) is None,
{
    lemma_words_are_no_numbers(0);
    reveal_strlit("reset");
    reveal_strlit("null");
    crate::text::other_texts_are_no_numbers(given->0@, u32::MAX as int, 0);
}

/// Without a threshold nothing is set.
pub proof fn nothing_is_set_unasked(side: Option<&str>)
    ensures
        threshold_asked(None) is None,
        change_asked(side, None) == SyncTuneChange::Refused,
        number_given(None) is None,
        asks_default(None),
{
}

/// The default of the error bound is asked for by no text, by an empty one and
/// by `reset` and `null`, and never by a number.
pub proof fn defaults_are_asked_for(given: Option<&str>, n: nat)
    ensures
        given matches Some(v) ==> v@ == crate::text::decimal(n) ==> !asks_default(given),
        given matches Some(v) ==> v@.len() == 0 ==> asks_default(given),
        given matches Some(v) ==> asks_default(given) ==> v@.len() == 0 || v@.len() == 4 || v@.len()
            == 5,
{
    lemma_words_are_no_numbers(n);
}

/// A bound is for the decoder that is named, for both where both are, for the
/// traffic side where none is, and for none under any other name.
pub proof fn bounds_are_for_the_side_named(side: Option<&str>, value: Option<u32>)
    ensures
        bound_change(side, value).value == value,
        side is None ==> bound_change(side, value).traffic && !bound_change(side, value).control,
        side matches Some(s) ==> s@ == "traffic"@ ==> bound_change(side, value).traffic
            && !bound_change(side, value).control,
        side matches Some(s) ==> s@ == "control"@ ==> bound_change(side, value).control
            && !bound_change(side, value).traffic,
        side matches Some(s) ==> s@ == "both"@ ==> bound_change(side, value).control
            && bound_change(side, value).traffic,
        side matches Some(s) ==> s@ != "both"@ && s@ != "control"@ && s@ != "traffic"@
            ==> !bound_change(side, value).control && !bound_change(side, value).traffic,
        side matches Some(s) ==> side_named(side) == s@,
{
    lemma_words_are_no_numbers(0);
}

/// Different values are logged differently.
pub proof fn values_are_told_apart(a: Option<u32>, b: Option<u32>)
    requires
        shown_value(a) == shown_value(b),
    ensures
        a == b,
{
    reveal_strlit("Some(");
    reveal_strlit("None");
    reveal_strlit(")");
    assert("Some("@.len() == 5 && "Some("@[0] == 'S');
    assert("None"@.len() == 4 && "None"@[0] == 'N');
    assert(")"@.len() == 1);
    match (a, b) {
        (Some(m), Some(n)) => {
            let s = shown_value(a);
            assert(s.subrange(5, s.len() - 1) =~= crate::text::decimal(m as nat));
            assert(s.subrange(5, s.len() - 1) =~= crate::text::decimal(n as nat));
            crate::text::decimals_are_unique(m as nat, n as nat);
        },
        (Some(_), None) => {
            assert(shown_value(a)[0] == 'S');
        },
        (None, Some(_)) => {
            assert(shown_value(b)[0] == 'S');
        },
        (None, None) => {},
    }
}

/// As many NIDs are captured as are asked for, up to 1024; 256 where no number
/// is given.
pub proof fn capture_limits_are_obeyed(limit: Option<&str>, n: nat)
    ensures
        limit is None ==> limit_asked(limit) == 256,
        limit matches Some(v) ==> v@ == crate::text::decimal(n) && n <= 1024 ==> limit_asked(limit)
            == n,
        limit matches Some(v) ==> v@ == crate::text::decimal(n) && 1024 < n <= usize::MAX
            ==> limit_asked(limit) == 1024,
        limit matches Some(v) ==> v@.len() == 0 ==> limit_asked(limit) == 256,
        0 <= limit_asked(limit) <= 1024,
{
    if let Some(v) = limit {
        crate::text::numbers_are_in_range(v@, usize::MAX as int);
        crate::text::other_texts_are_no_numbers(v@, usize::MAX as int, 0);
        if n <= usize::MAX {
            crate::text::parsing_undoes_rendering(n, usize::MAX as int);
        }
    }
}

/// The DC blocker is switched on by `1`, off by `0`, and by nothing else.
pub proof fn dc_block_is_switched_by_digit(given: Option<&str>)
    ensures
        dc_block_asked(given) == Some(true) <==> (given matches Some(v) && v@ == "1"@),
        dc_block_asked(given) == Some(false) <==> (given matches Some(v) && v@ == "0"@),
{
    reveal_strlit("0");
    reveal_strlit("1");
    assert("0"@[0] == '0' && "1"@[0] == '1');
}

} // verus!
