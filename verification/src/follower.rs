//! Following calls: which grants are followed, and what a data unit on the
//! traffic channel means.

use vstd::prelude::*;
use crate::fpga::ip_core::LsmStatusSnapshot;
use crate::monitor::MonitorList;
use crate::text::{append_decimal, append_padded, append_upper_hex};
use crate::voice::ImbeForwarder;
use std::collections::HashSet;

verus! {

broadcast use vstd::std_specs::hash::group_hash_axioms;

/// A grant as the control channel announced it.
#[derive(Debug, Clone, Copy, PartialEq, Eq, Structural)]
pub struct GrantEvent {
    pub talkgroup: u16,
    pub channel: u16,
    /// Where the channel is, if its band is known.
    pub frequency_hz: Option<u64>,
    pub source: Option<u32>,
    pub encrypted: bool,
    pub emergency: bool,
}

/// What becomes of a grant.
#[derive(Debug, Clone, Copy, PartialEq, Eq, Structural)]
pub enum GrantDecision {
    /// Following is switched off.
    Ignored,
    /// The talkgroup is not monitored.
    NotMonitored,
    /// Another talkgroup is followed.
    StickyLocked { locked: u16 },
    /// The call is encrypted, or its talkgroup was before. A call of that
    /// talkgroup that is followed is torn down.
    Encrypted { was_locked: bool },
    /// The grant is followed.
    Accepted,
}

/// What becomes of a grant, with `history` the talkgroups that were seen
/// encrypted before it.
pub open spec fn decision_for(
    enabled: bool,
    monitored: Seq<u16>,
    history: Set<u16>,
    locked: Option<u16>,
    g: GrantEvent,
) -> GrantDecision {
    if !enabled {
        GrantDecision::Ignored
    } else if monitored.len() > 0 && !monitored.contains(g.talkgroup) {
        GrantDecision::NotMonitored
    } else if locked is Some && locked->0 != g.talkgroup {
        GrantDecision::StickyLocked { locked: locked->0 }
    } else if g.encrypted || history.contains(g.talkgroup) {
        GrantDecision::Encrypted { was_locked: locked == Some(g.talkgroup) }
    } else {
        GrantDecision::Accepted
    }
}

/// The talkgroups ever seen encrypted, after a grant.
pub open spec fn history_after(enabled: bool, history: Set<u16>, g: GrantEvent) -> Set<u16> {
    if enabled && g.encrypted {
        history.insert(g.talkgroup)
    } else {
        history
    }
}

/// Decide on a grant. An encrypted one is remembered before anything else is
/// asked; tearing a call down forgets the talkgroup that is followed but keeps
/// the mark that the call is encrypted.
pub fn decide_grant(
    enabled: bool,
    monitor: &MonitorList,
    forwarder: &mut ImbeForwarder,
    locked: Option<u16>,
    g: &GrantEvent,
) -> (decision: GrantDecision)
    requires
        monitor.wf(),
    ensures
        decision == decision_for(
            enabled,
            monitor@,
            old(forwarder).encrypted_tg_history@,
            locked,
            *g,
        ),
        final(forwarder).encrypted_tg_history@ == history_after(
            enabled,
            old(forwarder).encrypted_tg_history@,
            *g,
        ),
        final(forwarder).current_talkgroup == if decision == (GrantDecision::Encrypted {
            was_locked: true,
        }) {
            0
        } else {
            old(forwarder).current_talkgroup
        },
        final(forwarder).call_encrypted == old(forwarder).call_encrypted,
        final(forwarder).vocoder_reset_pending == old(forwarder).vocoder_reset_pending,
        final(forwarder).counts() == old(forwarder).counts(),
        final(forwarder).imbe_ring == old(forwarder).imbe_ring,
{
    if !enabled {
        return GrantDecision::Ignored;
    }
    if g.encrypted {
        forwarder.encrypted_tg_history.insert(g.talkgroup);
    }
    if !monitor.is_empty() && !monitor.contains(g.talkgroup) {
        return GrantDecision::NotMonitored;
    }
    let was_locked: bool = match locked {
        Some(tg) => {
            if tg != g.talkgroup {
                return GrantDecision::StickyLocked { locked: tg };
            }
            true
        },
        None => false,
    };
    if g.encrypted || forwarder.encrypted_tg_history.contains(&g.talkgroup) {
        if was_locked {
            forwarder.current_talkgroup = 0;
        }
        return GrantDecision::Encrypted { was_locked };
    }
    GrantDecision::Accepted
}

/// Whether a grant can be followed while no call is.
pub open spec fn can_follow(monitored: Seq<u16>, history: Set<u16>, g: GrantEvent) -> bool {
    decision_for(true, monitored, history, None, g) == GrantDecision::Accepted
}

/// Whether a grant comes before another: its talkgroup has the higher
/// priority or, with the same priority, it is the newer one.
pub open spec fn goes_first(monitored: Seq<u16>, grants: Seq<GrantEvent>, i: int, j: int) -> bool {
    let p = crate::monitor::place(monitored, grants[i].talkgroup);
    let q = crate::monitor::place(monitored, grants[j].talkgroup);
    p < q || (p == q && i >= j)
}

/// Whether `i` is the grant to follow while no call is: it can be followed,
/// and comes before every other one that can.
pub open spec fn is_pick(
    monitored: Seq<u16>,
    history: Set<u16>,
    grants: Seq<GrantEvent>,
    i: int,
) -> bool {
    &&& 0 <= i < grants.len()
    &&& can_follow(monitored, history, grants[i])
    &&& forall|j: int|
        0 <= j < grants.len() && can_follow(monitored, history, #[trigger] grants[j])
            ==> goes_first(monitored, grants, i, j)
}

/// Pick the grant to follow while no call is, out of those at hand in the order
/// in which they came: of the talkgroups that can be followed, the first on the
/// list wins, and its newest grant. With an empty list the newest grant wins.
/// `None` when none can be followed.
pub fn pick_grant(
    monitor: &MonitorList,
    history: &HashSet<u16>,
    grants: &[GrantEvent],
) -> (picked: Option<usize>)
    requires
        monitor.wf(),
    ensures
        match picked {
            Some(i) => is_pick(monitor@, history@, grants@, i as int),
            None => forall|j: int|
                0 <= j < grants@.len() ==> !can_follow(monitor@, history@, #[trigger] grants@[j]),
        },
{
    let open: bool = monitor.is_empty();
    let mut picked: Option<usize> = None;
    let mut best: usize = usize::MAX;
    let mut i: usize = 0;
    while i < grants.len()
        invariant
            i <= grants@.len(),
            monitor.wf(),
            open == (monitor@.len() == 0),
            match picked {
                Some(k) => {
                    &&& is_pick(monitor@, history@, grants@.take(i as int), k as int)
                    &&& best == crate::monitor::place(monitor@, grants@[k as int].talkgroup)
                },
                None => best == usize::MAX && forall|j: int|
                    0 <= j < i ==> !can_follow(monitor@, history@, #[trigger] grants@[j]),
            },
        decreases grants@.len() - i,
    {
        let g: &GrantEvent = &grants[i];
        let ghost before = picked;
        let ghost seen = grants@.take(i as int);
        let ghost more = grants@.take(i + 1);
        if (open || monitor.contains(g.talkgroup)) && !g.encrypted && !history.contains(
            &g.talkgroup,
        ) {
            let p: usize = monitor.priority_of(g.talkgroup);
            if p <= best {
                picked = Some(i);
                best = p;
            }
        }
        proof {
            assert(can_follow(monitor@, history@, *g) == ((open || monitor@.contains(g.talkgroup))
                && !g.encrypted && !history@.contains(g.talkgroup)));
            if picked is Some {
                let k = picked->0 as int;
                assert(more[k] == grants@[k]);
                assert forall|j: int|
                    0 <= j < more.len() && can_follow(
                        monitor@,
                        history@,
                        #[trigger] more[j],
                    ) implies goes_first(monitor@, more, k, j) by {
                    assert(more[j] == grants@[j]);
                    if j < i {
                        assert(seen[j] == grants@[j]);
                        if before is Some {
                            assert(seen[before->0 as int] == grants@[before->0 as int]);
                            assert(goes_first(monitor@, seen, before->0 as int, j));
                        }
                    }
                }
            }
        }
        i = i + 1;
    }
    assert(grants@.take(i as int) =~= grants@);
    picked
}

/// Whether a known frequency lets a grant be followed, and how: `retune` says
/// whether the traffic channel has to move for it. Marks the call; a call that
/// needs no move keeps its mark of being encrypted.
pub fn follow_grant(forwarder: &mut ImbeForwarder, g: &GrantEvent, retune: bool) -> (retuned: bool)
    ensures
        g.frequency_hz is None ==> !retuned && final(forwarder).same_call(*old(forwarder)),
        g.frequency_hz is Some ==> {
            let history = history_after(true, old(forwarder).encrypted_tg_history@, *g);
            let encrypted = history.contains(g.talkgroup);
            &&& retuned == retune
            &&& final(forwarder).current_talkgroup == g.talkgroup
            &&& final(forwarder).encrypted_tg_history@ == history
            &&& final(forwarder).call_encrypted == if retune {
                encrypted
            } else {
                old(forwarder).call_encrypted || encrypted
            }
            &&& final(forwarder).vocoder_reset_pending == (old(forwarder).vocoder_reset_pending
                || retune)
        },
        final(forwarder).counts() == old(forwarder).counts(),
        final(forwarder).imbe_ring == old(forwarder).imbe_ring,
{
    match g.frequency_hz {
        None => false,
        Some(_) => {
            forwarder.current_talkgroup = g.talkgroup;
            if g.encrypted {
                forwarder.encrypted_tg_history.insert(g.talkgroup);
            }
            let encrypted: bool = g.encrypted || forwarder.encrypted_tg_history.contains(
                &g.talkgroup,
            );
            if retune {
                forwarder.call_encrypted = encrypted;
                forwarder.vocoder_reset_pending = true;
            } else if encrypted {
                forwarder.call_encrypted = true;
            }
            retune
        },
    }
}

/// The traffic channel went idle: no call is followed, and nothing is
/// encrypted any more. Nothing happens while following is switched off or the
/// call has not timed out.
pub fn on_timeout_tick(enabled: bool, timed_out: bool, forwarder: &mut ImbeForwarder) -> (idle: bool)
    ensures
        idle == (enabled && timed_out),
        final(forwarder).call_encrypted == (old(forwarder).call_encrypted && !idle),
        final(forwarder).current_talkgroup == if idle {
            0
        } else {
            old(forwarder).current_talkgroup
        },
        final(forwarder).encrypted_tg_history == old(forwarder).encrypted_tg_history,
        final(forwarder).vocoder_reset_pending == old(forwarder).vocoder_reset_pending,
        final(forwarder).counts() == old(forwarder).counts(),
        final(forwarder).imbe_ring == old(forwarder).imbe_ring,
{
    if enabled && timed_out {
        forwarder.call_encrypted = false;
        forwarder.current_talkgroup = 0;
        true
    } else {
        false
    }
}

/// Offset of a channel from the receiver's centre, in hertz.
pub fn channel_offset(frequency_hz: u64, rx_lo_hz: u64) -> (offset: i64)
    requires
        frequency_hz <= i64::MAX,
        rx_lo_hz <= i64::MAX,
    ensures
        offset == frequency_hz - rx_lo_hz,
{
    frequency_hz as i64 - rx_lo_hz as i64
}

/// A talkgroup once seen encrypted is never followed again: whatever a later
/// grant says of it, the grant is not accepted.
pub proof fn encrypted_talkgroups_stay_rejected(
    enabled: bool,
    monitored: Seq<u16>,
    history: Set<u16>,
    locked: Option<u16>,
    first: GrantEvent,
    later: GrantEvent,
)
    requires
        first.encrypted,
        later.talkgroup == first.talkgroup,
    ensures
        decision_for(
            enabled,
            monitored,
            history_after(true, history, first),
            locked,
            later,
        ) != GrantDecision::Accepted,
{
}

/// While a call is followed, no grant of another talkgroup is accepted.
pub proof fn followed_call_is_sticky(
    enabled: bool,
    monitored: Seq<u16>,
    history: Set<u16>,
    locked: u16,
    g: GrantEvent,
)
    requires
        g.talkgroup != locked,
    ensures
        decision_for(enabled, monitored, history, Some(locked), g) != GrantDecision::Accepted,
{
}

/// Only monitored talkgroups are followed, unless nothing is monitored.
pub proof fn accepted_grants_are_monitored(
    enabled: bool,
    monitored: Seq<u16>,
    history: Set<u16>,
    locked: Option<u16>,
    g: GrantEvent,
)
    requires
        decision_for(enabled, monitored, history, locked, g) == GrantDecision::Accepted,
    ensures
        enabled,
        monitored.len() == 0 || monitored.contains(g.talkgroup),
        !g.encrypted,
        !history.contains(g.talkgroup),
{
}

/// Of several monitored talkgroups with grants at one time, the first on the
/// list wins: no talkgroup that could be followed stands before the picked one.
pub proof fn first_listed_talkgroup_wins(
    monitored: Seq<u16>,
    history: Set<u16>,
    grants: Seq<GrantEvent>,
    i: int,
    j: int,
)
    requires
        is_pick(monitored, history, grants, i),
        monitored.len() > 0,
        0 <= j < grants.len(),
        can_follow(monitored, history, grants[j]),
    ensures
        monitored.contains(grants[i].talkgroup),
        monitored.contains(grants[j].talkgroup),
        monitored.index_of(grants[i].talkgroup) <= monitored.index_of(grants[j].talkgroup),
{
    assert(goes_first(monitored, grants, i, j));
}

/// With an empty list the newest grant that can be followed wins.
pub proof fn newest_grant_wins_without_a_list(
    history: Set<u16>,
    grants: Seq<GrantEvent>,
    i: int,
    j: int,
)
    requires
        is_pick(Seq::empty(), history, grants, i),
        i < j < grants.len(),
    ensures
        !can_follow(Seq::empty(), history, grants[j]),
{
    if can_follow(Seq::empty(), history, grants[j]) {
        assert(goes_first(Seq::empty(), grants, i, j));
    }
}

/// A grant that nothing stands against is accepted: following is on, the
/// talkgroup is monitored or nothing is in particular, neither this grant nor an
/// earlier one says that it is encrypted, and no call is followed or the one of
/// this very talkgroup.
pub proof fn grants_with_nothing_against_them_are_accepted(
    monitored: Seq<u16>,
    history: Set<u16>,
    locked: Option<u16>,
    g: GrantEvent,
)
    requires
        monitored.len() == 0 || monitored.contains(g.talkgroup),
        !g.encrypted,
        !history.contains(g.talkgroup),
        locked is None || locked == Some(g.talkgroup),
    ensures
        decision_for(true, monitored, history, locked, g) == GrantDecision::Accepted,
{
}

/// A grant is rejected for the reason that is given, and for no other.
pub proof fn rejections_have_their_cause(
    enabled: bool,
    monitored: Seq<u16>,
    history: Set<u16>,
    locked: Option<u16>,
    g: GrantEvent,
)
    ensures
        ({
            let decision = decision_for(enabled, monitored, history, locked, g);
            let listed = monitored.len() == 0 || monitored.contains(g.talkgroup);
            let free = locked is None || locked == Some(g.talkgroup);
            let encrypted = g.encrypted || history.contains(g.talkgroup);
            &&& decision is Ignored <==> !enabled
            &&& decision is NotMonitored <==> enabled && !listed
            &&& decision is StickyLocked <==> enabled && listed && !free
            &&& decision matches GrantDecision::StickyLocked { locked: other } ==> other
                != g.talkgroup && locked == Some(other)
            &&& decision is Encrypted <==> enabled && listed && free && encrypted
            &&& decision matches GrantDecision::Encrypted { was_locked } ==> was_locked == (locked
                == Some(g.talkgroup))
            &&& decision is Accepted <==> enabled && listed && free && !encrypted
        }),
{
}

/// What else a grant says has no say: two grants of one talkgroup that agree on
/// being encrypted are decided alike, whatever the channel, the frequency, the
/// caller and the emergency mark.
pub proof fn only_talkgroup_and_encryption_decide(
    enabled: bool,
    monitored: Seq<u16>,
    history: Set<u16>,
    locked: Option<u16>,
    a: GrantEvent,
    b: GrantEvent,
)
    requires
        a.talkgroup == b.talkgroup,
        a.encrypted == b.encrypted,
    ensures
        decision_for(enabled, monitored, history, locked, a) == decision_for(
            enabled,
            monitored,
            history,
            locked,
            b,
        ),
        history_after(enabled, history, a) == history_after(enabled, history, b),
{
}

/// The order of the list has no say in whether a grant is accepted.
pub proof fn list_order_does_not_decide(
    enabled: bool,
    a: Seq<u16>,
    b: Seq<u16>,
    history: Set<u16>,
    locked: Option<u16>,
    g: GrantEvent,
)
    requires
        forall|tg: u16| #[trigger] a.contains(tg) <==> b.contains(tg),
    ensures
        decision_for(enabled, a, history, locked, g) == decision_for(
            enabled,
            b,
            history,
            locked,
            g,
        ),
{
    assert(a.contains(g.talkgroup) <==> b.contains(g.talkgroup));
    if a.len() > 0 {
        assert(a.contains(a[0]));
    }
    if b.len() > 0 {
        assert(a.contains(b[0]) <==> b.contains(b[0]));
    }
}

/// A talkgroup counts as encrypted from its first encrypted grant on, and only
/// talkgroups with such a grant do.
pub proof fn encrypted_grants_are_remembered(
    enabled: bool,
    history: Set<u16>,
    g: GrantEvent,
    tg: u16,
)
    ensures
        history_after(enabled, history, g).contains(tg) <==> history.contains(tg) || (enabled
            && g.encrypted && tg == g.talkgroup),
{
}

/// The pick is a grant that would be accepted with no call followed, and some
/// grant is picked wherever one would be.
pub proof fn picks_are_acceptable(
    monitored: Seq<u16>,
    history: Set<u16>,
    g: GrantEvent,
)
    ensures
        can_follow(monitored, history, g) <==> {
            &&& monitored.len() == 0 || monitored.contains(g.talkgroup)
            &&& !g.encrypted
            &&& !history.contains(g.talkgroup)
        },
{
}

/// At most one grant is the pick.
pub proof fn pick_is_unique(
    monitored: Seq<u16>,
    history: Set<u16>,
    grants: Seq<GrantEvent>,
    i: int,
    j: int,
)
    requires
        is_pick(monitored, history, grants, i),
        is_pick(monitored, history, grants, j),
    ensures
        i == j,
{
    assert(goes_first(monitored, grants, i, j));
    assert(goes_first(monitored, grants, j, i));
}

// ---------------------------------------------------------------------------
// Log lines
// ---------------------------------------------------------------------------

/// The line for a grant that is not followed.
pub open spec fn rejection_line(g: GrantEvent, decision: GrantDecision) -> Option<Seq<char>> {
    let tg = crate::text::decimal(g.talkgroup as nat);
    match decision {
        GrantDecision::NotMonitored => Some("reject: TG="@ + tg + " not in monitor list"@),
        GrantDecision::StickyLocked { locked } => Some(
            "reject: TG="@ + tg + " (sticky-locked on TG="@ + crate::text::decimal(locked as nat)
                + ")"@,
        ),
        GrantDecision::Encrypted { was_locked } => Some(
            "reject TG="@ + tg + " encrypted"@ + (if was_locked {
                " (tore down active lock)"@
            } else {
                Seq::<char>::empty()
            }),
        ),
        _ => None,
    }
}

/// The line for a grant that is not followed; none for one that is, or that
/// nobody looked at.
pub fn rejection_message(g: &GrantEvent, decision: &GrantDecision) -> (line: Option<String>)
    ensures
        line is Some <==> rejection_line(*g, *decision) is Some,
        line is Some ==> rejection_line(*g, *decision) == Some(line->0@),
{
    match decision {
        GrantDecision::NotMonitored => {
            let mut s = "reject: TG=".to_owned();
            append_decimal(&mut s, g.talkgroup as u64);
            s.append(" not in monitor list");
            Some(s)
        },
        GrantDecision::StickyLocked { locked } => {
            let mut s = "reject: TG=".to_owned();
            append_decimal(&mut s, g.talkgroup as u64);
            s.append(" (sticky-locked on TG=");
            append_decimal(&mut s, *locked as u64);
            s.append(")");
            Some(s)
        },
        GrantDecision::Encrypted { was_locked } => {
            let mut s = "reject TG=".to_owned();
            append_decimal(&mut s, g.talkgroup as u64);
            s.append(" encrypted");
            let ghost head = s@;
            if *was_locked {
                s.append(" (tore down active lock)");
            }
            assert(s@ =~= head + (if *was_locked {
                " (tore down active lock)"@
            } else {
                Seq::<char>::empty()
            }));
            Some(s)
        },
        _ => None,
    }
}

/// The line for a change of state that a grant brought.
pub fn state_change_message(from: &str, to: &str, tg: u16) -> (line: String)
    ensures
        line@ == "state "@ + from@ + " -> "@ + to@ + " TG="@ + crate::text::decimal(tg as nat),
{
    let mut s = "state ".to_owned();
    s.append(from);
    s.append(" -> ");
    s.append(to);
    s.append(" TG=");
    append_decimal(&mut s, tg as u64);
    s
}

/// The line for a call that timed out.
pub fn timeout_message(tg: u16) -> (line: String)
    ensures
        line@ == "state -> Idle (timeout) TG="@ + crate::text::decimal(tg as nat),
{
    let mut s = "state -> Idle (timeout) TG=".to_owned();
    append_decimal(&mut s, tg as u64);
    s
}

/// The line for a retune that failed.
pub fn retune_failed_message(tg: u16, error: &str) -> (line: String)
    ensures
        line@ == "retune FAILED TG="@ + crate::text::decimal(tg as nat) + ": "@ + error@,
{
    let mut s = "retune FAILED TG=".to_owned();
    append_decimal(&mut s, tg as u64);
    s.append(": ");
    s.append(error);
    s
}

// ---------------------------------------------------------------------------
// Data units on the traffic channel
// ---------------------------------------------------------------------------

/// What a poll of the traffic channel brought.
#[derive(Debug, Clone, Copy, PartialEq, Eq, Structural)]
pub enum TrafficNid {
    /// Nothing new.
    Nothing,
    /// An identifier while no call is followed.
    Idle,
    /// An identifier that could not be corrected.
    Invalid,
    /// A header.
    Hdu,
    /// A terminator, with link control or without.
    Tdu { with_lc: bool },
    /// A voice unit, the first or the second.
    Ldu { second: bool },
    /// A data unit of another kind.
    Other,
}

/// What a poll of the traffic channel means.
pub open spec fn traffic_nid_of(status: LsmStatusSnapshot, current_tg: u16, duid: u8) -> TrafficNid {
    if !status.nid_event {
        TrafficNid::Nothing
    } else if current_tg == 0 {
        TrafficNid::Idle
    } else if !status.nid_valid {
        TrafficNid::Invalid
    } else if duid == 0 {
        TrafficNid::Hdu
    } else if duid == 3 {
        TrafficNid::Tdu { with_lc: false }
    } else if duid == 0xF {
        TrafficNid::Tdu { with_lc: true }
    } else if duid == 5 {
        TrafficNid::Ldu { second: false }
    } else if duid == 0xA {
        TrafficNid::Ldu { second: true }
    } else {
        TrafficNid::Other
    }
}

/// What a poll of the traffic channel means. Only a corrected identifier that
/// comes while a call is followed counts as a data unit.
pub fn classify_traffic_nid(
    status: &LsmStatusSnapshot,
    current_tg: u16,
    duid: u8,
) -> (nid: TrafficNid)
    ensures
        nid == traffic_nid_of(*status, current_tg, duid),
{
    if !status.nid_event {
        return TrafficNid::Nothing;
    }
    if current_tg == 0 {
        return TrafficNid::Idle;
    }
    if !status.nid_valid {
        return TrafficNid::Invalid;
    }
    match duid {
        0 => TrafficNid::Hdu,
        3 => TrafficNid::Tdu { with_lc: false },
        0xF => TrafficNid::Tdu { with_lc: true },
        5 => TrafficNid::Ldu { second: false },
        0xA => TrafficNid::Ldu { second: true },
        _ => TrafficNid::Other,
    }
}

/// What a poll means depends on nothing but whether an identifier came, whether
/// it could be corrected, whether a call is followed, and the kind of data unit:
/// how many bits were wrong, how well the sync matched and the rest have no say.
pub proof fn quality_does_not_change_the_meaning(
    a: LsmStatusSnapshot,
    b: LsmStatusSnapshot,
    tg_a: u16,
    tg_b: u16,
    duid: u8,
)
    requires
        a.nid_event == b.nid_event,
        a.nid_valid == b.nid_valid,
        (tg_a == 0) == (tg_b == 0),
    ensures
        traffic_nid_of(a, tg_a, duid) == traffic_nid_of(b, tg_b, duid),
{
}

/// A corrected identifier that comes while a call is followed is taken for the
/// data unit that it names.
pub proof fn corrected_identifiers_are_dispatched(
    status: LsmStatusSnapshot,
    current_tg: u16,
    duid: u8,
)
    requires
        status.nid_event,
        status.nid_valid,
        current_tg != 0,
    ensures
        ({
            let nid = traffic_nid_of(status, current_tg, duid);
            &&& !(nid is Nothing) && !(nid is Idle) && !(nid is Invalid)
            &&& duid == 0 ==> nid == TrafficNid::Hdu
            &&& duid == 3 ==> nid == (TrafficNid::Tdu { with_lc: false })
            &&& duid == 15 ==> nid == (TrafficNid::Tdu { with_lc: true })
            &&& duid == 5 ==> nid == (TrafficNid::Ldu { second: false })
            &&& duid == 10 ==> nid == (TrafficNid::Ldu { second: true })
            &&& duid != 0 && duid != 3 && duid != 5 && duid != 10 && duid != 15 ==> nid
                == TrafficNid::Other
        }),
{
}

/// Without a new identifier nothing happens; one that comes while no call is
/// followed is idle; one that could not be corrected while a call is followed is
/// invalid.
pub proof fn other_identifiers_are_dropped(status: LsmStatusSnapshot, current_tg: u16, duid: u8)
    ensures
        traffic_nid_of(status, current_tg, duid) is Nothing <==> !status.nid_event,
        traffic_nid_of(status, current_tg, duid) is Idle <==> status.nid_event && current_tg == 0,
        traffic_nid_of(status, current_tg, duid) is Invalid <==> status.nid_event && current_tg != 0
            && !status.nid_valid,
{
}

/// The name of a data unit.
pub open spec fn duid_name(duid: u8) -> Seq<char> {
    if duid == 0 {
        "HDU"@
    } else if duid == 3 {
        "TDU"@
    } else if duid == 5 {
        "LDU1"@
    } else if duid == 0xA {
        "LDU2"@
    } else if duid == 0xF {
        "TDU_LC"@
    } else {
        "DUID?"@
    }
}

/// The name of a data unit.
pub fn duid_label(duid: u8) -> (label: &'static str)
    ensures
        label@ == duid_name(duid),
{
    match duid {
        0 => "HDU",
        3 => "TDU",
        5 => "LDU1",
        0xA => "LDU2",
        0xF => "TDU_LC",
        _ => "DUID?",
    }
}

/// The log line for a data unit that bounds a call; none for the others, or
/// while no talkgroup is locked.
pub fn boundary_message(duid: u8, locked_tg: u16, nac: u16) -> (line: Option<String>)
    ensures
        line is Some <==> locked_tg != 0 && (duid == 0 || duid == 3 || duid == 0xF),
        line is Some ==> line->0@ == duid_name(duid) + " TG="@ + crate::text::decimal(
            locked_tg as nat,
        ) + " NAC=0x"@ + crate::text::zero_padded(crate::text::upper_hex(nac as nat), 3),
{
    if locked_tg == 0 || !(duid == 0 || duid == 3 || duid == 0xF) {
        return None;
    }
    let mut s = duid_label(duid).to_owned();
    s.append(" TG=");
    append_decimal(&mut s, locked_tg as u64);
    s.append(" NAC=0x");
    append_upper_hex(&mut s, nac as u64, 3);
    Some(s)
}

/// A data unit on the activity feed.
pub struct ActivityLine {
    pub event_type: String,
    pub summary: String,
    pub channel: String,
}

/// The activity line for a data unit, with the talkgroup and the channel that
/// are followed, or dashes.
pub fn activity_line(duid: u8, nac: u16, tg: Option<u16>, channel: Option<&str>) -> (line: ActivityLine)
    ensures
        line.event_type@ == "TRF_"@ + duid_name(duid),
        line.channel@ == match channel {
            Some(c) => c@,
            None => "--"@,
        },
        line.summary@ == duid_name(duid) + " NAC:0x"@ + crate::text::zero_padded(
            crate::text::upper_hex(nac as nat),
            3,
        ) + " "@ + (match tg {
            Some(t) => "TG:"@ + crate::text::zero_padded(crate::text::decimal(t as nat), 5),
            None => "--"@,
        }) + " CH:"@ + line.channel@,
{
    let mut event_type = "TRF_".to_owned();
    event_type.append(duid_label(duid));
    let shown_channel: String = match channel {
        Some(c) => c.to_owned(),
        None => "--".to_owned(),
    };
    let shown_tg: String = match tg {
        Some(t) => {
            let mut s = "TG:".to_owned();
            append_padded(&mut s, t as u64, 5);
            s
        },
        None => "--".to_owned(),
    };
    let mut summary = duid_label(duid).to_owned();
    summary.append(" NAC:0x");
    append_upper_hex(&mut summary, nac as u64, 3);
    summary.append(" ");
    summary.append(shown_tg.as_str());
    summary.append(" CH:");
    summary.append(shown_channel.as_str());
    ActivityLine { event_type, summary, channel: shown_channel }
}

/// Whether identifier number `n` of the traffic channel is logged: the first
/// ten, then every fiftieth.
pub fn logs_traffic_nid(n: u64) -> (r: bool)
    ensures
        r == (n <= 10 || n % 50 == 0),
{
    n <= 10 || n % 50 == 0
}

/// A line is written for a grant that is turned down, and for no other; it names
/// the talkgroup, and for a lock the talkgroup that is locked.
pub proof fn rejections_are_logged(g: GrantEvent, decision: GrantDecision)
    ensures
        rejection_line(g, decision) is Some <==> decision is NotMonitored
            || decision is StickyLocked || decision is Encrypted,
        ({
            let tg = crate::text::decimal(g.talkgroup as nat);
            let n = tg.len() as int;
            &&& decision is NotMonitored || decision is StickyLocked ==> rejection_line(
                g,
                decision,
            )->0.subrange(11, 11 + n) == tg
            &&& decision is Encrypted ==> rejection_line(g, decision)->0.subrange(10, 10 + n) == tg
            &&& decision matches GrantDecision::StickyLocked { locked } ==> {
                let line = rejection_line(g, decision)->0;
                line.subrange(33 + n, line.len() - 1) == crate::text::decimal(locked as nat)
            }
        }),
{
    reveal_strlit("reject: TG=");
    reveal_strlit("reject TG=");
    reveal_strlit(" (sticky-locked on TG=");
    reveal_strlit(")");
    let tg = crate::text::decimal(g.talkgroup as nat);
    let n = tg.len() as int;
    if let Some(line) = rejection_line(g, decision) {
        if decision is Encrypted {
            assert(line.subrange(10, 10 + n) =~= tg);
        } else {
            assert(line.subrange(11, 11 + n) =~= tg);
        }
        if let GrantDecision::StickyLocked { locked } = decision {
            assert(line.subrange(33 + n, line.len() - 1) =~= crate::text::decimal(locked as nat));
        }
    }
}

/// A call that is torn down for its encryption is told from one that was never
/// followed by what stands behind the same line.
pub proof fn torn_down_calls_are_told_apart(g: GrantEvent)
    ensures
        rejection_line(g, GrantDecision::Encrypted { was_locked: true })->0 == rejection_line(
            g,
            GrantDecision::Encrypted { was_locked: false },
        )->0 + " (tore down active lock)"@,
{
    assert(rejection_line(g, GrantDecision::Encrypted { was_locked: true })->0 =~= rejection_line(
        g,
        GrantDecision::Encrypted { was_locked: false },
    )->0 + " (tore down active lock)"@);
}

} // verus!
