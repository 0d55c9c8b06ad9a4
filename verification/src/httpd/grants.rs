//! The voice channels that are in use, and the bands.

use std::collections::HashSet;
use vstd::prelude::*;
use crate::clock::elapsed_secs;
use crate::sorting::sorted_order;

verus! {

broadcast use vstd::std_specs::hash::group_hash_axioms;

/// A grant as it was received. The channel is also given as it is shown.
pub struct GrantRecord {
    pub channel: u16,
    pub shown_channel: String,
    pub talkgroup: u16,
    pub talkgroup_alias: Option<String>,
    pub source: Option<u32>,
    pub frequency_hz: Option<u64>,
    /// When it was received, in nanoseconds on one clock.
    pub at: u64,
    pub encrypted: bool,
    pub emergency: bool,
}

/// A grant that is shown: which one, for how long, and whether its talkgroup
/// was ever seen encrypted.
#[derive(Debug, Clone, Copy, PartialEq, Eq, Structural)]
pub struct GrantLine {
    /// Place of the grant.
    pub index: usize,
    pub age_secs: u64,
    pub in_encrypted_history: bool,
}

/// Age of a grant in whole seconds.
pub open spec fn age_of(g: GrantRecord, now: u64) -> u64 {
    crate::clock::elapsed(g.at, now) / 1_000_000_000
}

/// Whether a grant is the last one for its channel.
pub open spec fn is_current(grants: Seq<GrantRecord>, k: int) -> bool {
    &&& 0 <= k < grants.len()
    &&& forall|j: int| k < j < grants.len() ==> (#[trigger] grants[j]).channel != grants[k].channel
}

/// Whether a grant is younger than another, or as young and earlier in the list.
pub open spec fn precedes(grants: Seq<GrantRecord>, now: u64, j: int, k: int) -> bool {
    age_of(grants[j], now) < age_of(grants[k], now) || (age_of(grants[j], now) == age_of(
        grants[k],
        now,
    ) && j < k)
}

/// Whether a grant is shown: it is the last for its channel, and no other such
/// grant for its talkgroup comes before it. Talkgroup 0 stands for none, so
/// its grants are all shown.
pub open spec fn is_shown(grants: Seq<GrantRecord>, now: u64, k: int) -> bool {
    &&& is_current(grants, k)
    &&& grants[k].talkgroup == 0 || (forall|j: int|
        #[trigger] is_current(grants, j) && grants[j].talkgroup == grants[k].talkgroup && j != k
            ==> !precedes(grants, now, j, k))
}

/// Whether a place is among those of the lines.
pub open spec fn lists_place(shown: Seq<GrantLine>, k: int) -> bool {
    exists|i: int| 0 <= i < shown.len() && (#[trigger] shown[i]).index == k
}

fn current(grants: &Vec<GrantRecord>, k: usize) -> (r: bool)
    requires
        k < grants@.len(),
    ensures
        r == is_current(grants@, k as int),
{
    let count: usize = grants.len();
    let mut j: usize = k + 1;
    while j < count
        invariant
            count == grants@.len(),
            k < j <= grants@.len(),
            forall|i: int|
                k < i < j ==> (#[trigger] grants@[i]).channel != grants@[k as int].channel,
        decreases grants@.len() - j,
    {
        if grants[j].channel == grants[k].channel {
            return false;
        }
        j = j + 1;
    }
    true
}

fn shown(grants: &Vec<GrantRecord>, now: u64, k: usize) -> (r: bool)
    requires
        k < grants@.len(),
    ensures
        r == is_shown(grants@, now, k as int),
{
    if !current(grants, k) {
        return false;
    }
    let tg: u16 = grants[k].talkgroup;
    if tg == 0 {
        return true;
    }
    let age: u64 = elapsed_secs(grants[k].at, now);
    let mut j: usize = 0;
    while j < grants.len()
        invariant
            j <= grants@.len(),
            k < grants@.len(),
            is_current(grants@, k as int),
            tg == grants@[k as int].talkgroup,
            tg != 0,
            age == age_of(grants@[k as int], now),
            forall|i: int|
                i < j && #[trigger] is_current(grants@, i) && grants@[i].talkgroup == tg && i != k
                    ==> !precedes(grants@, now, i, k as int),
        decreases grants@.len() - j,
    {
        if j != k && grants[j].talkgroup == tg && current(grants, j) {
            let other: u64 = elapsed_secs(grants[j].at, now);
            if other < age || (other == age && j < k) {
                assert(precedes(grants@, now, j as int, k as int));
                return false;
            }
        }
        j = j + 1;
    }
    true
}

/// The grants that are shown, the youngest first: the last one for each
/// channel, and of these the youngest for each talkgroup.
pub fn list_grants(grants: &Vec<GrantRecord>, history: &HashSet<u16>, now: u64) -> (lines: Vec<
    GrantLine,
>)
    ensures
        forall|i: int|
            0 <= i < lines@.len() ==> {
                let line = #[trigger] lines@[i];
                &&& is_shown(grants@, now, line.index as int)
                &&& line.age_secs == age_of(grants@[line.index as int], now)
                &&& line.in_encrypted_history == history@.contains(
                    grants@[line.index as int].talkgroup,
                )
            },
        forall|i: int, j: int|
            0 <= i < j < lines@.len() ==> precedes(
                grants@,
                now,
                (#[trigger] lines@[i]).index as int,
                (#[trigger] lines@[j]).index as int,
            ),
        forall|k: int| #[trigger] is_shown(grants@, now, k) ==> lists_place(lines@, k),
{
    let mut places: Vec<usize> = Vec::new();
    let mut keys: Vec<u128> = Vec::new();
    let mut k: usize = 0;
    while k < grants.len()
        invariant
            k <= grants@.len(),
            places@.len() == keys@.len(),
            forall|i: int|
                0 <= i < places@.len() ==> (#[trigger] places@[i]) < k && is_shown(
                    grants@,
                    now,
                    places@[i] as int,
                ) && keys@[i] == age_of(grants@[places@[i] as int], now),
            forall|i: int, j: int|
                0 <= i < j < places@.len() ==> (#[trigger] places@[i]) < (#[trigger] places@[j]),
            forall|p: int|
                p < k && #[trigger] is_shown(grants@, now, p) ==> places@.contains(p as usize),
        decreases grants@.len() - k,
    {
        let ghost before = places@;
        if shown(grants, now, k) {
            places.push(k);
            keys.push(elapsed_secs(grants[k].at, now) as u128);
            proof {
                assert(places@[before.len() as int] == k);
                assert forall|p: int| p < k + 1 && #[trigger] is_shown(
                    grants@,
                    now,
                    p,
                ) implies places@.contains(p as usize) by {
                    if p < k {
                        assert(before.contains(p as usize));
                        let i = before.index_of(p as usize);
                        assert(places@[i] == p);
                    }
                }
            }
        }
        k = k + 1;
    }
    let order: Vec<usize> = sorted_order(&keys);
    let mut lines: Vec<GrantLine> = Vec::new();
    let mut n: usize = 0;
    while n < order.len()
        invariant
            n <= order@.len(),
            order@.len() == places@.len(),
            forall|i: int| 0 <= i < order@.len() ==> (#[trigger] order@[i]) < places@.len(),
            forall|i: int|
                0 <= i < places@.len() ==> (#[trigger] places@[i]) < grants@.len() && is_shown(
                    grants@,
                    now,
                    places@[i] as int,
                ),
            lines@.len() == n,
            forall|i: int|
                0 <= i < n ==> {
                    let line = #[trigger] lines@[i];
                    &&& line.index == places@[order@[i] as int]
                    &&& is_shown(grants@, now, line.index as int)
                    &&& line.age_secs == age_of(grants@[line.index as int], now)
                    &&& line.in_encrypted_history == history@.contains(
                        grants@[line.index as int].talkgroup,
                    )
                },
        decreases order@.len() - n,
    {
        let index: usize = places[order[n]];
        lines.push(
            GrantLine {
                index,
                age_secs: elapsed_secs(grants[index].at, now),
                in_encrypted_history: history.contains(&grants[index].talkgroup),
            },
        );
        n = n + 1;
    }
    proof {
        assert forall|i: int, j: int| 0 <= i < j < lines@.len() implies precedes(
            grants@,
            now,
            (#[trigger] lines@[i]).index as int,
            (#[trigger] lines@[j]).index as int,
        ) by {
            let a = order@[i];
            let b = order@[j];
            assert(crate::sorting::sorts_before(keys@, a, b));
            assert(keys@[a as int] == age_of(grants@[places@[a as int] as int], now));
            assert(keys@[b as int] == age_of(grants@[places@[b as int] as int], now));
            if a < b {
                assert(places@[a as int] < places@[b as int]);
            }
        }
        assert forall|p: int| #[trigger] is_shown(grants@, now, p) implies lists_place(
            lines@,
            p,
        ) by {
            assert(places@.contains(p as usize));
            let i = places@.index_of(p as usize);
            assert(order@.contains(i as usize));
            let m = order@.index_of(i as usize);
            assert(lines@[m].index == p);
        }
    }
    lines
}

/// No talkgroup but 0 is shown twice.
pub proof fn talkgroups_are_shown_once(grants: Seq<GrantRecord>, now: u64, a: int, b: int)
    requires
        is_shown(grants, now, a),
        is_shown(grants, now, b),
        grants[a].talkgroup == grants[b].talkgroup,
        grants[a].talkgroup != 0,
    ensures
        a == b,
{
    if a != b {
        assert(precedes(grants, now, a, b) || precedes(grants, now, b, a));
    }
}

/// No channel is shown twice.
pub proof fn channels_are_shown_once(grants: Seq<GrantRecord>, now: u64, a: int, b: int)
    requires
        is_shown(grants, now, a),
        is_shown(grants, now, b),
        grants[a].channel == grants[b].channel,
    ensures
        a == b,
{
}

/// For the last grant of each channel, its talkgroup is shown, with a grant that
/// is at least as young.
pub proof fn every_talkgroup_is_shown(grants: Seq<GrantRecord>, now: u64, k: int) -> (s: int)
    requires
        is_current(grants, k),
    ensures
        is_shown(grants, now, s),
        grants[s].talkgroup == grants[k].talkgroup,
        age_of(grants[s], now) <= age_of(grants[k], now),
    decreases age_of(grants[k], now), k,
{
    if is_shown(grants, now, k) {
        k
    } else {
        let j = choose|j: int| #[trigger]
            is_current(grants, j) && grants[j].talkgroup == grants[k].talkgroup && j != k
                && precedes(grants, now, j, k);
        every_talkgroup_is_shown(grants, now, j)
    }
}

/// The places of band identifiers in ascending order, equal ones in the order
/// of their places.
pub fn band_order(identifiers: &Vec<u8>) -> (order: Vec<usize>)
    ensures
        crate::sorting::is_order_of(
            order@,
            identifiers@.map_values(|id: u8| id as u128),
            identifiers@.len() as int,
        ),
{
    let mut keys: Vec<u128> = Vec::new();
    let mut i: usize = 0;
    while i < identifiers.len()
        invariant
            i <= identifiers@.len(),
            keys@.len() == i,
            forall|k: int| 0 <= k < i ==> (#[trigger] keys@[k]) == identifiers@[k],
        decreases identifiers@.len() - i,
    {
        keys.push(identifiers[i] as u128);
        i = i + 1;
    }
    assert(keys@ =~= identifiers@.map_values(|id: u8| id as u128));
    sorted_order(&keys)
}

/// Age is counted in whole seconds, and is never negative.
pub proof fn ages_are_whole_seconds(g: GrantRecord, now: u64)
    ensures
        g.at <= now ==> g.at + 1_000_000_000 * age_of(g, now) <= now,
        g.at <= now ==> now < g.at + 1_000_000_000 * (age_of(g, now) + 1),
        now < g.at ==> age_of(g, now) == 0,
{
}

/// A grant is shown in place of those before it for the same channel: of every
/// channel, the last grant in the list counts, and one that no other follows.
pub proof fn last_grants_count(grants: Seq<GrantRecord>, k: int) -> (j: int)
    requires
        0 <= k < grants.len(),
    ensures
        k <= j < grants.len(),
        grants[j].channel == grants[k].channel,
        is_current(grants, j),
        j > k ==> !is_current(grants, k),
        is_current(grants, grants.len() - 1),
    decreases grants.len() - k,
{
    if is_current(grants, k) {
        k
    } else {
        let i = choose|i: int|
            k < i < grants.len() && (#[trigger] grants[i]).channel == grants[k].channel;
        last_grants_count(grants, i)
    }
}

/// The list is ordered: of two grants at different places one comes first, and
/// the one that is younger by a second or more does.
pub proof fn younger_grants_come_first(
    grants: Seq<GrantRecord>,
    now: u64,
    a: int,
    b: int,
    c: int,
)
    ensures
        a != b ==> (precedes(grants, now, a, b) <==> !precedes(grants, now, b, a)),
        !precedes(grants, now, a, a),
        precedes(grants, now, a, b) && precedes(grants, now, b, c) ==> precedes(grants, now, a, c),
        grants[b].at + 1_000_000_000 <= grants[a].at <= now ==> precedes(grants, now, a, b),
        grants[a].at == grants[b].at && a < b ==> precedes(grants, now, a, b),
{
}

/// A grant that no later one replaces is shown, unless a younger grant of the
/// same talkgroup is.
pub proof fn grants_are_not_lost(grants: Seq<GrantRecord>, now: u64, k: int)
    requires
        0 <= k < grants.len(),
        forall|j: int|
            0 <= j < grants.len() && j != k ==> (#[trigger] grants[j]).channel != grants[k].channel,
        grants[k].talkgroup == 0 || forall|j: int|
            0 <= j < grants.len() && j != k ==> (#[trigger] grants[j]).talkgroup
                != grants[k].talkgroup,
    ensures
        is_shown(grants, now, k),
{
    assert(is_current(grants, k));
    assert forall|j: int|
        #[trigger] is_current(grants, j) && grants[j].talkgroup == grants[k].talkgroup && j != k
            && grants[k].talkgroup != 0 implies !precedes(grants, now, j, k) by {
        assert(grants[j].talkgroup != grants[k].talkgroup);
    }
}

/// The bands are shown by ascending identifier, each once.
pub proof fn bands_ascend(order: Seq<usize>, identifiers: Seq<u8>, i: int, j: int)
    requires
        crate::sorting::is_order_of(
            order,
            identifiers.map_values(|id: u8| id as u128),
            identifiers.len() as int,
        ),
        0 <= i < j < order.len(),
    ensures
        order.len() == identifiers.len(),
        order[i] < identifiers.len(),
        order[j] < identifiers.len(),
        identifiers[order[i] as int] <= identifiers[order[j] as int],
        order[i] != order[j],
{
    let keys = identifiers.map_values(|id: u8| id as u128);
    assert(crate::sorting::sorts_before(keys, order[i], order[j]));
}

} // verus!
