//! The talkgroups that are known to be encrypted, and changing them by hand.

use std::collections::HashSet;
use vstd::prelude::*;
use vstd::std_specs::iter::IteratorSpec;
use crate::fpga::ip_core;
use crate::fpga::ip_core::IpCore;
use crate::fpga::registers::{BusOp, Chain};
use crate::httpd::lines;
use crate::httpd::lines::{join_lines, numbered, push_line, surrounded, surrounded_number};
use crate::httpd::monitoring;
use crate::httpd::monitoring::read_talkgroup;
use crate::sorting::sorted_order;
use crate::text::{is_text, parse_unsigned, quoted_text};
use crate::voice::ImbeForwarder;

verus! {

broadcast use vstd::std_specs::hash::group_hash_axioms;

/// Whether `list` names the talkgroups of `set`, each once, in ascending order.
pub open spec fn lists_ascending(list: Seq<u16>, set: Set<u16>) -> bool {
    &&& forall|i: int, j: int| 0 <= i < j < list.len() ==> (#[trigger] list[i]) < (#[trigger] list[j])
    &&& forall|tg: u16| #[trigger] list.contains(tg) <==> set.contains(tg)
}

/// The talkgroups of a set in ascending order.
pub fn get_encrypted_tgs(set: &HashSet<u16>) -> (list: Vec<u16>)
    ensures
        lists_ascending(list@, set@),
{
    let mut walked: Vec<u16> = Vec::new();
    let mut keys: Vec<u128> = Vec::new();
    let ghost all = vstd::std_specs::hash::spec_hash_keys_iter(set).remaining();
    for tg in it: set.iter()
        invariant
            it.seq() == all,
            walked@.len() == it.index(),
            keys@.len() == it.index(),
            forall|i: int| 0 <= i < walked@.len() ==> (#[trigger] walked@[i]) == *all[i],
            forall|i: int| 0 <= i < walked@.len() ==> (#[trigger] keys@[i]) == walked@[i],
    {
        walked.push(*tg);
        keys.push(*tg as u128);
    }
    let order: Vec<usize> = sorted_order(&keys);
    let mut list: Vec<u16> = Vec::new();
    let mut n: usize = 0;
    while n < order.len()
        invariant
            n <= order@.len(),
            order@.len() == walked@.len(),
            forall|k: int| 0 <= k < order@.len() ==> (#[trigger] order@[k]) < walked@.len(),
            list@.len() == n,
            forall|k: int| 0 <= k < n ==> (#[trigger] list@[k]) == walked@[order@[k] as int],
        decreases order@.len() - n,
    {
        list.push(walked[order[n]]);
        n = n + 1;
    }
    proof {
        assert forall|i: int, j: int| 0 <= i < j < list@.len() implies (#[trigger] list@[i]) < (
        #[trigger] list@[j]) by {
            let a = order@[i];
            let b = order@[j];
            assert(crate::sorting::sorts_before(keys@, a, b));
            assert(keys@[a as int] == walked@[a as int]);
            assert(keys@[b as int] == walked@[b as int]);
            assert(all[a as int] != all[b as int]);
        }
        assert(all.unref().to_set() == set@);
        assert forall|tg: u16| #[trigger] list@.contains(tg) <==> set@.contains(tg) by {
            if list@.contains(tg) {
                let i = list@.index_of(tg);
                let k = order@[i] as int;
                assert(all.unref()[k] == tg);
                assert(all.unref().to_set().contains(tg));
            }
            if set@.contains(tg) {
                assert(all.unref().to_set().contains(tg));
                let k = all.unref().index_of(tg);
                assert(walked@[k] == tg);
                assert(order@.contains(k as usize));
                let i = order@.index_of(k as usize);
                assert(list@[i] == tg);
            }
        }
    }
    list
}

/// Only one list names the talkgroups of a set in ascending order.
pub proof fn ascending_list_is_unique(a: Seq<u16>, b: Seq<u16>, set: Set<u16>)
    requires
        lists_ascending(a, set),
        lists_ascending(b, set),
    ensures
        a == b,
    decreases a.len(),
{
    if a.len() == 0 {
        if b.len() > 0 {
            assert(b.contains(b[0]));
            assert(a.contains(b[0]));
        }
        assert(a =~= b);
    } else {
        assert(a.contains(a.last()));
        assert(b.contains(a.last()));
        assert(b.contains(b.last()));
        assert(a.contains(b.last()));
        let i = a.index_of(b.last());
        let j = b.index_of(a.last());
        assert(a[i] == b.last() && b[j] == a.last());
        assert(a.last() == b.last());
        let x = a.last();
        let rest = set.remove(x);
        assert(lists_ascending(a.drop_last(), rest)) by {
            shorter_list(a, set);
        }
        assert(lists_ascending(b.drop_last(), rest)) by {
            shorter_list(b, set);
        }
        ascending_list_is_unique(a.drop_last(), b.drop_last(), rest);
        assert(a =~= a.drop_last().push(x));
        assert(b =~= b.drop_last().push(x));
    }
}

proof fn shorter_list(a: Seq<u16>, set: Set<u16>)
    requires
        a.len() > 0,
        lists_ascending(a, set),
    ensures
        lists_ascending(a.drop_last(), set.remove(a.last())),
{
    let d = a.drop_last();
    assert forall|i: int, j: int| 0 <= i < j < d.len() implies (#[trigger] d[i]) < (#[trigger] d[j]) by {
        assert(a[i] < a[j]);
    }
    assert forall|tg: u16| #[trigger] d.contains(tg) <==> set.remove(a.last()).contains(tg) by {
        if d.contains(tg) {
            let i = d.index_of(tg);
            assert(a[i] == tg);
            assert(a.contains(tg));
            assert(a[i] < a[a.len() - 1]);
        }
        if set.contains(tg) && tg != a.last() {
            assert(a.contains(tg));
            let i = a.index_of(tg);
            assert(d[i] == tg);
        }
    }
}

/// The changes of one request, as they were given.
pub struct BlocklistRequest<'a> {
    pub clear: Option<&'a str>,
    pub add: Option<&'a str>,
    pub remove: Option<&'a str>,
}

/// What became of a request.
pub struct BlocklistUpdate {
    pub applied: Vec<String>,
    pub errors: Vec<String>,
    /// The talkgroup that was followed and is blocked now. Its call is dropped.
    pub dropped: Option<u16>,
    pub log: String,
}

/// Whether a request clears the list.
pub open spec fn clears(r: BlocklistRequest) -> bool {
    r.clear is Some && r.clear->0@ == "1"@
}

/// The list after clearing.
pub open spec fn after_clearing(r: BlocklistRequest, set: Set<u16>) -> Set<u16> {
    if clears(r) {
        Set::empty()
    } else {
        set
    }
}

/// The list after clearing and adding.
pub open spec fn after_adding(r: BlocklistRequest, set: Set<u16>) -> Set<u16> {
    match monitoring::talkgroup_of(r.add) {
        Some(tg) => after_clearing(r, set).insert(tg),
        None => after_clearing(r, set),
    }
}

/// The list after a request: cleared, then added to, then removed from.
pub open spec fn after_request(r: BlocklistRequest, set: Set<u16>) -> Set<u16> {
    match monitoring::talkgroup_of(r.remove) {
        Some(tg) => after_adding(r, set).remove(tg),
        None => after_adding(r, set),
    }
}

/// What a request does, line by line.
pub open spec fn changes(r: BlocklistRequest, set: Set<u16>) -> Seq<Seq<char>> {
    lines::line_of(
        if clears(r) {
            Some("cleared ("@ + crate::text::decimal(set.len()) + " entries)"@)
        } else {
            None
        },
    ) + lines::line_of(
        match monitoring::talkgroup_of(r.add) {
            Some(tg) => Some(
                if after_clearing(r, set).contains(tg) {
                    "TG="@ + crate::text::decimal(tg as nat) + " already present"@
                } else {
                    "added TG="@ + crate::text::decimal(tg as nat)
                },
            ),
            None => None,
        },
    ) + lines::line_of(
        match monitoring::talkgroup_of(r.remove) {
            Some(tg) => Some(
                if after_adding(r, set).contains(tg) {
                    "removed TG="@ + crate::text::decimal(tg as nat)
                } else {
                    "TG="@ + crate::text::decimal(tg as nat) + " not in list"@
                },
            ),
            None => None,
        },
    )
}

/// What a request is refused, line by line.
pub open spec fn refusals(r: BlocklistRequest) -> Seq<Seq<char>> {
    lines::line_of(
        match r.add {
            Some(v) => if monitoring::talkgroup_of(r.add) is None {
                Some("add="@ + crate::text::quoted(v@) + " not an integer"@)
            } else {
                None
            },
            None => None,
        },
    ) + lines::line_of(
        match r.remove {
            Some(v) => if monitoring::talkgroup_of(r.remove) is None {
                Some("remove="@ + crate::text::quoted(v@) + " not an integer"@)
            } else {
                None
            },
            None => None,
        },
    )
}

/// The talkgroup whose call is dropped: the one that is followed, where it is
/// on the list.
pub open spec fn dropped_call(followed: Option<u16>, set: Set<u16>) -> Option<u16> {
    match followed {
        Some(tg) => if set.contains(tg) {
            Some(tg)
        } else {
            None
        },
        None => None,
    }
}

/// The line for a dropped call.
pub open spec fn dropped_line(dropped: Option<u16>) -> Seq<Seq<char>> {
    lines::line_of(
        match dropped {
            Some(tg) => Some(
                "force-idle: was locked on TG="@ + crate::text::decimal(tg as nat)
                    + " which is now blocked"@,
            ),
            None => None,
        },
    )
}

/// Change the list by hand: clear it, add to it, remove from it, in this order.
/// If the talkgroup that is followed is on the list after that, its call is
/// dropped: no talkgroup is followed and the traffic demodulator is off.
pub fn put_encrypted_tgs(
    r: &BlocklistRequest,
    forwarder: &mut ImbeForwarder,
    followed: Option<u16>,
    core: &mut IpCore,
) -> (update: BlocklistUpdate)
    ensures
        final(forwarder).encrypted_tg_history@ == after_request(
            *r,
            old(forwarder).encrypted_tg_history@,
        ),
        update.dropped == dropped_call(followed, final(forwarder).encrypted_tg_history@),
        final(forwarder).current_talkgroup == if update.dropped is Some {
            0
        } else {
            old(forwarder).current_talkgroup
        },
        final(forwarder).counts() == old(forwarder).counts(),
        final(forwarder).call_encrypted == old(forwarder).call_encrypted,
        final(forwarder).vocoder_reset_pending == old(forwarder).vocoder_reset_pending,
        final(forwarder).imbe_ring@ == old(forwarder).imbe_ring@,
        ip_core::wrote(
            *old(core),
            *final(core),
            if update.dropped is Some {
                seq![BusOp::DemodEnable { chain: Chain::Traffic, enable: false }]
            } else {
                Seq::<BusOp>::empty()
            },
        ),
        lines::texts(update.applied@) == changes(*r, old(forwarder).encrypted_tg_history@)
            + dropped_line(update.dropped),
        lines::texts(update.errors@) == refusals(*r),
        update.log@ == "encrypted_tgs update: "@ + lines::joined(
            lines::texts(update.applied@),
            ", "@,
        ),
{
    let mut applied: Vec<String> = Vec::new();
    let mut errors: Vec<String> = Vec::new();
    let ghost none = Seq::<Seq<char>>::empty();
    let ghost start = forwarder.encrypted_tg_history@;
    proof {
        assert(lines::texts(applied@) =~= none);
        assert(lines::texts(errors@) =~= none);
        ip_core::lemma_wrote_nothing(*core);
    }
    if is_text(r.clear, "1") {
        let n: usize = forwarder.encrypted_tg_history.len();
        forwarder.encrypted_tg_history.clear();
        push_line(&mut applied, surrounded_number("cleared (", n as u64, " entries)"));
    }
    let ghost applied1 = lines::texts(applied@);
    assert(forwarder.encrypted_tg_history@ =~= after_clearing(*r, start));

    match r.add {
        Some(v) => match read_talkgroup(Some(v)) {
            Some(tg) => {
                if forwarder.encrypted_tg_history.insert(tg) {
                    push_line(&mut applied, numbered("added TG=", tg as u64));
                } else {
                    push_line(&mut applied, surrounded_number("TG=", tg as u64, " already present"));
                }
            },
            None => {
                let shown: String = quoted_text(v);
                push_line(&mut errors, surrounded("add=", shown.as_str(), " not an integer"));
            },
        },
        None => {},
    }
    let ghost applied2 = lines::texts(applied@);
    let ghost errors2 = lines::texts(errors@);
    assert(forwarder.encrypted_tg_history@ =~= after_adding(*r, start));

    match r.remove {
        Some(v) => match read_talkgroup(Some(v)) {
            Some(tg) => {
                if forwarder.encrypted_tg_history.remove(&tg) {
                    push_line(&mut applied, numbered("removed TG=", tg as u64));
                } else {
                    push_line(&mut applied, surrounded_number("TG=", tg as u64, " not in list"));
                }
            },
            None => {
                let shown: String = quoted_text(v);
                push_line(&mut errors, surrounded("remove=", shown.as_str(), " not an integer"));
            },
        },
        None => {},
    }
    proof {
        assert(forwarder.encrypted_tg_history@ =~= after_request(*r, start));
        assert(lines::texts(applied@) =~= changes(*r, start));
        assert(lines::texts(errors@) =~= refusals(*r));
    }

    let mut dropped: Option<u16> = None;
    match followed {
        Some(tg) => {
            if forwarder.encrypted_tg_history.contains(&tg) {
                dropped = Some(tg);
                forwarder.current_talkgroup = 0;
                core.set_traffic_demod_enable(false);
                push_line(
                    &mut applied,
                    surrounded_number(
                        "force-idle: was locked on TG=",
                        tg as u64,
                        " which is now blocked",
                    ),
                );
            }
        },
        None => {},
    }
    assert(lines::texts(applied@) =~= changes(*r, start) + dropped_line(dropped));
    let mut log = "encrypted_tgs update: ".to_owned();
    let all: String = join_lines(&applied, ", ");
    log.append(all.as_str());
    BlocklistUpdate { applied, errors, dropped, log }
}

/// A talkgroup that is added is on the list, unless the same request removes
/// it; one that is removed is not. Others stay as they were, unless the list is
/// cleared.
pub proof fn request_changes_what_it_names(r: BlocklistRequest, set: Set<u16>, tg: u16)
    ensures
        monitoring::talkgroup_of(r.remove) == Some(tg) ==> !after_request(r, set).contains(tg),
        monitoring::talkgroup_of(r.add) == Some(tg) && monitoring::talkgroup_of(r.remove) != Some(tg) ==> after_request(
            r,
            set,
        ).contains(tg),
        monitoring::talkgroup_of(r.add) != Some(tg) && monitoring::talkgroup_of(r.remove) != Some(tg) ==> (after_request(
            r,
            set,
        ).contains(tg) <==> set.contains(tg) && !clears(r)),
{
}

/// A number given to be added is on the list afterwards, and one given to be
/// removed is not.
pub proof fn numbers_given_are_obeyed(r: BlocklistRequest, set: Set<u16>, n: u16)
    ensures
        r.remove matches Some(v) ==> v@ == crate::text::decimal(n as nat) ==> !after_request(
            r,
            set,
        ).contains(n),
        r.remove is None ==> (r.add matches Some(v) ==> v@ == crate::text::decimal(n as nat)
            ==> after_request(r, set).contains(n)),
{
    if let Some(v) = r.remove {
        if v@ == crate::text::decimal(n as nat) {
            monitoring::talkgroups_are_named_by_number(r.remove, n as nat);
        }
    }
    if let Some(v) = r.add {
        if v@ == crate::text::decimal(n as nat) {
            monitoring::talkgroups_are_named_by_number(r.add, n as nat);
        }
    }
}

/// The list is cleared by `1` and by no other text; then only what the same
/// request adds is on it.
pub proof fn clearing_empties_the_list(r: BlocklistRequest, set: Set<u16>, tg: u16)
    ensures
        clears(r) <==> (r.clear matches Some(v) && v@ == "1"@),
        clears(r) && r.add is None ==> !after_request(r, set).contains(tg),
        r.clear is None && r.add is None && r.remove is None ==> after_request(r, set) == set,
{
}

/// A call is dropped exactly when its talkgroup is on the list afterwards.
pub proof fn blocked_calls_are_dropped(followed: Option<u16>, set: Set<u16>)
    ensures
        dropped_call(followed, set) is Some <==> (followed matches Some(tg) && set.contains(tg)),
        dropped_call(followed, set) is Some ==> dropped_call(followed, set) == followed,
{
}

/// Every change that is asked for is answered with one line: what is cleared,
/// what is added and what is removed; a text that names no talkgroup is refused
/// with one.
pub proof fn every_change_is_answered(r: BlocklistRequest, set: Set<u16>)
    ensures
        changes(r, set).len() == (if clears(r) {
            1int
        } else {
            0
        }) + (if monitoring::talkgroup_of(r.add) is Some {
            1int
        } else {
            0
        }) + (if monitoring::talkgroup_of(r.remove) is Some {
            1int
        } else {
            0
        }),
        refusals(r).len() == (if r.add is Some && monitoring::talkgroup_of(r.add) is None {
            1int
        } else {
            0
        }) + (if r.remove is Some && monitoring::talkgroup_of(r.remove) is None {
            1int
        } else {
            0
        }),
{
}

/// The answer to adding and removing says whether the list changed.
pub proof fn answers_say_whether_the_list_changed(r: BlocklistRequest, set: Set<u16>, tg: u16)
    requires
        r.clear is None,
    ensures
        monitoring::talkgroup_of(r.add) == Some(tg) && r.remove is None ==> changes(r, set)
            == seq![
            if set.contains(tg) {
                "TG="@ + crate::text::decimal(tg as nat) + " already present"@
            } else {
                "added TG="@ + crate::text::decimal(tg as nat)
            },
        ],
        monitoring::talkgroup_of(r.remove) == Some(tg) && r.add is None ==> changes(r, set)
            == seq![
            if set.contains(tg) {
                "removed TG="@ + crate::text::decimal(tg as nat)
            } else {
                "TG="@ + crate::text::decimal(tg as nat) + " not in list"@
            },
        ],
{
    if monitoring::talkgroup_of(r.add) == Some(tg) && r.remove is None {
        assert(changes(r, set).len() == 1);
        assert(changes(r, set) =~= seq![changes(r, set)[0]]);
    }
    if monitoring::talkgroup_of(r.remove) == Some(tg) && r.add is None {
        assert(changes(r, set).len() == 1);
        assert(changes(r, set) =~= seq![changes(r, set)[0]]);
    }
}

/// Clearing is answered first, with the number of talkgroups that were on the
/// list.
pub proof fn clearing_says_how_many(r: BlocklistRequest, set: Set<u16>)
    requires
        r.clear matches Some(v) && v@ == "1"@,
    ensures
        changes(r, set).len() > 0,
        ({
            let line = changes(r, set)[0];
            line.subrange(9, line.len() - 9) == crate::text::decimal(set.len())
        }),
{
    reveal_strlit("cleared (");
    reveal_strlit(" entries)");
    let line = changes(r, set)[0];
    assert(line.subrange(9, line.len() - 9) =~= crate::text::decimal(set.len()));
}

/// A dropped call has one line, which names its talkgroup.
pub proof fn dropped_calls_are_named(dropped: Option<u16>)
    ensures
        dropped is None ==> dropped_line(dropped).len() == 0,
        dropped matches Some(tg) ==> dropped_line(dropped).len() == 1 && ({
            let line = dropped_line(dropped)[0];
            line.subrange(29, line.len() - 21) == crate::text::decimal(tg as nat)
        }),
{
    reveal_strlit("force-idle: was locked on TG=");
    reveal_strlit(" which is now blocked");
    if let Some(tg) = dropped {
        let line = dropped_line(dropped)[0];
        assert(line.subrange(29, line.len() - 21) =~= crate::text::decimal(tg as nat));
    }
}

} // verus!
