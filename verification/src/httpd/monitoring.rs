//! The monitored talkgroups, and changing them.

use vstd::prelude::*;
use crate::json::json_numbers_at;
use crate::monitor::MonitorList;
use crate::text::parse_unsigned;

verus! {

/// The talkgroup that a text names.
pub open spec fn talkgroup_of(given: Option<&str>) -> Option<u16> {
    match given {
        Some(v) => match crate::text::unsigned_value(v@, u16::MAX as int) {
            Some(n) => Some(n as u16),
            None => None,
        },
        None => None,
    }
}

/// The talkgroup that a text names.
pub fn read_talkgroup(given: Option<&str>) -> (tg: Option<u16>)
    ensures
        tg == talkgroup_of(given),
{
    match given {
        Some(v) => match parse_unsigned(v, u16::MAX as u64) {
            Some(n) => Some(n as u16),
            None => None,
        },
        None => None,
    }
}

/// Add a talkgroup, then remove one, where they are given. What is no talkgroup
/// is passed over.
pub fn get_monitor(list: &mut MonitorList, add: Option<&str>, remove: Option<&str>)
    requires
        old(list).wf(),
    ensures
        final(list).wf(),
        ({
            let with = match talkgroup_of(add) {
                Some(tg) => crate::monitor::added(old(list)@, tg),
                None => old(list)@,
            };
            final(list)@ == match talkgroup_of(remove) {
                Some(tg) => crate::monitor::without(with, tg),
                None => with,
            }
        }),
{
    match read_talkgroup(add) {
        Some(tg) => list.add(tg),
        None => {},
    }
    match read_talkgroup(remove) {
        Some(tg) => list.remove(tg),
        None => {},
    }
}

/// The talkgroups among the items of an array: the low 16 bits of the numbers.
pub open spec fn talkgroups_among(items: Seq<Option<u64>>) -> Seq<u16>
    decreases items.len(),
{
    if items.len() == 0 {
        Seq::empty()
    } else {
        match items.last() {
            Some(n) => talkgroups_among(items.drop_last()).push((n % 0x1_0000) as u16),
            None => talkgroups_among(items.drop_last()),
        }
    }
}

/// The list after a request with these items; unchanged without any array.
pub open spec fn list_after(list: Seq<u16>, items: Option<Seq<Option<u64>>>) -> Seq<u16> {
    match items {
        Some(s) => crate::monitor::first_occurrences(talkgroups_among(s)),
        None => list,
    }
}

/// Replace the list by the talkgroups among the items of an array, where there
/// is one.
pub fn replace_monitored(list: &mut MonitorList, items: Option<Vec<Option<u64>>>)
    requires
        old(list).wf(),
    ensures
        final(list).wf(),
        final(list)@ == list_after(
            old(list)@,
            match items {
                Some(v) => Some(v@),
                None => None,
            },
        ),
{
    match items {
        Some(v) => {
            let mut tgs: Vec<u16> = Vec::new();
            let mut i: usize = 0;
            assert(v@.take(0) =~= Seq::<Option<u64>>::empty());
            while i < v.len()
                invariant
                    i <= v@.len(),
                    tgs@ == talkgroups_among(v@.take(i as int)),
                decreases v@.len() - i,
            {
                match v[i] {
                    Some(n) => tgs.push((n % 0x1_0000) as u16),
                    None => {},
                }
                assert(v@.take(i + 1).drop_last() =~= v@.take(i as int));
                i = i + 1;
            }
            assert(v@.take(i as int) =~= v@);
            list.set(tgs);
        },
        None => {},
    }
}

/// Replace the list by the `talkgroups` of a JSON object, where it has such an
/// array.
pub fn put_monitor(list: &mut MonitorList, body: &[u8])
    requires
        old(list).wf(),
    ensures
        final(list).wf(),
        final(list)@ == list_after(
            old(list)@,
            crate::json::numbers_at(body@, "talkgroups"@),
        ),
{
    replace_monitored(list, json_numbers_at(body, "talkgroups"));
}

/// A talkgroup is named by its number, and by nothing that is no number or more
/// than 16 bits.
pub proof fn talkgroups_are_named_by_number(given: Option<&str>, n: nat)
    requires
        given matches Some(v) && v@ == crate::text::decimal(n),
    ensures
        n < 0x1_0000 ==> talkgroup_of(given) == Some(n as u16),
        n >= 0x1_0000 ==> talkgroup_of(given) is None,
{
    if n < 0x1_0000 {
        crate::text::parsing_undoes_rendering(n, u16::MAX as int);
    } else {
        crate::text::too_large_numbers_are_refused(n, u16::MAX as int);
    }
}

/// Without a text, or with one that has anything but digits after a sign in
/// front, no talkgroup is named.
pub proof fn other_texts_name_no_talkgroup(given: Option<&str>, i: int)
    ensures
        given is None ==> talkgroup_of(given) is None,
        given matches Some(v) ==> 0 < i < v@.len() && !('0' <= v@[i] && v@[i] <= '9')
            ==> talkgroup_of(given) is None,
        given matches Some(v) ==> v@.len() == 0 ==> talkgroup_of(given) is None,
{
    if let Some(v) = given {
        crate::text::other_texts_are_no_numbers(v@, u16::MAX as int, i);
    }
}

/// Every number of the array is taken, by its low 16 bits and in its order, and
/// what is no number is passed over.
pub proof fn numbers_are_taken_in_order(items: Seq<Option<u64>>, more: Seq<Option<u64>>, n: u64)
    ensures
        talkgroups_among(items + more) == talkgroups_among(items) + talkgroups_among(more),
        talkgroups_among(seq![Some(n)]) == seq![(n % 0x1_0000) as u16],
        talkgroups_among(seq![None]).len() == 0,
        talkgroups_among(seq![]).len() == 0,
    decreases more.len(),
{
    reveal_with_fuel(talkgroups_among, 2);
    assert(seq![Some(n)].drop_last() =~= Seq::<Option<u64>>::empty());
    assert(seq![None::<u64>].drop_last() =~= Seq::<Option<u64>>::empty());
    assert(talkgroups_among(seq![Some(n)]) =~= seq![(n % 0x1_0000) as u16]);
    if more.len() == 0 {
        assert(items + more =~= items);
        assert(talkgroups_among(items) + talkgroups_among(more) =~= talkgroups_among(items));
    } else {
        numbers_are_taken_in_order(items, more.drop_last(), n);
        assert((items + more).drop_last() =~= items + more.drop_last());
        assert((items + more).last() == more.last());
        assert(talkgroups_among(items + more) =~= talkgroups_among(items) + talkgroups_among(more));
    }
}

/// An array replaces the list by exactly its talkgroups; without one the list
/// stays.
pub proof fn arrays_replace_the_list(list: Seq<u16>, items: Seq<Option<u64>>, tg: u16)
    ensures
        list_after(list, None) == list,
        list_after(list, Some(items)).no_duplicates(),
        list_after(list, Some(items)).contains(tg) <==> talkgroups_among(items).contains(tg),
{
    crate::monitor::replaced_list_holds_each_once(talkgroups_among(items));
}

} // verus!
