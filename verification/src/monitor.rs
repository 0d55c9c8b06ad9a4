//! The list of monitored talkgroups.
//!
//! With an empty list every talkgroup is followed; otherwise only those on it.
//! The first talkgroup has the highest priority.

use vstd::prelude::*;
use std::collections::HashSet;

verus! {

broadcast use vstd::std_specs::hash::group_hash_axioms;

/// The items of `s`, each at its first occurrence only.
pub open spec fn first_occurrences(s: Seq<u16>) -> Seq<u16>
    decreases s.len(),
{
    if s.len() == 0 {
        seq![]
    } else {
        added(first_occurrences(s.drop_last()), s.last())
    }
}

/// `s` with `tg` behind it, unless it holds `tg` already.
pub open spec fn added(s: Seq<u16>, tg: u16) -> Seq<u16> {
    if s.contains(tg) {
        s
    } else {
        s.push(tg)
    }
}

/// `s` without `tg`, the others in the same order.
pub open spec fn without(s: Seq<u16>, tg: u16) -> Seq<u16>
    decreases s.len(),
{
    if s.len() == 0 {
        seq![]
    } else if s.last() == tg {
        without(s.drop_last(), tg)
    } else {
        without(s.drop_last(), tg).push(s.last())
    }
}

/// The place of a talkgroup in the order of priority; the largest number for
/// one that is not listed.
pub open spec fn place(monitored: Seq<u16>, tg: u16) -> int {
    if monitored.contains(tg) {
        monitored.index_of(tg)
    } else {
        usize::MAX as int
    }
}

/// Monitored talkgroups in order of priority, none twice.
#[derive(Debug)]
pub struct MonitorList {
    priority: Vec<u16>,
    set: HashSet<u16>,
}

impl MonitorList {
    /// The talkgroups in order of priority.
    pub closed spec fn view(&self) -> Seq<u16> {
        self.priority@
    }

    /// No talkgroup is listed twice, and look-up agrees with the list.
    pub closed spec fn wf(&self) -> bool {
        &&& self.priority@.no_duplicates()
        &&& forall|tg: u16| #[trigger] self.set@.contains(tg) <==> self.priority@.contains(tg)
        &&& self.set@.finite()
    }

    /// An empty list.
    pub fn new() -> (list: MonitorList)
        ensures
            list.wf(),
            list@ == Seq::<u16>::empty(),
    {
        MonitorList { priority: Vec::new(), set: HashSet::new() }
    }

    /// Whether nothing is monitored in particular.
    pub fn is_empty(&self) -> (r: bool)
        requires
            self.wf(),
        ensures
            r == (self@.len() == 0),
    {
        proof {
            if self.priority@.len() > 0 {
                assert(self.priority@.contains(self.priority@[0]));
                assert(self.set@.contains(self.priority@[0]));
            } else {
                assert(self.set@ =~= Set::<u16>::empty()) by {
                    assert forall|tg: u16| !self.set@.contains(tg) by {
                        assert(self.set@.contains(tg) <==> self.priority@.contains(tg));
                    }
                }
            }
        }
        self.set.is_empty()
    }

    /// Whether a talkgroup is on the list.
    pub fn contains(&self, tg: u16) -> (r: bool)
        requires
            self.wf(),
        ensures
            r == self@.contains(tg),
    {
        self.set.contains(&tg)
    }

    /// Replace the list. A talkgroup given twice counts where it comes first.
    pub fn set(&mut self, tgs: Vec<u16>)
        ensures
            final(self).wf(),
            final(self)@ == first_occurrences(tgs@),
    {
        self.set.clear();
        self.priority.clear();
        let mut i: usize = 0;
        assert(tgs@.take(0) =~= Seq::<u16>::empty());
        while i < tgs.len()
            invariant
                i <= tgs@.len(),
                self.wf(),
                self@ == first_occurrences(tgs@.take(i as int)),
            decreases tgs@.len() - i,
        {
            self.add(tgs[i]);
            assert(tgs@.take(i + 1).drop_last() =~= tgs@.take(i as int));
            i = i + 1;
        }
        assert(tgs@.take(i as int) =~= tgs@);
    }

    /// Put a talkgroup at the end of the list, unless it is on it.
    pub fn add(&mut self, tg: u16)
        requires
            old(self).wf(),
        ensures
            final(self).wf(),
            final(self)@ == added(old(self)@, tg),
    {
        let ghost before = self.priority@;
        if self.set.insert(tg) {
            self.priority.push(tg);
            proof {
                assert forall|t: u16| #[trigger]
                    self.set@.contains(t) <==> self.priority@.contains(t) by {
                    if before.contains(t) {
                        let i = before.index_of(t);
                        assert(self.priority@[i] == t);
                    }
                    if t == tg {
                        assert(self.priority@[before.len() as int] == tg);
                    }
                }
            }
        }
    }

    /// Take a talkgroup off the list.
    pub fn remove(&mut self, tg: u16)
        requires
            old(self).wf(),
        ensures
            final(self).wf(),
            final(self)@ == without(old(self)@, tg),
    {
        let ghost before = self.priority@;
        if self.set.remove(&tg) {
            let mut kept: Vec<u16> = Vec::new();
            let mut i: usize = 0;
            assert(before.take(0) =~= Seq::<u16>::empty());
            while i < self.priority.len()
                invariant
                    i <= self.priority@.len(),
                    self.priority@ == before,
                    kept@ == without(before.take(i as int), tg),
                decreases self.priority@.len() - i,
            {
                let t: u16 = self.priority[i];
                if t != tg {
                    kept.push(t);
                }
                assert(before.take(i + 1).drop_last() =~= before.take(i as int));
                i = i + 1;
            }
            assert(before.take(i as int) =~= before);
            self.priority = kept;
            proof {
                lemma_without(before, tg);
            }
        } else {
            proof {
                lemma_without_absent(before, tg);
            }
        }
    }

    /// The talkgroups in order of priority.
    pub fn list(&self) -> (s: &[u16])
        ensures
            s@ == self@,
    {
        self.priority.as_slice()
    }

    /// The place of a talkgroup in the order, or the largest number when it is
    /// not on the list.
    pub fn priority_of(&self, tg: u16) -> (p: usize)
        requires
            self.wf(),
        ensures
            self@.contains(tg) ==> p < self@.len() && self@[p as int] == tg,
            !self@.contains(tg) ==> p == usize::MAX,
            p == place(self@, tg),
    {
        let mut i: usize = 0;
        while i < self.priority.len()
            invariant
                i <= self.priority@.len(),
                self.wf(),
                forall|j: int| 0 <= j < i ==> self.priority@[j] != tg,
            decreases self.priority@.len() - i,
        {
            if self.priority[i] == tg {
                assert(self.priority@.contains(tg));
                assert(self.priority@.index_of(tg) == i);
                return i;
            }
            i = i + 1;
        }
        usize::MAX
    }
}

impl Default for MonitorList {
    fn default() -> (list: MonitorList)
        ensures
            list.wf(),
            list@ == Seq::<u16>::empty(),
    {
        MonitorList::new()
    }
}

/// A well-formed list holds no talkgroup twice.
pub proof fn listed_once(list: &MonitorList)
    requires
        list.wf(),
    ensures
        list@.no_duplicates(),
{
}

proof fn lemma_without(s: Seq<u16>, tg: u16)
    requires
        s.no_duplicates(),
    ensures
        without(s, tg).no_duplicates(),
        forall|t: u16|
            #[trigger] without(s, tg).contains(t) <==> s.contains(t) && t != tg,
    decreases s.len(),
{
    if s.len() > 0 {
        let rest = s.drop_last();
        lemma_without(rest, tg);
        let r = without(s, tg);
        assert forall|t: u16| #[trigger] r.contains(t) <==> s.contains(t) && t != tg by {
            if s.contains(t) {
                let i = s.index_of(t);
                if i < s.len() - 1 {
                    assert(rest[i] == t);
                    assert(without(rest, tg).contains(t) <==> rest.contains(t) && t != tg);
                    if t != tg {
                        let k = without(rest, tg).index_of(t);
                        assert(r[k] == t);
                    }
                } else if t != tg {
                    assert(r[r.len() - 1] == t);
                }
            }
            if r.contains(t) {
                let i = r.index_of(t);
                if i < without(rest, tg).len() {
                    assert(without(rest, tg)[i] == t);
                    assert(without(rest, tg).contains(t));
                    let k = rest.index_of(t);
                    assert(s[k] == t);
                } else {
                    assert(s[s.len() - 1] == t);
                }
            }
        }
        if s.last() != tg {
            assert forall|i: int, j: int|
                0 <= i < r.len() && 0 <= j < r.len() && i != j implies r[i] != r[j] by {
                if i == r.len() - 1 {
                    assert(without(rest, tg).contains(r[j]));
                    let k = rest.index_of(r[j]);
                    assert(s[k] != s[s.len() - 1]);
                } else if j == r.len() - 1 {
                    assert(without(rest, tg).contains(r[i]));
                    let k = rest.index_of(r[i]);
                    assert(s[k] != s[s.len() - 1]);
                }
            }
        }
    }
}

proof fn lemma_without_absent(s: Seq<u16>, tg: u16)
    requires
        !s.contains(tg),
    ensures
        without(s, tg) == s,
    decreases s.len(),
{
    if s.len() > 0 {
        assert(s[s.len() - 1] != tg);
        assert forall|i: int| 0 <= i < s.len() - 1 implies s.drop_last()[i] != tg by {
            assert(s[i] != tg);
        }
        lemma_without_absent(s.drop_last(), tg);
        assert(s.drop_last().push(s.last()) =~= s);
    }
}

/// Taking off a talkgroup undoes putting it on, where it was not on before.
pub proof fn removing_undoes_adding(s: Seq<u16>, tg: u16)
    requires
        !s.contains(tg),
    ensures
        without(added(s, tg), tg) == s,
{
    lemma_without_absent(s, tg);
    assert(s.push(tg).drop_last() =~= s);
}

/// A replaced list holds exactly the given talkgroups, none twice, in the
/// order in which each came first.
pub proof fn replaced_list_holds_each_once(tgs: Seq<u16>)
    ensures
        first_occurrences(tgs).no_duplicates(),
        forall|t: u16| #[trigger] first_occurrences(tgs).contains(t) <==> tgs.contains(t),
    decreases tgs.len(),
{
    if tgs.len() > 0 {
        let rest = tgs.drop_last();
        let last = tgs.last();
        replaced_list_holds_each_once(rest);
        let r = first_occurrences(rest);
        assert forall|t: u16| #[trigger]
            first_occurrences(tgs).contains(t) <==> tgs.contains(t) by {
            assert(r.contains(t) <==> rest.contains(t));
            if tgs.contains(t) {
                let i = tgs.index_of(t);
                if i < rest.len() {
                    assert(rest[i] == t);
                    let k = r.index_of(t);
                    assert(first_occurrences(tgs)[k] == t);
                } else if !r.contains(last) {
                    assert(first_occurrences(tgs)[r.len() as int] == t);
                }
            }
            if first_occurrences(tgs).contains(t) {
                if r.contains(t) {
                    let i = rest.index_of(t);
                    assert(tgs[i] == t);
                } else {
                    assert(t == last);
                    assert(tgs[tgs.len() - 1] == t);
                }
            }
        }
    }
}

/// Adding puts a talkgroup on the list and keeps the others in their places; one
/// that is on it keeps its place, too.
pub proof fn adding_keeps_the_order(s: Seq<u16>, tg: u16, i: int)
    ensures
        added(s, tg).contains(tg),
        s.contains(tg) ==> added(s, tg) == s,
        !s.contains(tg) ==> added(s, tg).len() == s.len() + 1 && added(s, tg).last() == tg,
        0 <= i < s.len() ==> added(s, tg)[i] == s[i],
{
    if !s.contains(tg) {
        assert(added(s, tg)[s.len() as int] == tg);
    }
}

/// Removing takes a talkgroup off the list, and no other one.
pub proof fn removing_takes_one_off(s: Seq<u16>, tg: u16, other: u16)
    requires
        s.no_duplicates(),
    ensures
        !without(s, tg).contains(tg),
        other != tg ==> (without(s, tg).contains(other) <==> s.contains(other)),
        without(s, tg).len() == s.len() - (if s.contains(tg) {
            1int
        } else {
            0
        }),
{
    lemma_without(s, tg);
    lemma_length_without(s, tg);
    assert(without(s, tg).contains(other) <==> s.contains(other) && other != tg);
    assert(without(s, tg).contains(tg) <==> s.contains(tg) && tg != tg);
}

proof fn lemma_length_without(s: Seq<u16>, tg: u16)
    requires
        s.no_duplicates(),
    ensures
        without(s, tg).len() == s.len() - (if s.contains(tg) {
            1int
        } else {
            0
        }),
    decreases s.len(),
{
    if s.len() > 0 {
        let rest = s.drop_last();
        lemma_length_without(rest, tg);
        if s.contains(tg) {
            let i = s.index_of(tg);
            if i < s.len() - 1 {
                assert(rest[i] == tg);
            } else {
                assert forall|k: int| 0 <= k < rest.len() implies rest[k] != tg by {
                    assert(s[k] != s[s.len() - 1]);
                }
            }
        } else {
            assert forall|k: int| 0 <= k < rest.len() implies rest[k] != tg by {
                assert(s[k] != tg);
            }
            assert(s[s.len() - 1] != tg);
        }
    }
}

/// What is left after removing keeps its order: of two talkgroups, the one that
/// stood before the other still does.
pub proof fn removing_keeps_the_order(s: Seq<u16>, tg: u16, i: int, j: int)
    requires
        s.no_duplicates(),
        0 <= i < j < s.len(),
        s[i] != tg,
        s[j] != tg,
    ensures
        exists|a: int, b: int|
            0 <= a < b < without(s, tg).len() && #[trigger] without(s, tg)[a] == s[i]
                && #[trigger] without(s, tg)[b] == s[j],
    decreases s.len(),
{
    let rest = s.drop_last();
    let r = without(s, tg);
    lemma_without(rest, tg);
    if j == s.len() - 1 {
        assert(rest[i] == s[i]);
        assert(rest.contains(s[i]));
        assert(without(rest, tg).contains(s[i]));
        let a = without(rest, tg).index_of(s[i]);
        assert(r[a] == s[i] && r[r.len() - 1] == s[j]);
    } else {
        removing_keeps_the_order(rest, tg, i, j);
        let (a, b) = choose|a: int, b: int|
            0 <= a < b < without(rest, tg).len() && #[trigger] without(rest, tg)[a] == rest[i]
                && #[trigger] without(rest, tg)[b] == rest[j];
        assert(r[a] == s[i] && r[b] == s[j]);
    }
}

/// A list without a talkgroup twice is taken over as it is.
pub proof fn lists_without_repeats_are_kept(tgs: Seq<u16>)
    requires
        tgs.no_duplicates(),
    ensures
        first_occurrences(tgs) == tgs,
    decreases tgs.len(),
{
    if tgs.len() > 0 {
        let rest = tgs.drop_last();
        lists_without_repeats_are_kept(rest);
        assert(!rest.contains(tgs.last())) by {
            if rest.contains(tgs.last()) {
                let i = rest.index_of(tgs.last());
                assert(tgs[i] == tgs[tgs.len() - 1]);
            }
        }
        assert(rest.push(tgs.last()) =~= tgs);
    }
}

/// A talkgroup that is given again counts where it came first.
pub proof fn repeats_change_nothing(tgs: Seq<u16>, again: u16)
    requires
        tgs.contains(again),
    ensures
        first_occurrences(tgs.push(again)) == first_occurrences(tgs),
{
    replaced_list_holds_each_once(tgs);
    assert(tgs.push(again).drop_last() =~= tgs);
    assert(first_occurrences(tgs).contains(again));
}

/// The first on the list has the highest priority, each next one the next, and
/// what is not listed comes after all.
pub proof fn priority_is_the_place(monitored: Seq<u16>, i: int, tg: u16)
    requires
        monitored.no_duplicates(),
        monitored.len() <= usize::MAX,
    ensures
        0 <= i < monitored.len() ==> place(monitored, monitored[i]) == i,
        !monitored.contains(tg) ==> place(monitored, tg) >= monitored.len(),
{
    if 0 <= i < monitored.len() {
        assert(monitored.contains(monitored[i]));
        assert(monitored[monitored.index_of(monitored[i])] == monitored[i]);
    }
}

} // verus!
