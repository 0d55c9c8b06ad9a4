//! Copying between slices and vectors, and rings of the last items.

use vstd::prelude::*;

verus! {

/// Append copies of the items of `items` to `v`.
pub fn append_copies<T: Copy>(v: &mut Vec<T>, items: &[T])
    ensures
        final(v)@ == old(v)@ + items@,
{
    let ghost before = v@;
    let mut i: usize = 0;
    while i < items.len()
        invariant
            i <= items@.len(),
            v@ == before + items@.take(i as int),
        decreases items@.len() - i,
    {
        v.push(items[i]);
        proof {
            assert(items@.take(i + 1) =~= items@.take(i as int).push(items@[i as int]));
        }
        i = i + 1;
    }
    assert(items@.take(i as int) =~= items@);
}

/// The last `n` items of `s`, or all where there are no more.
pub open spec fn keep_last<T>(s: Seq<T>, n: nat) -> Seq<T> {
    if s.len() <= n {
        s
    } else {
        s.skip(s.len() - n)
    }
}

/// Append an item to a vector that holds at most `n`; the first item leaves
/// when it is full.
pub fn push_bounded<T>(v: &mut Vec<T>, item: T, n: usize)
    requires
        old(v)@.len() <= n,
        0 < n,
    ensures
        final(v)@ == keep_last(old(v)@.push(item), n as nat),
        final(v)@.len() <= n,
{
    let ghost before = v@;
    if v.len() >= n {
        let _ = v.remove(0);
    }
    v.push(item);
    assert(v@ =~= keep_last(before.push(item), n as nat));
}

/// Only the last `n` items matter to what is kept, however they are added.
pub proof fn keeping_the_last_in_steps<T>(a: Seq<T>, b: Seq<T>, n: nat)
    ensures
        keep_last(keep_last(a, n) + b, n) == keep_last(a + b, n),
{
    assert(keep_last(keep_last(a, n) + b, n) =~= keep_last(a + b, n));
}

/// The items of `s` added up.
pub open spec fn sum_of(s: Seq<u64>) -> nat
    decreases s.len(),
{
    if s.len() == 0 {
        0
    } else {
        sum_of(s.drop_last()) + s.last() as nat
    }
}

/// A part adds up to no more than the whole.
pub proof fn sum_of_prefix(s: Seq<u64>, k: int)
    requires
        0 <= k <= s.len(),
    ensures
        sum_of(s.take(k)) <= sum_of(s),
    decreases s.len() - k,
{
    if k < s.len() {
        sum_of_prefix(s, k + 1);
        assert(s.take(k + 1).drop_last() =~= s.take(k));
    } else {
        assert(s.take(k) =~= s);
    }
}

/// The items of a slice added up.
pub fn sum_slice(s: &[u64]) -> (total: u64)
    requires
        sum_of(s@) <= u64::MAX,
    ensures
        total == sum_of(s@),
{
    let mut total: u64 = 0;
    let mut i: usize = 0;
    assert(s@.take(0) =~= Seq::<u64>::empty());
    while i < s.len()
        invariant
            i <= s@.len(),
            sum_of(s@) <= u64::MAX,
            total == sum_of(s@.take(i as int)),
        decreases s@.len() - i,
    {
        proof {
            sum_of_prefix(s@, i + 1);
            assert(s@.take(i + 1).drop_last() =~= s@.take(i as int));
        }
        total = total + s[i];
        i = i + 1;
    }
    assert(s@.take(i as int) =~= s@);
    total
}

/// What is kept is the end of the row: never more than `n` items, all of them
/// where there are no more, and item for item counted from the end.
pub proof fn keeps_the_end<T>(s: Seq<T>, n: nat, i: int)
    ensures
        keep_last(s, n).len() == if s.len() <= n {
            s.len()
        } else {
            n
        },
        0 < i <= keep_last(s, n).len() ==> keep_last(s, n)[keep_last(s, n).len() - i] == s[s.len()
            - i],
{
}

/// A sum is the sum of its parts, and of one item that item.
pub proof fn sums_join(a: Seq<u64>, b: Seq<u64>)
    ensures
        sum_of(a + b) == sum_of(a) + sum_of(b),
        a.len() == 1 ==> sum_of(a) == a[0],
        a.len() == 0 ==> sum_of(a) == 0,
    decreases b.len(),
{
    reveal_with_fuel(sum_of, 2);
    if b.len() == 0 {
        assert(a + b =~= a);
    } else {
        sums_join(a, b.drop_last());
        assert((a + b).drop_last() =~= a + b.drop_last());
        assert((a + b).last() == b.last());
    }
}

} // verus!
