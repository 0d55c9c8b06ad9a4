//! Stable sorting by a key.

use vstd::prelude::*;

verus! {

/// Whether item `a` sorts before item `b`: by key, then by place.
pub open spec fn sorts_before(keys: Seq<u128>, a: usize, b: usize) -> bool {
    keys[a as int] < keys[b as int] || (keys[a as int] == keys[b as int] && a < b)
}

/// Whether `order` lists the places of the first `n` keys, each once, in
/// ascending order of key, equal keys in the order of their places.
pub open spec fn is_order_of(order: Seq<usize>, keys: Seq<u128>, n: int) -> bool {
    &&& order.len() == n
    &&& forall|i: int| 0 <= i < order.len() ==> (#[trigger] order[i]) < n
    &&& forall|i: int, j: int|
        0 <= i < j < order.len() ==> sorts_before(keys, #[trigger] order[i], #[trigger] order[j])
    &&& forall|k: usize| k < n ==> #[trigger] order.contains(k)
}

/// The places of the keys in ascending order of key, equal keys in the order
/// of their places.
pub fn sorted_order(keys: &Vec<u128>) -> (order: Vec<usize>)
    ensures
        is_order_of(order@, keys@, keys@.len() as int),
{
    let mut order: Vec<usize> = Vec::new();
    let mut n: usize = 0;
    while n < keys.len()
        invariant
            n <= keys@.len(),
            is_order_of(order@, keys@, n as int),
        decreases keys@.len() - n,
    {
        let mut at: usize = order.len();
        while at > 0 && keys[order[at - 1]] > keys[n]
            invariant
                at <= order@.len(),
                n < keys@.len(),
                is_order_of(order@, keys@, n as int),
                forall|i: int| at <= i < order@.len() ==> keys@[n as int] < keys@[(#[trigger] order@[i]) as int],
            decreases at,
        {
            at = at - 1;
        }
        let ghost before = order@;
        order.insert(at, n);
        proof {
            assert forall|i: int, j: int| 0 <= i < j < order@.len() implies sorts_before(
                keys@,
                #[trigger] order@[i],
                #[trigger] order@[j],
            ) by {
                let a = if i < at {
                    i
                } else {
                    i - 1
                };
                let b = if j < at {
                    j
                } else {
                    j - 1
                };
                if i != at && j != at {
                    assert(sorts_before(keys@, before[a], before[b]));
                } else if j == at {
                    assert(order@[i] == before[i]);
                    if i < at - 1 {
                        assert(sorts_before(keys@, before[i], before[at - 1]));
                    }
                } else {
                    assert(order@[j] == before[j - 1]);
                }
            }
            assert forall|k: usize| k < n + 1 implies #[trigger] order@.contains(k) by {
                if k == n {
                    assert(order@[at as int] == n);
                } else {
                    assert(before.contains(k));
                    let i = before.index_of(k);
                    if i < at {
                        assert(order@[i] == k);
                    } else {
                        assert(order@[i + 1] == k);
                    }
                }
            }
            assert forall|i: int| 0 <= i < order@.len() implies (#[trigger] order@[i]) < n + 1 by {
                if i < at {
                    assert(order@[i] == before[i]);
                } else if i > at {
                    assert(order@[i] == before[i - 1]);
                }
            }
        }
        n = n + 1;
    }
    order
}

/// There is one such order.
pub proof fn sorted_order_is_unique(a: Seq<usize>, b: Seq<usize>, keys: Seq<u128>, n: int, i: int)
    requires
        is_order_of(a, keys, n),
        is_order_of(b, keys, n),
        0 <= i < n,
    ensures
        a[i] == b[i],
    decreases i,
{
    assert forall|k: int| 0 <= k < i implies a[k] == b[k] by {
        sorted_order_is_unique(a, b, keys, n, k);
    }
    // Were the two different here, each would come later in the other order.
    assert(a.contains(b[i]) && b.contains(a[i]));
    let p = a.index_of(b[i]);
    let q = b.index_of(a[i]);
    if p < i {
        assert(b[p] == b[i]);
        assert(sorts_before(keys, b[p], b[i]));
    }
    if q < i {
        assert(a[q] == a[i]);
        assert(sorts_before(keys, a[q], a[i]));
    }
    if p > i && q > i {
        assert(sorts_before(keys, a[i], a[p]));
        assert(sorts_before(keys, b[i], b[q]));
    }
}

/// In such an order the keys never fall, equal keys stand in the order of their
/// places, and every place occurs once.
pub proof fn keys_never_fall(order: Seq<usize>, keys: Seq<u128>, i: int, j: int)
    requires
        is_order_of(order, keys, keys.len() as int),
        0 <= i < j < keys.len(),
    ensures
        order.len() == keys.len(),
        order[i] < keys.len(),
        order[j] < keys.len(),
        keys[order[i] as int] <= keys[order[j] as int],
        keys[order[i] as int] == keys[order[j] as int] ==> order[i] < order[j],
        order[i] != order[j],
        forall|k: int| 0 <= k < keys.len() && k <= usize::MAX ==> order.contains(#[trigger] (k as usize)),
{
    assert(sorts_before(keys, order[i], order[j]));
}

} // verus!
