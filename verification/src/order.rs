//! Sorting positions in document order, by their indices.
use vstd::prelude::*;
use vstd::relations::total_ordering;

use crate::position::{before, is_before, Position};

verus! {

/// Index `a` comes before index `b` when its key does; equal keys keep the order of their indices.
pub open spec fn precedes(keys: Seq<Position>, descending: bool, a: int, b: int) -> bool {
    if keys[a] == keys[b] {
        a < b
    } else if descending {
        before(keys[b], keys[a])
    } else {
        before(keys[a], keys[b])
    }
}

/// `order` lists every index of `keys` once, in the order of their keys.
pub open spec fn is_order(order: Seq<usize>, keys: Seq<Position>, descending: bool) -> bool {
    &&& order.len() == keys.len()
    &&& forall|i: int| 0 <= i < order.len() ==> (#[trigger] order[i]) < keys.len()
    &&& forall|i: int, j: int|
        0 <= i < j < order.len() ==> precedes(
            keys,
            descending,
            (#[trigger] order[i]) as int,
            (#[trigger] order[j]) as int,
        )
}

/// The indices of `keys` in the order of their keys, equal keys in the order of their indices.
pub open spec fn order_of(keys: Seq<Position>, descending: bool) -> Seq<usize> {
    choose|order: Seq<usize>| is_order(order, keys, descending)
}

/// An order lists every index.
pub proof fn lemma_order_lists_all(
    order: Seq<usize>,
    keys: Seq<Position>,
    descending: bool,
    x: usize,
)
    requires
        is_order(order, keys, descending),
        keys.len() <= usize::MAX,
        x < keys.len(),
    ensures
        order.contains(x),
{
    assert(order.no_duplicates());
    let listed = order.to_set();
    let all = Set::new(|v: usize| v < keys.len());
    order.unique_seq_to_set();
    let n = keys.len();
    lemma_below_finite(n);
    assert(listed.subset_of(all));
    vstd::set_lib::lemma_subset_equality(listed, all);
    assert(all.contains(x));
}

/// There are `n` numbers below `n`.
proof fn lemma_below_finite(n: nat)
    requires
        n <= usize::MAX + 1,
    ensures
        Set::new(|v: usize| v < n).finite(),
        Set::new(|v: usize| v < n).len() == n,
    decreases n,
{
    let all = Set::new(|v: usize| v < n);
    if n == 0 {
        assert(all =~= Set::empty());
    } else {
        let m = (n - 1) as nat;
        lemma_below_finite(m);
        assert(all =~= Set::new(|v: usize| v < m).insert(m as usize));
    }
}

/// There is only one order.
pub proof fn lemma_order_unique(a: Seq<usize>, b: Seq<usize>, keys: Seq<Position>, descending: bool)
    requires
        is_order(a, keys, descending),
        is_order(b, keys, descending),
        keys.len() <= usize::MAX,
    ensures
        a == b,
{
    assert forall|k: int| 0 <= k < a.len() implies a[k] == b[k] by {
        lemma_order_agrees(a, b, keys, descending, k);
    }
    assert(a =~= b);
}

proof fn lemma_order_agrees(
    a: Seq<usize>,
    b: Seq<usize>,
    keys: Seq<Position>,
    descending: bool,
    k: int,
)
    requires
        is_order(a, keys, descending),
        is_order(b, keys, descending),
        keys.len() <= usize::MAX,
        0 <= k < a.len(),
    ensures
        forall|i: int| 0 <= i <= k ==> a[i] == b[i],
    decreases k,
{
    if k > 0 {
        lemma_order_agrees(a, b, keys, descending, k - 1);
    }
    lemma_order_lists_all(b, keys, descending, a[k]);
    lemma_order_lists_all(a, keys, descending, b[k]);
    let i = choose|i: int| 0 <= i < b.len() && b[i] == a[k];
    let j = choose|j: int| 0 <= j < a.len() && a[j] == b[k];
    if i < k {
        assert(precedes(keys, descending, a[i] as int, a[k] as int));
    }
    if j < k {
        assert(precedes(keys, descending, b[j] as int, b[k] as int));
    }
    if i > k && j > k {
        assert(precedes(keys, descending, b[k] as int, b[i] as int));
        assert(precedes(keys, descending, a[k] as int, a[j] as int));
    }
}

/// The order that was found is the order.
pub proof fn lemma_is_the_order(order: Seq<usize>, keys: Seq<Position>, descending: bool)
    requires
        is_order(order, keys, descending),
        keys.len() <= usize::MAX,
    ensures
        order == order_of(keys, descending),
{
    lemma_order_unique(order, order_of(keys, descending), keys, descending);
}

/// The order of a single key.
pub proof fn lemma_order_of_one(keys: Seq<Position>, descending: bool)
    requires
        keys.len() == 1,
    ensures
        order_of(keys, descending) == seq![0usize],
{
    assert(is_order(seq![0usize], keys, descending));
    lemma_is_the_order(seq![0usize], keys, descending);
}

/// The order lists the indices as it should: there always is one.
pub proof fn lemma_order_exists(keys: Seq<Position>, descending: bool)
    requires
        keys.len() <= usize::MAX,
    ensures
        is_order(order_of(keys, descending), keys, descending),
{
    let leq = |a: usize, b: usize| a == b || precedes(keys, descending, a as int, b as int);
    let all = Seq::new(keys.len(), |i: int| i as usize);
    assert(total_ordering(leq));
    all.lemma_sort_by_ensures(leq);
    let order = all.sort_by(leq);
    assert(all.no_duplicates());
    all.lemma_multiset_has_no_duplicates();
    order.lemma_multiset_has_no_duplicates_conv();
    all.to_multiset_ensures();
    order.to_multiset_ensures();
    assert(order.len() == keys.len());
    assert forall|i: int| 0 <= i < order.len() implies (#[trigger] order[i]) < keys.len() by {
        assert(order.contains(order[i]));
    }
    assert forall|i: int, j: int| 0 <= i < j < order.len() implies precedes(
        keys,
        descending,
        (#[trigger] order[i]) as int,
        (#[trigger] order[j]) as int,
    ) by {
        assert(leq(order[i], order[j]));
        assert(order[i] != order[j]);
    }
    assert(is_order(order, keys, descending));
}

fn comes_before(keys: &Vec<Position>, descending: bool, a: usize, b: usize) -> (r: bool)
    requires
        a < keys@.len(),
        b < keys@.len(),
    ensures
        r == precedes(keys@, descending, a as int, b as int),
{
    let ka = keys[a];
    let kb = keys[b];
    if ka.0 == kb.0 && ka.1 == kb.1 {
        a < b
    } else if descending {
        is_before(kb, ka)
    } else {
        is_before(ka, kb)
    }
}

/// Sorts the indices of `keys` by their keys, equal keys in the order of their indices.
pub fn sorted_indices(keys: &Vec<Position>, descending: bool) -> (order: Vec<usize>)
    ensures
        is_order(order@, keys@, descending),
        order@ == order_of(keys@, descending),
{
    let mut order: Vec<usize> = Vec::new();
    let mut i: usize = 0;
    while i < keys.len()
        invariant
            i <= keys.len(),
            order@.len() == i,
            forall|k: int| 0 <= k < i ==> (#[trigger] order@[k]) < i,
            forall|k: int, l: int|
                0 <= k < l < i ==> precedes(
                    keys@,
                    descending,
                    (#[trigger] order@[k]) as int,
                    (#[trigger] order@[l]) as int,
                ),
        decreases keys.len() - i,
    {
        let mut p = i;
        while p > 0 && !comes_before(keys, descending, order[p - 1], i)
            invariant
                p <= i < keys.len(),
                order@.len() == i,
                forall|k: int| 0 <= k < i ==> (#[trigger] order@[k]) < i,
                forall|k: int|
                    p <= k < i ==> precedes(
                        keys@,
                        descending,
                        i as int,
                        (#[trigger] order@[k]) as int,
                    ),
            decreases p,
        {
            p = p - 1;
        }
        order.insert(p, i);
        i += 1;
    }
    proof {
        lemma_is_the_order(order@, keys@, descending);
    }
    order
}

} // verus!
