//! A stable sort by descending integer key: the order in which every
//! move-ordering routine of the search lists its moves.

use vstd::prelude::*;

verus! {

/// Index `a` comes before index `b`: a higher key, or an equal key and
/// an earlier index.
pub open spec fn ranks_before(keys: Seq<i64>, a: int, b: int) -> bool {
    keys[a] > keys[b] || (keys[a] == keys[b] && a < b)
}

/// `order` lists every index of `keys` exactly once, by descending key,
/// equal keys in their original order.
pub open spec fn is_stable_desc_order(keys: Seq<i64>, order: Seq<usize>) -> bool {
    &&& order.len() == keys.len()
    &&& forall|i: int| 0 <= i < order.len() ==> #[trigger] order[i] < keys.len()
    &&& forall|i: int, j: int|
        0 <= i < j < order.len() ==> ranks_before(keys, #[trigger] order[i] as int, #[trigger] order[j] as int)
    &&& forall|k: usize| k < keys.len() ==> #[trigger] order.contains(k)
}

/// `out` is `items` stably sorted by descending `keys` (one key per item).
pub open spec fn is_stable_desc_sort<T>(items: Seq<T>, keys: Seq<i64>, out: Seq<T>) -> bool {
    exists|order: Seq<usize>|
        {
            &&& #[trigger] is_stable_desc_order(keys, order)
            &&& out.len() == items.len()
            &&& forall|i: int| 0 <= i < out.len() ==> out[i] == items[order[i] as int]
        }
}

/// `items` stably sorted by descending `keys`.
pub open spec fn sorted_desc<T>(items: Seq<T>, keys: Seq<i64>) -> Seq<T> {
    choose|out: Seq<T>| is_stable_desc_sort(items, keys, out)
}

/// A stable descending sort has one result: `sorted_desc`.
pub proof fn law_stable_sort_is_sorted_desc<T>(items: Seq<T>, keys: Seq<i64>, out: Seq<T>)
    requires
        is_stable_desc_sort(items, keys, out),
    ensures
        out == sorted_desc(items, keys),
{
    let other = sorted_desc(items, keys);
    assert(is_stable_desc_sort(items, keys, other));
    let o1 = choose|order: Seq<usize>|
        {
            &&& #[trigger] is_stable_desc_order(keys, order)
            &&& out.len() == items.len()
            &&& forall|i: int| 0 <= i < out.len() ==> out[i] == items[order[i] as int]
        };
    let o2 = choose|order: Seq<usize>|
        {
            &&& #[trigger] is_stable_desc_order(keys, order)
            &&& other.len() == items.len()
            &&& forall|i: int| 0 <= i < other.len() ==> other[i] == items[order[i] as int]
        };
    law_stable_desc_order_unique(keys, o1, o2);
    assert(out =~= other);
}

/// A stable descending sort by a key function lists items by
/// non-increasing key: an item never comes after one it outranks.
pub proof fn law_stable_sort_follows_keys<T>(
    items: Seq<T>,
    key: spec_fn(T) -> i64,
    out: Seq<T>,
    i: int,
    j: int,
)
    requires
        is_stable_desc_sort(items, items.map_values(key), out),
        0 <= i < j < out.len(),
    ensures
        key(out[i]) >= key(out[j]),
{
    let keys = items.map_values(key);
    let order = choose|order: Seq<usize>|
        {
            &&& #[trigger] is_stable_desc_order(keys, order)
            &&& out.len() == items.len()
            &&& forall|k: int| 0 <= k < out.len() ==> out[k] == items[order[k] as int]
        };
    assert(ranks_before(keys, order[i] as int, order[j] as int));
    assert(out[i] == items[order[i] as int]);
    assert(out[j] == items[order[j] as int]);
}

/// The stable descending order of a key sequence is unique, so a sort
/// specified by `is_stable_desc_sort` has exactly one possible result.
pub proof fn law_stable_desc_order_unique(keys: Seq<i64>, o1: Seq<usize>, o2: Seq<usize>)
    requires
        is_stable_desc_order(keys, o1),
        is_stable_desc_order(keys, o2),
    ensures
        o1 == o2,
{
    if o1 != o2 {
        assert(exists|p: int| 0 <= p < o1.len() && o1[p] != o2[p]) by {
            if !(exists|p: int| 0 <= p < o1.len() && o1[p] != o2[p]) {
                assert(o1 =~= o2);
            }
        }
        let p0 = choose|p: int| 0 <= p < o1.len() && o1[p] != o2[p];
        let p = first_difference(o1, o2, p0);
        let x = o1[p] as int;
        let y = o2[p] as int;
        assert(o2.contains(o1[p]));
        assert(o1.contains(o2[p]));
        let q = choose|i: int| 0 <= i < o2.len() && o2[i] == x;
        let r = choose|i: int| 0 <= i < o1.len() && o1[i] == y;
        if q < p {
            assert(o1[q] == o2[q]);
            assert(ranks_before(keys, o1[q] as int, o1[p] as int));
        }
        if r < p {
            assert(o1[r] == o2[r]);
            assert(ranks_before(keys, o2[r] as int, o2[p] as int));
        }
        assert(q > p);
        assert(r > p);
        assert(ranks_before(keys, o1[p] as int, o1[r] as int));
        assert(ranks_before(keys, o2[p] as int, o2[q] as int));
    }
}

/// The first position at or before `p` where two equal-length sequences
/// differ.
proof fn first_difference(o1: Seq<usize>, o2: Seq<usize>, p: int) -> (f: int)
    requires
        o1.len() == o2.len(),
        0 <= p < o1.len(),
        o1[p] != o2[p],
    ensures
        0 <= f <= p,
        o1[f] != o2[f],
        forall|i: int| 0 <= i < f ==> o1[i] == o2[i],
    decreases p,
{
    if exists|i: int| 0 <= i < p && o1[i] != o2[i] {
        let i = choose|i: int| 0 <= i < p && o1[i] != o2[i];
        first_difference(o1, o2, i)
    } else {
        p
    }
}

/// The stable descending order of `keys`.
pub fn stable_desc_order(keys: &Vec<i64>) -> (order: Vec<usize>)
    ensures
        is_stable_desc_order(keys@, order@),
{
    let n = keys.len();
    let mut order: Vec<usize> = Vec::new();
    let mut i: usize = 0;
    while i < n
        invariant
            n == keys.len(),
            i <= n,
            order.len() == i,
            forall|a: int| 0 <= a < order.len() ==> #[trigger] order@[a] < i,
            forall|a: int, b: int|
                0 <= a < b < order.len() ==> ranks_before(keys@, #[trigger] order@[a] as int, #[trigger] order@[b] as int),
            forall|k: usize| k < i ==> #[trigger] order@.contains(k),
        decreases n - i,
    {
        let ki = keys[i];
        let mut p: usize = 0;
        while p < order.len() && keys[order[p]] >= ki
            invariant
                n == keys.len(),
                i < n,
                ki == keys@[i as int],
                p <= order.len(),
                forall|a: int| 0 <= a < order.len() ==> #[trigger] order@[a] < i,
                forall|a: int| 0 <= a < p ==> keys@[#[trigger] order@[a] as int] >= ki,
            decreases order.len() - p,
        {
            p = p + 1;
        }
        let ghost old_order = order@;
        order.insert(p, i);
        proof {
            assert(order@ == old_order.insert(p as int, i));
            assert forall|a: int, b: int| 0 <= a < b < order.len() implies ranks_before(
                keys@,
                #[trigger] order@[a] as int,
                #[trigger] order@[b] as int,
            ) by {
                if a < p && b < p {
                    assert(order@[a] == old_order[a] && order@[b] == old_order[b]);
                } else if a < p && b == p {
                    assert(order@[a] == old_order[a]);
                    assert(keys@[old_order[a] as int] >= ki);
                } else if a < p && b > p {
                    assert(order@[a] == old_order[a] && order@[b] == old_order[b - 1]);
                } else if a == p {
                    assert(order@[b] == old_order[b - 1]);
                    assert(p < old_order.len());
                    assert(keys@[old_order[p as int] as int] < ki);
                    if b - 1 > p {
                        assert(ranks_before(keys@, old_order[p as int] as int, old_order[b - 1] as int));
                    }
                } else {
                    assert(order@[a] == old_order[a - 1] && order@[b] == old_order[b - 1]);
                }
            }
            assert forall|k: usize| k < i + 1 implies #[trigger] order@.contains(k) by {
                if k == i {
                    assert(order@[p as int] == i);
                } else {
                    assert(old_order.contains(k));
                    let a = choose|a: int| 0 <= a < old_order.len() && old_order[a] == k;
                    if a < p {
                        assert(order@[a] == k);
                    } else {
                        assert(order@[a + 1] == k);
                    }
                }
            }
        }
        i = i + 1;
    }
    order
}

/// `items` listed in `order`.
pub fn apply_order<T: Copy>(items: &Vec<T>, order: &Vec<usize>) -> (out: Vec<T>)
    requires
        forall|i: int| 0 <= i < order.len() ==> #[trigger] order@[i] < items.len(),
    ensures
        out.len() == order.len(),
        forall|i: int| 0 <= i < out.len() ==> out@[i] == items@[order@[i] as int],
{
    let mut out: Vec<T> = Vec::new();
    let mut i: usize = 0;
    while i < order.len()
        invariant
            i <= order.len(),
            out.len() == i,
            forall|j: int| 0 <= j < order.len() ==> #[trigger] order@[j] < items.len(),
            forall|j: int| 0 <= j < i ==> out@[j] == items@[order@[j] as int],
        decreases order.len() - i,
    {
        out.push(items[order[i]]);
        i = i + 1;
    }
    out
}

/// `items` stably sorted by descending `keys`.
pub fn stable_sort_desc<T: Copy>(items: &Vec<T>, keys: &Vec<i64>) -> (out: Vec<T>)
    requires
        keys.len() == items.len(),
    ensures
        is_stable_desc_sort(items@, keys@, out@),
{
    let order = stable_desc_order(keys);
    let out = apply_order(items, &order);
    assert(is_stable_desc_order(keys@, order@));
    out
}

/// A stable sort only rearranges: every item of the output is an item of
/// the input and every item of the input occurs in the output.
pub proof fn law_stable_sort_same_items<T>(items: Seq<T>, keys: Seq<i64>, out: Seq<T>)
    requires
        keys.len() == items.len(),
        items.len() <= usize::MAX,
        is_stable_desc_sort(items, keys, out),
    ensures
        out.len() == items.len(),
        forall|i: int| 0 <= i < out.len() ==> items.contains(#[trigger] out[i]),
        forall|k: int| 0 <= k < items.len() ==> out.contains(#[trigger] items[k]),
{
    let order = choose|order: Seq<usize>|
        {
            &&& #[trigger] is_stable_desc_order(keys, order)
            &&& out.len() == items.len()
            &&& forall|i: int| 0 <= i < out.len() ==> out[i] == items[order[i] as int]
        };
    assert forall|i: int| 0 <= i < out.len() implies items.contains(#[trigger] out[i]) by {
        assert(order[i] < keys.len());
        assert(items[order[i] as int] == out[i]);
    }
    assert forall|k: int| 0 <= k < items.len() implies out.contains(#[trigger] items[k]) by {
        let ku = k as usize;
        assert(ku == k);
        assert(order.contains(ku));
        let i = choose|i: int| 0 <= i < order.len() && order[i] == ku;
        assert(out[i] == items[k]);
    }
}

} // verus!
