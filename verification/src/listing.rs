//! The order in which the local UI lists pending items: by creation time,
//! oldest first, items created at the same moment in the order they are kept.
use vstd::prelude::*;

verus! {

/// `order` lists every position of `keys` once, by nondecreasing key, and
/// positions with equal keys in their own order.
pub open spec fn is_listing_order(keys: Seq<u64>, order: Seq<usize>) -> bool {
    &&& order.len() == keys.len()
    &&& forall|k: int| 0 <= k < order.len() ==> (#[trigger] order[k]) < keys.len()
    &&& forall|k1: int, k2: int| 0 <= k1 < k2 < order.len() ==> (#[trigger] order[k1]) != (#[trigger] order[k2])
    &&& forall|j: int| 0 <= j < keys.len() ==> #[trigger] order.contains(j as usize)
    &&& forall|k1: int, k2: int|
        0 <= k1 < k2 < order.len() ==> keys[#[trigger] order[k1] as int] <= keys[#[trigger] order[k2] as int]
    &&& forall|k1: int, k2: int|
        0 <= k1 < k2 < order.len() && keys[order[k1] as int] == keys[order[k2] as int] ==> (#[trigger] order[k1])
            < (#[trigger] order[k2])
}

/// The positions of `keys` in listing order (see `is_listing_order`).
pub fn listing_order(keys: &Vec<u64>) -> (order: Vec<usize>)
    ensures
        is_listing_order(keys@, order@),
{
    let n = keys.len();
    let mut order: Vec<usize> = Vec::new();
    let mut i: usize = 0;
    while i < n
        invariant
            n == keys.len(),
            i <= n,
            order.len() == i,
            forall|k: int| 0 <= k < order.len() ==> (#[trigger] order@[k]) < i,
            forall|k1: int, k2: int| 0 <= k1 < k2 < order.len() ==> (#[trigger] order@[k1]) != (#[trigger] order@[k2]),
            forall|j: int| 0 <= j < i ==> #[trigger] order@.contains(j as usize),
            forall|k1: int, k2: int|
                0 <= k1 < k2 < order.len() ==> keys@[#[trigger] order@[k1] as int] <= keys@[#[trigger] order@[k2] as int],
            forall|k1: int, k2: int|
                0 <= k1 < k2 < order.len() && keys@[order@[k1] as int] == keys@[order@[k2] as int] ==> (#[trigger] order@[k1])
                    < (#[trigger] order@[k2]),
        decreases n - i,
    {
        let key = keys[i];
        let mut p: usize = 0;
        while p < order.len() && keys[order[p]] <= key
            invariant
                n == keys.len(),
                i < n,
                key == keys@[i as int],
                order.len() == i,
                p <= order.len(),
                forall|k: int| 0 <= k < order.len() ==> (#[trigger] order@[k]) < i,
                forall|k: int| 0 <= k < p ==> keys@[(#[trigger] order@[k]) as int] <= key,
            decreases order.len() - p,
        {
            p += 1;
        }
        let ghost old_order = order@;
        order.insert(p, i);
        proof {
            assert forall|k: int| 0 <= k < order.len() implies (#[trigger] order@[k]) < i + 1 by {
                if k < p {
                    assert(order@[k] == old_order[k]);
                } else if k > p {
                    assert(order@[k] == old_order[k - 1]);
                }
            }
            assert forall|k1: int, k2: int| 0 <= k1 < k2 < order.len() implies (#[trigger] order@[k1]) != (#[trigger] order@[k2]) by {
                let a = if k1 < p { k1 } else { k1 - 1 };
                let b = if k2 < p { k2 } else { k2 - 1 };
                if k1 != p && k2 != p {
                    assert(order@[k1] == old_order[a]);
                    assert(order@[k2] == old_order[b]);
                } else if k1 == p {
                    assert(order@[k2] == old_order[b]);
                } else {
                    assert(order@[k1] == old_order[a]);
                }
            }
            assert forall|j: int| 0 <= j < i + 1 implies #[trigger] order@.contains(j as usize) by {
                if j == i {
                    assert(order@[p as int] == i);
                } else {
                    assert(old_order.contains(j as usize));
                    let w = choose|w: int| 0 <= w < old_order.len() && old_order[w] == j as usize;
                    if w < p {
                        assert(order@[w] == old_order[w]);
                    } else {
                        assert(order@[w + 1] == old_order[w]);
                    }
                }
            }
            assert forall|k1: int, k2: int| 0 <= k1 < k2 < order.len() implies keys@[#[trigger] order@[k1] as int]
                <= keys@[#[trigger] order@[k2] as int] && (keys@[order@[k1] as int] == keys@[order@[k2] as int]
                ==> order@[k1] < order@[k2]) by {
                let a = if k1 < p { k1 } else { k1 - 1 };
                let b = if k2 < p { k2 } else { k2 - 1 };
                if k1 != p && k2 != p {
                    assert(order@[k1] == old_order[a]);
                    assert(order@[k2] == old_order[b]);
                } else if k1 == p {
                    assert(order@[k2] == old_order[b]);
                    assert(b >= p);
                    assert(keys@[old_order[p as int] as int] > key);
                    if b > p {
                        assert(keys@[old_order[p as int] as int] <= keys@[old_order[b] as int]);
                    }
                } else {
                    assert(order@[k1] == old_order[a]);
                    assert(a < p);
                }
            }
        }
        i += 1;
    }
    order
}

} // verus!
