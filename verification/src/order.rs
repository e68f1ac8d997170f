//! Stable ordering of records by an integer key, as `sort_by_key` orders them.

use vstd::prelude::*;

verus! {

/// `order` lists each index below `n` exactly once.
pub open spec fn is_index_permutation(order: Seq<usize>, n: nat) -> bool {
    &&& order.len() == n
    &&& forall|i: int| 0 <= i < order.len() ==> #[trigger] order[i] < n
    &&& forall|i: int, j: int| 0 <= i < j < order.len() ==> order[i] != order[j]
}

/// Listing the records in `order` puts their keys in ascending order, and
/// records with equal keys keep their original order.
pub open spec fn is_stable_order(keys: Seq<u64>, order: Seq<usize>) -> bool {
    &&& forall|i: int, j: int|
        0 <= i < j < order.len() ==> keys[order[i] as int] <= keys[order[j] as int]
    &&& forall|i: int, j: int|
        0 <= i < j < order.len() && keys[order[i] as int] == keys[order[j] as int] ==> order[i]
            < order[j]
}

/// The order in which a stable sort by `keys` lists the records.
pub fn stable_order(keys: &[u64]) -> (r: Vec<usize>)
    ensures
        is_index_permutation(r@, keys@.len()),
        is_stable_order(keys@, r@),
{
    let n = keys.len();
    let mut order: Vec<usize> = Vec::new();
    let mut k: usize = 0;
    while k < n
        invariant
            n == keys@.len(),
            k <= n,
            is_index_permutation(order@, k as nat),
            is_stable_order(keys@, order@),
        decreases n - k,
    {
        let key = keys[k];
        let mut p: usize = 0;
        while p < order.len() && keys[order[p]] <= key
            invariant
                n == keys@.len(),
                k < n,
                p <= order@.len(),
                is_index_permutation(order@, k as nat),
                forall|j: int| 0 <= j < p ==> keys@[order@[j] as int] <= key,
            decreases order@.len() - p,
        {
            p = p + 1;
        }
        let ghost before = order@;
        proof {
            assert forall|j: int| p <= j < before.len() implies keys@[before[j] as int] > key by {
                if p < before.len() {
                    assert(keys@[before[p as int] as int] > key);
                    if j > p {
                        assert(keys@[before[p as int] as int] <= keys@[before[j] as int]);
                    }
                }
            }
        }
        order.insert(p, k);
        proof {
            let after = order@;
            assert(after == before.insert(p as int, k));
            assert forall|i: int| 0 <= i < after.len() implies #[trigger] after[i] < k + 1 by {
                if i < p {
                    assert(after[i] == before[i]);
                } else if i > p {
                    assert(after[i] == before[i - 1]);
                }
            }
            assert forall|i: int, j: int| 0 <= i < j < after.len() implies after[i] != after[j] by {
                if i < p && j < p {
                } else if i < p && j == p {
                    assert(before[i] < k);
                } else if i < p && j > p {
                    assert(after[j] == before[j - 1]);
                } else if i == p {
                    assert(after[j] == before[j - 1]);
                    assert(before[j - 1] < k);
                } else {
                    assert(after[i] == before[i - 1]);
                    assert(after[j] == before[j - 1]);
                }
            }
            assert forall|i: int, j: int| 0 <= i < j < after.len() implies keys@[after[i] as int]
                <= keys@[after[j] as int] by {
                if i < p && j < p {
                } else if i < p && j == p {
                } else if i < p && j > p {
                    assert(after[j] == before[j - 1]);
                } else if i == p {
                    assert(after[j] == before[j - 1]);
                } else {
                    assert(after[i] == before[i - 1]);
                    assert(after[j] == before[j - 1]);
                }
            }
            assert forall|i: int, j: int|
                0 <= i < j < after.len() && keys@[after[i] as int] == keys@[after[j] as int]
                implies after[i] < after[j] by {
                if i < p && j < p {
                } else if i < p && j == p {
                    assert(before[i] < k);
                } else if i < p && j > p {
                    assert(after[j] == before[j - 1]);
                } else if i == p {
                    assert(after[j] == before[j - 1]);
                } else {
                    assert(after[i] == before[i - 1]);
                    assert(after[j] == before[j - 1]);
                }
            }
        }
        k = k + 1;
    }
    order
}

/// The indices whose `keep` flag is set, in increasing order.
pub open spec fn kept_indices(keep: Seq<bool>) -> Seq<usize> {
    Seq::new(keep.len(), |i: int| i as usize).filter(|i: usize| keep[i as int])
}

/// `r` lists the kept indices as a stable sort by `keys` lists them.
pub open spec fn is_listing(r: Seq<usize>, keep: Seq<bool>, keys: Seq<u64>) -> bool {
    let sel = kept_indices(keep);
    exists|o: Seq<usize>|
        is_index_permutation(o, sel.len()) && is_stable_order(
            sel.map_values(|i: usize| keys[i as int]),
            o,
        ) && r == o.map_values(|j: usize| sel[j as int])
}

/// The kept indices, stably ordered by their keys.
pub fn listing(keep: &[bool], keys: &[u64]) -> (r: Vec<usize>)
    requires
        keep@.len() == keys@.len(),
    ensures
        is_listing(r@, keep@, keys@),
        forall|k: int| 0 <= k < r@.len() ==> r@[k] < keep@.len(),
{
    let n = keep.len();
    let ghost all = Seq::new(n as nat, |i: int| i as usize);
    let mut sel: Vec<usize> = Vec::new();
    let mut sel_keys: Vec<u64> = Vec::new();
    let mut i: usize = 0;
    assert(all.take(0) =~= Seq::<usize>::empty());
    while i < n
        invariant
            n == keep@.len(),
            n == keys@.len(),
            i <= n,
            all == Seq::new(n as nat, |i: int| i as usize),
            sel@ == all.take(i as int).filter(|x: usize| keep@[x as int]),
            sel_keys@ == sel@.map_values(|x: usize| keys@[x as int]),
            forall|j: int| 0 <= j < sel@.len() ==> sel@[j] < n,
        decreases n - i,
    {
        assert(all.take(i + 1).drop_last() =~= all.take(i as int));
        assert(all.take(i + 1).last() == i);
        proof {
            reveal_with_fuel(Seq::<usize>::filter, 1);
        }
        if keep[i] {
            sel.push(i);
            sel_keys.push(keys[i]);
            assert(sel_keys@ =~= sel@.map_values(|x: usize| keys@[x as int]));
        }
        i = i + 1;
    }
    assert(all.take(n as int) =~= all);
    let order = stable_order(sel_keys.as_slice());
    let mut r: Vec<usize> = Vec::new();
    let mut j: usize = 0;
    while j < order.len()
        invariant
            is_index_permutation(order@, sel@.len()),
            n == keep@.len(),
            forall|t: int| 0 <= t < sel@.len() ==> sel@[t] < n,
            forall|t: int| 0 <= t < r@.len() ==> r@[t] < n,
            j <= order@.len(),
            r@ == order@.take(j as int).map_values(|x: usize| sel@[x as int]),
        decreases order@.len() - j,
    {
        let x = sel[order[j]];
        r.push(x);
        j = j + 1;
        assert(r@ =~= order@.take(j as int).map_values(|x: usize| sel@[x as int]));
    }
    assert(order@.take(j as int) =~= order@);
    assert(sel@ == kept_indices(keep@));
    r
}

} // verus!
