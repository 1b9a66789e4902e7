use vstd::prelude::*;
use vstd::seq_lib::{lemma_sorted_unique, to_multiset_build, to_multiset_insert};
use vstd::relations::{sorted_by, total_ordering};
use crate::playback::sorted;

verus! {

/// `order` lists each index of `keys` exactly once.
pub open spec fn is_index_permutation(order: Seq<usize>, n: int) -> bool {
    &&& order.len() == n
    &&& forall|i: int| 0 <= i < n ==> order[i] < n
    &&& forall|i: int, j: int| 0 <= i < j < n ==> order[i] != order[j]
}

/// Visiting `keys` in `order` gives non-decreasing keys, equal keys in index order: the
/// order a stable sort by key produces.
pub open spec fn is_stable_order(keys: Seq<u64>, order: Seq<usize>) -> bool {
    &&& is_index_permutation(order, keys.len() as int)
    &&& forall|a: int, b: int| 0 <= a < b < order.len() ==>
        keys[order[a] as int] < keys[order[b] as int]
            || (keys[order[a] as int] == keys[order[b] as int] && order[a] < order[b])
}

/// The order in which a stable sort by `keys` visits the indices `0..keys.len()`.
pub fn stable_order(keys: &Vec<u64>) -> (order: Vec<usize>)
    ensures
        is_stable_order(keys@, order@),
{
    let n: usize = keys.len();
    let mut order: Vec<usize> = Vec::new();
    let mut i: usize = 0;
    while i < n
        invariant
            n == keys@.len(),
            i <= n,
            order@.len() == i,
            forall|k: int| 0 <= k < i ==> order@[k] < i,
            forall|a: int, b: int| 0 <= a < b < i ==> order@[a] != order@[b],
            forall|a: int, b: int| 0 <= a < b < i ==>
                keys@[order@[a] as int] < keys@[order@[b] as int]
                    || (keys@[order@[a] as int] == keys@[order@[b] as int] && order@[a] < order@[b]),
        decreases n - i,
    {
        let ki: u64 = keys[i];
        let mut pos: usize = 0;
        while pos < order.len() && keys[order[pos]] <= ki
            invariant
                n == keys@.len(),
                i < n,
                order@.len() == i,
                pos <= i,
                forall|k: int| 0 <= k < i ==> order@[k] < i,
                forall|k: int| 0 <= k < pos ==> keys@[order@[k] as int] <= ki,
                forall|a: int, b: int| 0 <= a < b < i ==>
                    keys@[order@[a] as int] < keys@[order@[b] as int]
                        || (keys@[order@[a] as int] == keys@[order@[b] as int] && order@[a] < order@[b]),
            decreases i - pos,
        {
            pos = pos + 1;
        }
        proof {
            assert forall|k: int| pos <= k < i implies keys@[order@[k] as int] > ki by {
                if keys@[order@[k] as int] <= ki {
                    assert(pos < i);
                    assert(keys@[order@[pos as int] as int] > ki);
                    assert(keys@[order@[pos as int] as int] <= keys@[order@[k] as int]);
                }
            }
        }
        let ghost old_order = order@;
        order.insert(pos, i);
        proof {
            old_order.insert_ensures(pos as int, i);
            assert forall|a: int, b: int| 0 <= a < b < i + 1 implies order@[a] != order@[b] by {
                if a < pos && b > pos { assert(order@[b] == old_order[b - 1]); }
                if a > pos { assert(order@[a] == old_order[a - 1] && order@[b] == old_order[b - 1]); }
            }
            assert forall|a: int, b: int| 0 <= a < b < i + 1 implies
                keys@[order@[a] as int] < keys@[order@[b] as int]
                    || (keys@[order@[a] as int] == keys@[order@[b] as int] && order@[a] < order@[b]) by {
                if a < pos && b > pos { assert(order@[b] == old_order[b - 1]); }
                if a > pos { assert(order@[a] == old_order[a - 1] && order@[b] == old_order[b - 1]); }
            }
        }
        i = i + 1;
    }
    order
}

} // verus!

verus! {

/// `s` in ascending order.
pub open spec fn ascending_order(s: Seq<i64>) -> Seq<i64> {
    s.sort_by(|a: i64, b: i64| a <= b)
}

/// A sorted sequence with the same elements as `s` is `s` in ascending order.
pub proof fn lemma_ascending_unique(s: Seq<i64>, t: Seq<i64>)
    requires
        sorted(t),
        t.to_multiset() == s.to_multiset(),
    ensures
        t == ascending_order(s),
{
    let leq = |a: i64, b: i64| a <= b;
    assert(total_ordering(leq));
    s.lemma_sort_by_ensures(leq);
    assert(sorted_by(t, leq)) by {
        assert forall|i: int, j: int| 0 <= i < j < t.len() implies #[trigger] leq(t[i], t[j]) by {}
    }
    lemma_sorted_unique(ascending_order(s), t, leq);
}

/// A copy of `v` in ascending order.
pub fn sorted_copy(v: &Vec<i64>) -> (res: Vec<i64>)
    ensures
        sorted(res@),
        res@.to_multiset() == v@.to_multiset(),
        res@ == ascending_order(v@),
{
    let mut res: Vec<i64> = Vec::new();
    let mut i: usize = 0;
    assert(v@.take(0) =~= res@);
    while i < v.len()
        invariant
            i <= v@.len(),
            sorted(res@),
            res@.to_multiset() == v@.take(i as int).to_multiset(),
        decreases v@.len() - i,
    {
        let x: i64 = v[i];
        let mut pos: usize = 0;
        while pos < res.len() && res[pos] <= x
            invariant
                pos <= res@.len(),
                forall|k: int| 0 <= k < pos ==> res@[k] <= x,
            decreases res@.len() - pos,
        {
            pos = pos + 1;
        }
        let ghost before = res@;
        res.insert(pos, x);
        proof {
            to_multiset_insert(before, pos as int, x);
            assert(v@.take(i + 1) =~= v@.take(i as int).push(x));
            to_multiset_build(v@.take(i as int), x);
            assert forall|a: int, b: int| 0 <= a <= b < res@.len() implies res@[a] <= res@[b] by {
                if b < pos {
                    assert(res@[a] == before[a] && res@[b] == before[b]);
                } else if b == pos {
                    if a < pos { assert(res@[a] == before[a]); }
                } else {
                    assert(res@[b] == before[b - 1]);
                    if pos < before.len() {
                        assert(before[pos as int] > x);
                        assert(before[pos as int] <= before[b - 1]);
                    }
                    if a < pos {
                        assert(res@[a] == before[a]);
                    } else if a > pos {
                        assert(res@[a] == before[a - 1]);
                    }
                }
            }
        }
        i = i + 1;
    }
    assert(v@.take(v@.len() as int) =~= v@);
    proof { lemma_ascending_unique(v@, res@); }
    res
}

} // verus!
