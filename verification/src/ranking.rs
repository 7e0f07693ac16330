//! Ranking by a key: the highest key first, and among equal keys the one that
//! came first.

use vstd::prelude::*;

verus! {

/// Whether item `a` ranks before item `b`: its key is higher, or the keys are
/// equal and `a` came first.
pub open spec fn ranks_before(keys: Seq<usize>, a: int, b: int) -> bool {
    keys[a] > keys[b] || (keys[a] == keys[b] && a < b)
}

/// Whether `order` lists every item once, each before those that it ranks
/// before.
pub open spec fn is_ranking(keys: Seq<usize>, order: Seq<usize>) -> bool {
    &&& order.len() == keys.len()
    &&& forall|i: int| 0 <= i < order.len() ==> (#[trigger] order[i]) < keys.len()
    &&& forall|i: int, j: int|
        0 <= i < j < order.len() ==> ranks_before(keys, #[trigger] order[i] as int, #[trigger] order[j] as int)
    &&& forall|k: usize| k < keys.len() ==> #[trigger] order.contains(k)
}

/// There is one ranking only.
pub proof fn lemma_ranking_unique(keys: Seq<usize>, a: Seq<usize>, b: Seq<usize>)
    requires
        is_ranking(keys, a),
        is_ranking(keys, b),
    ensures
        a == b,
{
    if a.len() > 0 {
        lemma_same_up_to(keys, a, b, a.len() - 1);
    }
    assert(a =~= b);
}

proof fn lemma_same_up_to(keys: Seq<usize>, a: Seq<usize>, b: Seq<usize>, i: int)
    requires
        is_ranking(keys, a),
        is_ranking(keys, b),
        0 <= i < a.len(),
    ensures
        forall|j: int| 0 <= j <= i ==> a[j] == b[j],
    decreases i,
{
    if i > 0 {
        lemma_same_up_to(keys, a, b, i - 1);
    }
    lemma_not_earlier(keys, a, b, i);
    lemma_not_earlier(keys, b, a, i);
}

/// Where two rankings agree before place `i`, the item of the first at `i` does
/// not rank before that of the second.
proof fn lemma_not_earlier(keys: Seq<usize>, a: Seq<usize>, b: Seq<usize>, i: int)
    requires
        is_ranking(keys, a),
        is_ranking(keys, b),
        0 <= i < a.len(),
        forall|j: int| 0 <= j < i ==> a[j] == b[j],
    ensures
        !ranks_before(keys, a[i] as int, b[i] as int),
{
    if ranks_before(keys, a[i] as int, b[i] as int) {
        // a[i] stands somewhere in b; but neither before, at, nor after place i
        assert(b.contains(a[i]));
        let q = choose|q: int| 0 <= q < b.len() && b[q] == a[i];
        if q > i {
            assert(ranks_before(keys, b[i] as int, b[q] as int));
        } else if q < i {
            assert(ranks_before(keys, a[q] as int, a[i] as int));
        }
    }
}

/// The ranking of the keys, which `is_ranking` fixes.
pub open spec fn ranking(keys: Seq<usize>) -> Seq<usize> {
    choose|order: Seq<usize>| is_ranking(keys, order)
}

/// Ranks the items by their keys, the highest first; items with equal keys
/// keep their order.
pub fn rank_descending(keys: &Vec<usize>) -> (order: Vec<usize>)
    ensures
        is_ranking(keys@, order@),
        order@ == ranking(keys@),
{
    let mut order: Vec<usize> = Vec::new();
    let mut i: usize = 0;
    while i < keys.len()
        invariant
            i <= keys.len(),
            order@.len() == i,
            forall|t: int| 0 <= t < order@.len() ==> (#[trigger] order@[t]) < i,
            forall|s: int, t: int|
                0 <= s < t < order@.len() ==> ranks_before(
                    keys@,
                    #[trigger] order@[s] as int,
                    #[trigger] order@[t] as int,
                ),
            forall|k: usize| k < i ==> #[trigger] order@.contains(k),
        decreases keys.len() - i,
    {
        let mut at: usize = 0;
        while at < order.len() && keys[order[at]] >= keys[i]
            invariant
                at <= order@.len(),
                order@.len() == i,
                i < keys.len(),
                forall|t: int| 0 <= t < order@.len() ==> (#[trigger] order@[t]) < i,
                forall|t: int| 0 <= t < at ==> keys@[(#[trigger] order@[t]) as int] >= keys@[i as int],
            decreases order.len() - at,
        {
            at += 1;
        }
        let ghost before = order@;
        order.insert(at, i);
        proof {
            let after = order@;
            assert(after.len() == i + 1);
            assert forall|t: int| 0 <= t < after.len() implies (#[trigger] after[t]) < i + 1 by {
                if t < at {
                    assert(after[t] == before[t]);
                } else if t > at {
                    assert(after[t] == before[t - 1]);
                }
            }
            assert forall|s: int, t: int| 0 <= s < t < after.len() implies ranks_before(
                keys@,
                #[trigger] after[s] as int,
                #[trigger] after[t] as int,
            ) by {
                if t < at {
                    assert(after[s] == before[s] && after[t] == before[t]);
                } else if t == at {
                    assert(after[s] == before[s]);
                } else if s < at {
                    assert(after[s] == before[s] && after[t] == before[t - 1]);
                } else if s == at {
                    assert(after[t] == before[t - 1]);
                    if t - 1 > at {
                        assert(ranks_before(keys@, before[at as int] as int, before[t - 1] as int));
                    }
                } else {
                    assert(after[s] == before[s - 1] && after[t] == before[t - 1]);
                }
            }
            assert forall|k: usize| k < i + 1 implies #[trigger] after.contains(k) by {
                if k < i {
                    assert(before.contains(k));
                    let p = choose|p: int| 0 <= p < before.len() && before[p] == k;
                    if p < at {
                        assert(after[p] == k);
                    } else {
                        assert(after[p + 1] == k);
                    }
                } else {
                    assert(after[at as int] == k);
                }
            }
        }
        i += 1;
    }
    proof {
        assert(is_ranking(keys@, order@));
        lemma_ranking_unique(keys@, order@, ranking(keys@));
    }
    order
}

} // verus!
