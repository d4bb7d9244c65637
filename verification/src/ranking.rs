//! Ranking of instruments by a score.

use crate::num::Double;
use vstd::prelude::*;

verus! {

/// Whether position `a` ranks before position `b`: its key is greater, or
/// the keys are equal and it comes first.
pub open spec fn ranks_before(keys: Seq<int>, a: int, b: int) -> bool {
    keys[a] > keys[b] || (keys[a] == keys[b] && a < b)
}

/// The keys by which scores are ordered.
pub open spec fn keys_of(scores: Seq<Double>) -> Seq<int> {
    scores.map_values(|d: Double| d.order_key())
}

/// Whether `order` lists the first `count` positions of `scores`, each once,
/// best first.
pub open spec fn ranked(scores: Seq<int>, order: Seq<usize>, count: int) -> bool {
    &&& order.len() == count
    &&& forall|i: int| 0 <= i < order.len() ==> (#[trigger] order[i]) < count
    &&& forall|i: int, j: int|
        0 <= i < j < order.len() ==> ranks_before(
            scores,
            (#[trigger] order[i]) as int,
            (#[trigger] order[j]) as int,
        )
}

/// A ranking lists no position twice.
pub proof fn lemma_ranked_distinct(scores: Seq<int>, order: Seq<usize>, count: int)
    requires
        ranked(scores, order, count),
    ensures
        order.no_duplicates(),
{
    assert forall|i: int, j: int| 0 <= i < order.len() && 0 <= j < order.len() && i != j implies order[i]
        != order[j] by {
        if i < j {
            assert(ranks_before(scores, order[i] as int, order[j] as int));
        } else {
            assert(ranks_before(scores, order[j] as int, order[i] as int));
        }
    }
}

/// Scores that already descend strictly are ranked in their own order.
pub proof fn lemma_descending_keeps_order(scores: Seq<int>, order: Seq<usize>)
    requires
        ranked(scores, order, scores.len() as int),
        forall|a: int, b: int|
            0 <= a < b < scores.len() ==> (#[trigger] scores[a]) > (#[trigger] scores[b]),
    ensures
        forall|i: int| 0 <= i < order.len() ==> #[trigger] order[i] == i,
    decreases scores.len(),
{
    lemma_ranked_distinct(scores, order, scores.len() as int);
    assert forall|i: int, j: int| 0 <= i < j < order.len() implies (#[trigger] order[i]) < (
    #[trigger] order[j]) by {
        assert(ranks_before(scores, order[i] as int, order[j] as int));
        if order[i] > order[j] {
            assert(scores[order[j] as int] > scores[order[i] as int]);
        }
    }
    lemma_increasing_identity(order, 0);
}

proof fn lemma_increasing_identity(order: Seq<usize>, k: int)
    requires
        forall|i: int| 0 <= i < order.len() ==> (#[trigger] order[i]) < order.len(),
        forall|i: int, j: int|
            0 <= i < j < order.len() ==> (#[trigger] order[i]) < (#[trigger] order[j]),
        0 <= k <= order.len(),
        forall|i: int| 0 <= i < k ==> #[trigger] order[order.len() - 1 - i] == order.len() - 1 - i,
    ensures
        forall|i: int| 0 <= i < order.len() ==> #[trigger] order[i] == i,
    decreases order.len() - k,
{
    let n = order.len() as int;
    if k < n {
        lemma_at_least_index(order, n - 1 - k);
        if k > 0 {
            assert(order[n - 1 - (k - 1)] == n - 1 - (k - 1));
            assert(order[n - 1 - k] < order[n - k]);
        }
        assert(order[n - 1 - k] == n - 1 - k);
        assert forall|i: int| 0 <= i < k + 1 implies #[trigger] order[n - 1 - i] == n - 1 - i by {
            if i < k {
                assert(order[n - 1 - i] == n - 1 - i);
            }
        }
        lemma_increasing_identity(order, k + 1);
    } else {
        assert forall|i: int| 0 <= i < n implies #[trigger] order[i] == i by {
            assert(order[n - 1 - (n - 1 - i)] == n - 1 - (n - 1 - i));
        }
    }
}

proof fn lemma_at_least_index(order: Seq<usize>, i: int)
    requires
        0 <= i < order.len(),
        forall|a: int, b: int|
            0 <= a < b < order.len() ==> (#[trigger] order[a]) < (#[trigger] order[b]),
    ensures
        order[i] >= i,
    decreases i,
{
    if i > 0 {
        lemma_at_least_index(order, i - 1);
        assert(order[i - 1] < order[i]);
    }
}

/// Ranks the positions of `keys` from the greatest key to the least;
/// positions of equal key stay in their order.
pub fn rank_keys(keys: &Vec<i128>) -> (order: Vec<usize>)
    ensures
        ranked(keys@.map_values(|k: i128| k as int), order@, keys.len() as int),
{
    let ghost ks = keys@.map_values(|k: i128| k as int);
    let mut order: Vec<usize> = Vec::new();
    let mut k: usize = 0;
    while k < keys.len()
        invariant
            k <= keys.len(),
            ks == keys@.map_values(|k: i128| k as int),
            ranked(ks, order@, k as int),
        decreases keys.len() - k,
    {
        let mut at: usize = order.len();
        while at > 0 && keys[k] > keys[order[at - 1]]
            invariant
                at <= order.len(),
                k < keys.len(),
                ks == keys@.map_values(|k: i128| k as int),
                ranked(ks, order@, k as int),
                forall|j: int| at <= j < order.len() ==> ks[k as int] > ks[(#[trigger] order@[j]) as int],
            decreases at,
        {
            at -= 1;
        }
        let ghost before = order@;
        order.insert(at, k);
        proof {
            assert forall|i: int, j: int| 0 <= i < j < order.len() implies ranks_before(
                ks,
                (#[trigger] order@[i]) as int,
                (#[trigger] order@[j]) as int,
            ) by {
                let a = if i < at { i } else { i - 1 };
                let b = if j < at { j } else { j - 1 };
                if i == at as int {
                    assert(order@[j] == before[b]);
                } else if j == at as int {
                    assert(order@[i] == before[a]);
                    assert(before[a] < k);
                    if a < at - 1 {
                        assert(ranks_before(ks, before[a] as int, before[at - 1] as int));
                    }
                } else {
                    assert(order@[i] == before[a]);
                    assert(order@[j] == before[b]);
                    assert(ranks_before(ks, before[a] as int, before[b] as int));
                }
            }
            assert forall|i: int| 0 <= i < order.len() implies (#[trigger] order@[i]) < k + 1 by {
                if i < at {
                    assert(order@[i] == before[i]);
                } else if i > at {
                    assert(order@[i] == before[i - 1]);
                }
            }
        }
        k += 1;
    }
    order
}

/// Ranks the positions of `scores` from the greatest score to the least;
/// positions of equal score stay in their order. Scores must be numbers.
pub fn rank_descending(scores: &Vec<Double>) -> (order: Vec<usize>)
    requires
        forall|i: int| 0 <= i < scores.len() ==> !(#[trigger] scores[i]).nan(),
    ensures
        ranked(keys_of(scores@), order@, scores.len() as int),
{
    let mut keys: Vec<i128> = Vec::new();
    let mut i: usize = 0;
    while i < scores.len()
        invariant
            i <= scores.len(),
            keys.len() == i,
            forall|k: int| 0 <= k < i ==> keys@[k] == (#[trigger] scores@[k]).order_key(),
        decreases scores.len() - i,
    {
        keys.push(scores[i].key());
        i += 1;
    }
    assert(keys@.map_values(|k: i128| k as int) =~= keys_of(scores@));
    rank_keys(&keys)
}

} // verus!
