//! Ranking by score.
//!
//! A ranking of `n` scores is the list of positions `0 .. n`, ordered by
//! descending score; positions with equal scores keep their at_start order.

use vstd::prelude::*;

verus! {

/// Where a new position with score `score` goes in `order`: behind every
/// position whose score is at least as high.
pub open spec fn insertion_point(order: Seq<usize>, scores: Seq<i64>, score: i64) -> nat
    decreases order.len(),
{
    if order.len() == 0 {
        0
    } else if scores[order[0] as int] < score {
        0
    } else {
        1 + insertion_point(order.drop_first(), scores, score)
    }
}

/// The ranking of `scores`: built by taking the positions in turn and placing
/// each behind all earlier positions that score at least as high.
pub open spec fn ranking_spec(scores: Seq<i64>) -> Seq<usize>
    recommends
        scores.len() <= usize::MAX,
    decreases scores.len(),
{
    if scores.len() == 0 {
        Seq::empty()
    } else {
        let earlier = ranking_spec(scores.drop_last());
        let last = (scores.len() - 1) as usize;
        earlier.insert(insertion_point(earlier, scores, scores.last()) as int, last)
    }
}

/// `first` is ranked ahead of `second`: a higher score, or the same score and
/// an earlier position.
pub open spec fn ranks_before(scores: Seq<i64>, first: usize, second: usize) -> bool {
    scores[first as int] > scores[second as int] || (scores[first as int] == scores[second as int]
        && first < second)
}

/// `order` lists positions of `scores`, each ahead of all that follow it.
pub open spec fn is_ranked(order: Seq<usize>, scores: Seq<i64>) -> bool {
    &&& forall|i: int| 0 <= i < order.len() ==> (#[trigger] order[i]) < scores.len()
    &&& forall|i: int, j: int|
        0 <= i < j < order.len() ==> ranks_before(scores, #[trigger] order[i], #[trigger] order[j])
}

/// `order` holds every position below `n` exactly once.
pub open spec fn is_arrangement(order: Seq<usize>, n: nat) -> bool {
    &&& order.len() == n
    &&& forall|i: int| 0 <= i < order.len() ==> (#[trigger] order[i]) < n
    &&& forall|i: int, j: int|
        0 <= i < j < order.len() ==> (#[trigger] order[i]) != (#[trigger] order[j])
}

/// The insertion point lies within the list, everything before it scores at
/// least `score`, and whatever stands at it scores less.
pub proof fn lemma_insertion_point(order: Seq<usize>, scores: Seq<i64>, score: i64)
    ensures
        insertion_point(order, scores, score) <= order.len(),
        forall|i: int|
            0 <= i < insertion_point(order, scores, score) ==> scores[(#[trigger] order[i]) as int]
                >= score,
        insertion_point(order, scores, score) < order.len() ==> scores[order[insertion_point(
            order,
            scores,
            score,
        ) as int] as int] < score,
    decreases order.len(),
{
    if order.len() > 0 && scores[order[0] as int] >= score {
        let rest = order.drop_first();
        lemma_insertion_point(rest, scores, score);
        let p = insertion_point(rest, scores, score) as int;
        assert forall|i: int| 0 <= i < p + 1 implies scores[(#[trigger] order[i]) as int]
            >= score by {
            if i > 0 {
                assert(order[i] == rest[i - 1]);
            }
        }
        if p < rest.len() {
            assert(order[p + 1] == rest[p]);
        }
    }
}

/// The scores seen through a ranking of a prefix do not depend on what follows
/// the prefix.
proof fn lemma_insertion_point_prefix(
    order: Seq<usize>,
    scores: Seq<i64>,
    longer: Seq<i64>,
    score: i64,
)
    requires
        scores.len() <= longer.len(),
        forall|i: int| 0 <= i < scores.len() ==> scores[i] == longer[i],
        forall|i: int| 0 <= i < order.len() ==> (#[trigger] order[i]) < scores.len(),
    ensures
        insertion_point(order, scores, score) == insertion_point(order, longer, score),
    decreases order.len(),
{
    if order.len() > 0 {
        assert(order[0] < scores.len());
        let rest = order.drop_first();
        assert forall|i: int| 0 <= i < rest.len() implies (#[trigger] rest[i]) < scores.len() by {
            assert(rest[i] == order[i + 1]);
        }
        lemma_insertion_point_prefix(rest, scores, longer, score);
    }
}

/// The ranking is sorted by descending score with ties in at_start order, and
/// it holds every position exactly once.
pub proof fn lemma_ranking_is_ranked(scores: Seq<i64>)
    requires
        scores.len() <= usize::MAX,
    ensures
        is_ranked(ranking_spec(scores), scores),
        is_arrangement(ranking_spec(scores), scores.len()),
    decreases scores.len(),
{
    if scores.len() > 0 {
        let shorter = scores.drop_last();
        let earlier = ranking_spec(shorter);
        let last = (scores.len() - 1) as usize;
        lemma_ranking_is_ranked(shorter);
        lemma_insertion_point(earlier, scores, scores.last());
        let p = insertion_point(earlier, scores, scores.last()) as int;
        let order = earlier.insert(p, last);
        assert(order == ranking_spec(scores));
        assert forall|i: int| 0 <= i < order.len() implies (#[trigger] order[i])
            < scores.len() by {
            if i < p {
                assert(order[i] == earlier[i]);
            } else if i > p {
                assert(order[i] == earlier[i - 1]);
            }
        }
        assert forall|i: int, j: int| 0 <= i < j < order.len() implies ranks_before(
            scores,
            #[trigger] order[i],
            #[trigger] order[j],
        ) && order[i] != order[j] by {
            let a = if i < p {
                i
            } else {
                i - 1
            };
            let b = if j < p {
                j
            } else {
                j - 1
            };
            if i != p {
                assert(order[i] == earlier[a]);
                assert(earlier[a] < shorter.len());
                assert(shorter[earlier[a] as int] == scores[earlier[a] as int]);
            }
            if j != p {
                assert(order[j] == earlier[b]);
                assert(earlier[b] < shorter.len());
                assert(shorter[earlier[b] as int] == scores[earlier[b] as int]);
            }
            if i == p {
                // the new position stands ahead of a lower score
                assert(order[i] == last);
                assert(b >= p);
                assert(ranks_before(shorter, earlier[p], earlier[b]) || p == b);
                assert(scores[earlier[p] as int] < scores.last());
            } else if j == p {
                // everything ahead of the new position scores at least as high
                assert(order[j] == last);
                assert(a < p);
                assert(scores[earlier[a] as int] >= scores.last());
            } else {
                assert(a < b);
                assert(ranks_before(shorter, earlier[a], earlier[b]));
            }
        }
    }
}

/// Two rankings of the same scores agree: the order is fully determined.
pub proof fn lemma_ranked_arrangement_is_unique(
    first: Seq<usize>,
    second: Seq<usize>,
    scores: Seq<i64>,
)
    requires
        scores.len() <= usize::MAX,
        is_ranked(first, scores),
        is_ranked(second, scores),
        is_arrangement(first, scores.len()),
        is_arrangement(second, scores.len()),
    ensures
        first == second,
    decreases scores.len(),
{
    if scores.len() == 0 {
        assert(first =~= second);
    } else {
        let last = (scores.len() - 1) as usize;
        let shorter = scores.drop_last();
        lemma_arrangement_holds(first, scores.len(), last);
        lemma_arrangement_holds(second, scores.len(), last);
        let p = choose|p: int| 0 <= p < first.len() && first[p] == last;
        let q = choose|q: int| 0 <= q < second.len() && second[q] == last;
        let first_rest = first.remove(p);
        let second_rest = second.remove(q);
        lemma_remove_keeps_ranked(first, scores, p);
        lemma_remove_keeps_ranked(second, scores, q);
        lemma_ranked_arrangement_is_unique(first_rest, second_rest, shorter);
        // Both lists place `last` behind exactly the positions that score at
        // least as high: those form the same prefix of the common rest.
        if p < q {
            assert(second[p] == second_rest[p]);
            assert(first_rest[p] == first[p + 1]);
            assert(ranks_before(scores, first[p], first[p + 1]));
            assert(ranks_before(scores, second[p], second[q]));
            assert(false);
        }
        if q < p {
            assert(first[q] == first_rest[q]);
            assert(second_rest[q] == second[q + 1]);
            assert(ranks_before(scores, second[q], second[q + 1]));
            assert(ranks_before(scores, first[q], first[p]));
            assert(false);
        }
        assert(first =~= first_rest.insert(p, last));
        assert(second =~= second_rest.insert(q, last));
    }
}

/// An arrangement of `n` positions holds each of them.
proof fn lemma_arrangement_holds(order: Seq<usize>, n: nat, wanted: usize)
    requires
        n <= usize::MAX,
        is_arrangement(order, n),
        wanted < n,
    ensures
        exists|p: int| 0 <= p < order.len() && order[p] == wanted,
{
    let values = order.to_set();
    let all = Set::new(|v: usize| v < n);
    order.unique_seq_to_set();
    assert(values.len() == n);
    lemma_positions_below(n);
    assert(values.subset_of(all)) by {
        assert forall|v: usize| values.contains(v) implies all.contains(v) by {
            let i = choose|i: int| 0 <= i < order.len() && order[i] == v;
            assert(order[i] < n);
        }
    }
    vstd::set_lib::lemma_set_subset_finite(all, values);
    if !values.contains(wanted) {
        let fewer = all.remove(wanted);
        assert(values.subset_of(fewer));
        vstd::set_lib::lemma_len_subset(values, fewer);
        assert(false);
    }
    let p = choose|p: int| 0 <= p < order.len() && order[p] == wanted;
    assert(0 <= p < order.len() && order[p] == wanted);
}

/// There are exactly `n` positions below `n`.
proof fn lemma_positions_below(n: nat)
    requires
        n <= usize::MAX + 1,
    ensures
        Set::new(|v: usize| v < n).finite(),
        Set::new(|v: usize| v < n).len() == n,
    decreases n,
{
    let all = Set::new(|v: usize| v < n);
    if n == 0 {
        assert(all =~= Set::empty());
    } else {
        let fewer = Set::new(|v: usize| v < n - 1);
        lemma_positions_below((n - 1) as nat);
        assert(all =~= fewer.insert((n - 1) as usize));
    }
}

/// Taking the highest position out of a ranked arrangement leaves a ranked
/// arrangement of the remaining scores.
proof fn lemma_remove_keeps_ranked(order: Seq<usize>, scores: Seq<i64>, p: int)
    requires
        scores.len() > 0,
        is_ranked(order, scores),
        is_arrangement(order, scores.len()),
        0 <= p < order.len(),
        order[p] == scores.len() - 1,
    ensures
        is_ranked(order.remove(p), scores.drop_last()),
        is_arrangement(order.remove(p), (scores.len() - 1) as nat),
{
    let rest = order.remove(p);
    let shorter = scores.drop_last();
    assert forall|i: int| 0 <= i < rest.len() implies (#[trigger] rest[i]) < shorter.len() by {
        let k = if i < p {
            i
        } else {
            i + 1
        };
        assert(rest[i] == order[k]);
        assert(order[k] < scores.len());
        if k < p {
            assert(order[k] != order[p]);
        } else {
            assert(order[p] != order[k]);
        }
    }
    assert forall|i: int, j: int| 0 <= i < j < rest.len() implies ranks_before(
        shorter,
        #[trigger] rest[i],
        #[trigger] rest[j],
    ) && rest[i] != rest[j] by {
        let a = if i < p {
            i
        } else {
            i + 1
        };
        let b = if j < p {
            j
        } else {
            j + 1
        };
        assert(rest[i] == order[a]);
        assert(rest[j] == order[b]);
        assert(ranks_before(scores, order[a], order[b]));
        assert(rest[i] < shorter.len());
        assert(rest[j] < shorter.len());
    }
}

/// Ranks `scores`: positions by descending score, ties in at_start order.
pub fn rank(scores: &Vec<i64>) -> (order: Vec<usize>)
    ensures
        order@ == ranking_spec(scores@),
{
    let mut order: Vec<usize> = Vec::new();
    let mut next: usize = 0;
    while next < scores.len()
        invariant
            next <= scores.len(),
            order@ == ranking_spec(scores@.take(next as int)),
        decreases scores.len() - next,
    {
        let score = scores[next];
        let ghost prefix = scores@.take(next as int);
        let ghost extended = scores@.take(next + 1);
        proof {
            lemma_ranking_is_ranked(prefix);
            assert(extended.drop_last() =~= prefix);
            assert(extended.last() == score);
            lemma_insertion_point_prefix(order@, prefix, extended, score);
            lemma_insertion_point_prefix(order@, prefix, scores@, score);
        }
        let mut at: usize = 0;
        assert(order@.skip(0) =~= order@);
        while at < order.len() && scores[order[at]] >= score
            invariant
                at <= order.len(),
                order.len() == next,
                next < scores.len(),
                forall|i: int| 0 <= i < order.len() ==> (#[trigger] order@[i]) < scores.len(),
                insertion_point(order@, scores@, score) == at + insertion_point(
                    order@.skip(at as int),
                    scores@,
                    score,
                ),
            decreases order.len() - at,
        {
            proof {
                assert(order@.skip(at as int).drop_first() =~= order@.skip(at + 1));
                assert(order@.skip(at as int)[0] == order@[at as int]);
            }
            at = at + 1;
        }
        proof {
            if at < order.len() {
                assert(order@.skip(at as int)[0] == order@[at as int]);
            } else {
                assert(order@.skip(at as int).len() == 0);
            }
        }
        order.insert(at, next);
        next = next + 1;
    }
    proof {
        assert(scores@.take(next as int) =~= scores@);
    }
    order
}

} // verus!
