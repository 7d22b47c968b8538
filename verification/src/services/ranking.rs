//! Ranking by score: the positions of a collection ordered by descending
//! score, positions of equal score keeping their order. That arrangement is
//! unique, so it says what a stable sort returns.

use vstd::prelude::*;
use vstd::relations::{sorted_by, total_ordering};
use vstd::seq_lib::{lemma_sorted_unique, to_multiset_contains, to_multiset_len};
use crate::models::filter::{filter_score, scored, FilterView};

verus! {

/// The score at a position; zero outside the collection.
pub open spec fn score_at(scores: Seq<int>, i: int) -> int {
    if 0 <= i < scores.len() {
        scores[i]
    } else {
        0
    }
}

/// Position `i` ranks no later than position `j`: it has the higher score,
/// or the same score and does not come after `j`.
pub open spec fn ranks_before(scores: Seq<int>) -> spec_fn(int, int) -> bool {
    |i: int, j: int|
        score_at(scores, i) > score_at(scores, j) || (score_at(scores, i) == score_at(scores, j)
            && i <= j)
}

/// The positions `0, 1, .., n - 1`.
pub open spec fn positions(n: nat) -> Seq<int> {
    Seq::new(n, |i: int| i)
}

/// The positions in ranking order.
pub open spec fn ranking(scores: Seq<int>) -> Seq<int> {
    positions(scores.len()).sort_by(ranks_before(scores))
}

/// The scores of the filters, position by position.
pub open spec fn scores_of(filters: Seq<FilterView>) -> Seq<int> {
    filters.map_values(|f: FilterView| filter_score(f))
}

/// The filters with their scores computed, in ranking order.
pub open spec fn sorted_by_score(filters: Seq<FilterView>) -> Seq<FilterView> {
    ranking(scores_of(filters)).map_values(|i: int| scored(filters[i]))
}

pub proof fn lemma_ranks_before_total(scores: Seq<int>)
    ensures
        total_ordering(ranks_before(scores)),
{
    let r = ranks_before(scores);
    assert forall|x: int, y: int| #[trigger] r(x, y) && #[trigger] r(y, x) implies x == y by {}
    assert forall|x: int, y: int, z: int| #[trigger] r(x, y) && #[trigger] r(y, z) implies r(
        x,
        z,
    ) by {}
    assert forall|x: int, y: int| #[trigger] r(x, y) || #[trigger] r(y, x) by {}
}

/// The ranking holds every position exactly once, in an order in which no
/// position ranks before an earlier one.
pub proof fn lemma_ranking(scores: Seq<int>)
    ensures
        ranking(scores).len() == scores.len(),
        ranking(scores).to_multiset() == positions(scores.len()).to_multiset(),
        sorted_by(ranking(scores), ranks_before(scores)),
        ranking(scores).no_duplicates(),
        forall|k: int|
            0 <= k < scores.len() ==> 0 <= #[trigger] ranking(scores)[k] < scores.len(),
        forall|i: int| 0 <= i < scores.len() ==> ranking(scores).contains(i),
{
    let all = positions(scores.len());
    let ranked = ranking(scores);
    lemma_ranks_before_total(scores);
    all.lemma_sort_by_ensures(ranks_before(scores));
    to_multiset_len(all);
    to_multiset_len(ranked);
    assert forall|k: int| 0 <= k < scores.len() implies 0 <= #[trigger] ranked[k]
        < scores.len() by {
        if !all.contains(ranked[k]) {
            assert(ranked.contains(ranked[k]));
        }
        let j = choose|j: int| 0 <= j < all.len() && all[j] == ranked[k];
    }
    assert forall|i: int| 0 <= i < scores.len() implies ranked.contains(i) by {
        assert(all[i] == i);
        assert(all.contains(i));
        to_multiset_contains(all, i);
        to_multiset_contains(ranked, i);
    }
    assert(all.no_duplicates());
    all.lemma_multiset_has_no_duplicates();
    ranked.lemma_multiset_has_no_duplicates_conv();
}

/// An arrangement of all positions in which no position ranks before an
/// earlier one is the ranking.
pub proof fn lemma_ranking_unique(order: Seq<int>, scores: Seq<int>)
    requires
        order.to_multiset() == positions(scores.len()).to_multiset(),
        sorted_by(order, ranks_before(scores)),
    ensures
        order == ranking(scores),
{
    lemma_ranks_before_total(scores);
    lemma_ranking(scores);
    lemma_sorted_unique(order, ranking(scores), ranks_before(scores));
}

/// The ranked filters are the input filters, each once and with its score
/// computed; they come in descending order of score; and of two filters with
/// the same score the one that stood first in the input comes first.
pub proof fn lemma_sorted_by_score_is_stable(filters: Seq<FilterView>)
    ensures
        sorted_by_score(filters).len() == filters.len(),
        forall|k: int|
            0 <= k < filters.len() ==> {
                let from = #[trigger] ranking(scores_of(filters))[k];
                0 <= from < filters.len() && sorted_by_score(filters)[k] == scored(filters[from])
            },
        forall|i: int| 0 <= i < filters.len() ==> ranking(scores_of(filters)).contains(i),
        ranking(scores_of(filters)).no_duplicates(),
        forall|a: int, b: int|
            0 <= a < b < filters.len() ==> (#[trigger] sorted_by_score(filters)[a]).score >= (
            #[trigger] sorted_by_score(filters)[b]).score,
        forall|a: int, b: int|
            0 <= a < b < filters.len() && (#[trigger] sorted_by_score(filters)[a]).score == (
            #[trigger] sorted_by_score(filters)[b]).score ==> ranking(scores_of(filters))[a]
                < ranking(scores_of(filters))[b],
{
    let scores = scores_of(filters);
    let order = ranking(scores);
    lemma_ranking(scores);
    assert forall|a: int, b: int| 0 <= a < b < filters.len() implies (#[trigger] sorted_by_score(
        filters,
    )[a]).score >= (#[trigger] sorted_by_score(filters)[b]).score && (sorted_by_score(
        filters,
    )[a].score == sorted_by_score(filters)[b].score ==> order[a] < order[b]) by {
        assert(ranks_before(scores)(order[a], order[b]));
        assert(0 <= order[a] < filters.len());
        assert(0 <= order[b] < filters.len());
        assert(order[a] != order[b]);
    }
}

} // verus!
