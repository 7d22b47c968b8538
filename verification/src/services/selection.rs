//! What the stages of the selection keep: the filters that are new to the
//! service, one representative of each filter, the valid, the low performers.

use vstd::prelude::*;
use crate::models::canonical::same_filter;
use crate::models::filter::{filter_is_low_performing, filter_is_valid, FilterView};
use crate::sequences::{lemma_filter_all, lemma_filter_idempotent};

verus! {

/// Some filter among `among` is the same filter as `f`.
pub open spec fn has_match(f: FilterView, among: Seq<FilterView>) -> bool {
    exists|j: int| 0 <= j < among.len() && same_filter(f, #[trigger] among[j])
}

/// The test "is not yet among `existing`".
pub open spec fn is_new(existing: Seq<FilterView>) -> spec_fn(FilterView) -> bool {
    |f: FilterView| !has_match(f, existing)
}

/// The candidates that the service does not hold yet, in their order.
pub open spec fn exclude_existing(
    candidates: Seq<FilterView>,
    existing: Seq<FilterView>,
) -> Seq<FilterView> {
    candidates.filter(is_new(existing))
}

/// Exclusion keeps exactly the candidates that have no match among the
/// existing filters.
pub proof fn lemma_exclude_existing_exact(
    candidates: Seq<FilterView>,
    existing: Seq<FilterView>,
    f: FilterView,
)
    ensures
        exclude_existing(candidates, existing).contains(f) <==> (candidates.contains(f)
            && !has_match(f, existing)),
    decreases candidates.len(),
{
    reveal(Seq::filter);
    let kept = exclude_existing(candidates, existing);
    if candidates.len() > 0 {
        let front = candidates.drop_last();
        let last = candidates.last();
        let kept_front = exclude_existing(front, existing);
        lemma_exclude_existing_exact(front, existing, f);
        if kept.contains(f) {
            let k = choose|k: int| 0 <= k < kept.len() && kept[k] == f;
            if k < kept_front.len() {
                assert(kept_front[k] == f);
                assert(kept_front.contains(f));
                let j = choose|j: int| 0 <= j < front.len() && front[j] == f;
                assert(candidates[j] == f);
            } else {
                assert(candidates[candidates.len() - 1] == f);
            }
        }
        if candidates.contains(f) && !has_match(f, existing) {
            let j = choose|j: int| 0 <= j < candidates.len() && candidates[j] == f;
            if j < front.len() {
                assert(front[j] == f);
                assert(front.contains(f));
                let k = choose|k: int| 0 <= k < kept_front.len() && kept_front[k] == f;
                assert(kept[k] == f);
            } else {
                assert(kept[kept.len() - 1] == f);
            }
        }
    }
}

/// With nothing held by the service, every candidate is kept.
pub proof fn lemma_exclude_existing_nothing(candidates: Seq<FilterView>)
    ensures
        exclude_existing(candidates, Seq::empty()) == candidates,
{
    lemma_filter_all(candidates, is_new(Seq::empty()));
}

/// Excluding the same existing filters a second time changes nothing.
pub proof fn lemma_exclude_existing_idempotent(
    candidates: Seq<FilterView>,
    existing: Seq<FilterView>,
)
    ensures
        exclude_existing(exclude_existing(candidates, existing), existing) == exclude_existing(
            candidates,
            existing,
        ),
{
    lemma_filter_idempotent(candidates, is_new(existing));
}

/// The validity test as a predicate.
pub open spec fn valid() -> spec_fn(FilterView) -> bool {
    |f: FilterView| filter_is_valid(f)
}

/// The low-performance test as a predicate.
pub open spec fn low_performing() -> spec_fn(FilterView) -> bool {
    |f: FilterView| filter_is_low_performing(f)
}

/// One representative of each filter: its first occurrence, in the order of
/// the input.
pub open spec fn first_of_each(filters: Seq<FilterView>) -> Seq<FilterView>
    decreases filters.len(),
{
    if filters.len() == 0 {
        filters
    } else {
        let kept = first_of_each(filters.drop_last());
        if has_match(filters.last(), filters.drop_last()) {
            kept
        } else {
            kept.push(filters.last())
        }
    }
}

/// A filter has a match among the representatives exactly when it has one
/// in the input.
pub proof fn lemma_first_of_each_covers(filters: Seq<FilterView>, f: FilterView)
    ensures
        has_match(f, first_of_each(filters)) <==> has_match(f, filters),
    decreases filters.len(),
{
    if filters.len() > 0 {
        let front = filters.drop_last();
        let last = filters.last();
        let kept = first_of_each(front);
        lemma_first_of_each_covers(front, f);
        lemma_first_of_each_covers(front, last);
        if has_match(f, filters) {
            let j = choose|j: int| 0 <= j < filters.len() && same_filter(f, #[trigger] filters[j]);
            if j < front.len() {
                assert(same_filter(f, front[j]));
                let k = choose|k: int| 0 <= k < kept.len() && same_filter(f, #[trigger] kept[k]);
                assert(same_filter(f, first_of_each(filters)[k]));
            } else if has_match(last, front) {
                let k = choose|k: int|
                    0 <= k < kept.len() && same_filter(last, #[trigger] kept[k]);
                assert(same_filter(f, first_of_each(filters)[k]));
            } else {
                assert(same_filter(f, first_of_each(filters)[kept.len() as int]));
            }
        }
        if has_match(f, first_of_each(filters)) {
            let d = first_of_each(filters);
            let k = choose|k: int| 0 <= k < d.len() && same_filter(f, #[trigger] d[k]);
            if k < kept.len() {
                assert(same_filter(f, kept[k]));
                let j = choose|j: int| 0 <= j < front.len() && same_filter(f, #[trigger] front[j]);
                assert(same_filter(f, filters[j]));
            } else {
                assert(same_filter(f, filters[filters.len() - 1]));
            }
        }
    }
}

/// No two representatives are the same filter.
pub proof fn lemma_first_of_each_distinct(filters: Seq<FilterView>, i: int, j: int)
    requires
        0 <= i < j < first_of_each(filters).len(),
    ensures
        !same_filter(first_of_each(filters)[i], first_of_each(filters)[j]),
    decreases filters.len(),
{
    let front = filters.drop_last();
    let kept = first_of_each(front);
    if j < kept.len() {
        lemma_first_of_each_distinct(front, i, j);
    } else {
        lemma_first_of_each_covers(front, filters.last());
        if same_filter(kept[i], filters.last()) {
            assert(has_match(filters.last(), kept));
        }
    }
}

/// Every representative stands in the input, and the representatives are no
/// more than the input.
pub proof fn lemma_first_of_each_from_input(filters: Seq<FilterView>)
    ensures
        first_of_each(filters).len() <= filters.len(),
        forall|k: int|
            0 <= k < first_of_each(filters).len() ==> filters.contains(
                #[trigger] first_of_each(filters)[k],
            ),
    decreases filters.len(),
{
    if filters.len() > 0 {
        let front = filters.drop_last();
        lemma_first_of_each_from_input(front);
        assert forall|k: int| 0 <= k < first_of_each(filters).len() implies filters.contains(
            #[trigger] first_of_each(filters)[k],
        ) by {
            if k < first_of_each(front).len() {
                let x = first_of_each(front)[k];
                assert(front.contains(x));
                let j = choose|j: int| 0 <= j < front.len() && front[j] == x;
                assert(filters[j] == x);
            } else {
                assert(filters[filters.len() - 1] == filters.last());
            }
        }
    }
}

} // verus!
