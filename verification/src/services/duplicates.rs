//! Groups of duplicates: the filters that occur more than once in a
//! collection, each with the identifiers of all its occurrences.

use vstd::prelude::*;
use crate::models::canonical::same_filter;
use crate::models::filter::{Filter, FilterView};
use crate::sequences::{filter_source, lemma_filter_keeps_order};
use crate::services::selection::{first_of_each, lemma_first_of_each_distinct};
use crate::services::selection::lemma_first_of_each_from_input;

verus! {

/// Filters that are one filter, found more than once in a collection.
#[derive(Debug)]
pub struct DuplicateGroup {
    /// The first of them.
    pub filter: Filter,
    /// The identifiers of all of them, in the order of the collection.
    pub ids: Vec<i32>,
}

/// The mathematical value of a `DuplicateGroup`.
pub struct DuplicateGroupView {
    pub filter: FilterView,
    pub ids: Seq<int>,
}

/// An identifier as a number.
pub open spec fn id_value() -> spec_fn(i32) -> int {
    |id: i32| id as int
}

impl DeepView for DuplicateGroup {
    type V = DuplicateGroupView;

    open spec fn deep_view(&self) -> DuplicateGroupView {
        DuplicateGroupView {
            filter: self.filter.deep_view(),
            ids: self.ids@.map_values(id_value()),
        }
    }
}

impl View for DuplicateGroup {
    type V = DuplicateGroupView;

    open spec fn view(&self) -> DuplicateGroupView {
        self.deep_view()
    }
}

/// The test "is the same filter as `f`".
pub open spec fn same_as(f: FilterView) -> spec_fn(FilterView) -> bool {
    |g: FilterView| same_filter(f, g)
}

/// The identifier of a filter.
pub open spec fn id_of() -> spec_fn(FilterView) -> int {
    |g: FilterView| g.id
}

/// The identifiers of the filters that are the same filter as `f`, in the
/// order of the collection.
pub open spec fn ids_of(f: FilterView, filters: Seq<FilterView>) -> Seq<int> {
    filters.filter(same_as(f)).map_values(id_of())
}

/// The test "occurs more than once in `filters`".
pub open spec fn is_duplicated(filters: Seq<FilterView>) -> spec_fn(FilterView) -> bool {
    |f: FilterView| ids_of(f, filters).len() > 1
}

/// The group of a filter within `filters`.
pub open spec fn group_of(filters: Seq<FilterView>) -> spec_fn(FilterView) -> DuplicateGroupView {
    |f: FilterView| DuplicateGroupView { filter: f, ids: ids_of(f, filters) }
}

/// The groups of duplicates: for each filter that occurs more than once,
/// taken at its first occurrence and in that order, the identifiers of all
/// its occurrences.
pub open spec fn duplicate_groups(filters: Seq<FilterView>) -> Seq<DuplicateGroupView> {
    first_of_each(filters).filter(is_duplicated(filters)).map_values(group_of(filters))
}

/// Every group stands for a filter that occurs more than once, holds the
/// identifiers of all its occurrences, and no two groups stand for the same
/// filter.
pub proof fn lemma_duplicate_groups(filters: Seq<FilterView>)
    ensures
        forall|k: int|
            0 <= k < duplicate_groups(filters).len() ==> {
                let group = #[trigger] duplicate_groups(filters)[k];
                &&& group.ids.len() > 1
                &&& group.ids == ids_of(group.filter, filters)
                &&& filters.contains(group.filter)
            },
        forall|i: int, j: int|
            0 <= i < j < duplicate_groups(filters).len() ==> !same_filter(
                (#[trigger] duplicate_groups(filters)[i]).filter,
                (#[trigger] duplicate_groups(filters)[j]).filter,
            ),
{
    let firsts = first_of_each(filters);
    let chosen = firsts.filter(is_duplicated(filters));
    let groups = duplicate_groups(filters);
    lemma_first_of_each_from_input(filters);
    lemma_filter_keeps_order(firsts, is_duplicated(filters));
    assert forall|k: int| 0 <= k < groups.len() implies {
        let group = #[trigger] groups[k];
        &&& group.ids.len() > 1
        &&& group.ids == ids_of(group.filter, filters)
        &&& filters.contains(group.filter)
    } by {
        firsts.lemma_filter_pred(is_duplicated(filters), k);
        assert(is_duplicated(filters)(chosen[k]));
        let at = filter_source(firsts, is_duplicated(filters), k);
        assert(firsts[at] == chosen[k]);
        assert(filters.contains(firsts[at]));
    }
    assert forall|i: int, j: int| 0 <= i < j < groups.len() implies !same_filter(
        (#[trigger] groups[i]).filter,
        (#[trigger] groups[j]).filter,
    ) by {
        let a = filter_source(firsts, is_duplicated(filters), i);
        let b = filter_source(firsts, is_duplicated(filters), j);
        lemma_first_of_each_distinct(filters, a, b);
    }
}

} // verus!
