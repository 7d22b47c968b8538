//! Selection of the best new filters: exclude what the service holds,
//! collapse duplicates, keep the valid, rank by score, skip an offset and
//! cut to a count.

use vstd::prelude::*;
use crate::models::filter::{Filter, FilterView};
use crate::services::selection::{exclude_existing, first_of_each, valid};
use crate::services::filter_service::{dedup_unique, filter_valid_entries};
use crate::services::filter_service::{remove_existing_filters, sort_by_score};
use crate::services::ranking::{lemma_sorted_by_score_is_stable, sorted_by_score};
use crate::utils::command::{import_call, import_request, ScriptCall};
use crate::utils::paths::{existing_path, get_existing_path};
use crate::views::lemma_deep_view_subrange;

verus! {

/// The candidates for promotion among `raw`: new to the service, one of each
/// filter, valid.
pub open spec fn candidates(raw: Seq<FilterView>, existing: Seq<FilterView>) -> Seq<FilterView> {
    first_of_each(exclude_existing(raw, existing)).filter(valid())
}

/// What is left of a ranking after the first `offset` entries are skipped
/// and the rest is cut to at most `count`. An offset past the end leaves
/// nothing; a count past the end keeps all that is there.
pub open spec fn window(ranked: Seq<FilterView>, offset: nat, count: nat) -> Seq<FilterView> {
    if offset >= ranked.len() {
        Seq::empty()
    } else if count >= ranked.len() - offset {
        ranked.subrange(offset as int, ranked.len() as int)
    } else {
        ranked.subrange(offset as int, (offset + count) as int)
    }
}

/// The selection: the candidates, ranked by score, through the window.
pub open spec fn selection(
    raw: Seq<FilterView>,
    existing: Seq<FilterView>,
    count: nat,
    offset: nat,
) -> Seq<FilterView> {
    window(sorted_by_score(candidates(raw, existing)), offset, count)
}

/// With `total` entries ranked, the window holds `min(count, max(0, total -
/// offset))` of them.
pub proof fn lemma_window_len(ranked: Seq<FilterView>, offset: nat, count: nat)
    ensures
        window(ranked, offset, count).len() == vstd::math::min(
            count as int,
            vstd::math::max(0, ranked.len() - offset),
        ),
{
}

/// The selection holds `min(count, max(0, total - offset))` filters, where
/// `total` is the number of candidates.
pub proof fn lemma_selection_len(
    raw: Seq<FilterView>,
    existing: Seq<FilterView>,
    count: nat,
    offset: nat,
)
    ensures
        selection(raw, existing, count, offset).len() == vstd::math::min(
            count as int,
            vstd::math::max(0, candidates(raw, existing).len() - offset),
        ),
{
    lemma_sorted_by_score_is_stable(candidates(raw, existing));
    lemma_window_len(sorted_by_score(candidates(raw, existing)), offset, count);
}

/// Selects the filters to show or import: those of `raw_data` that are not
/// among `existing`, one of each, valid, ranked by score with their scores
/// set, without the first `offset` and cut to at most `count`.
pub fn run(raw_data: Vec<Filter>, existing: &[Filter], count: usize, offset: usize) -> (selected:
    Vec<Filter>)
    ensures
        selected.deep_view() == selection(
            raw_data.deep_view(),
            existing.deep_view(),
            count as nat,
            offset as nat,
        ),
        selected@.len() == vstd::math::min(
            count as int,
            vstd::math::max(
                0,
                candidates(raw_data.deep_view(), existing.deep_view()).len() - offset,
            ),
        ),
{
    let fresh = remove_existing_filters(raw_data, existing);
    let unique = dedup_unique(fresh);
    let accepted = filter_valid_entries(unique);
    let mut ranked = sort_by_score(accepted);
    let ghost all = ranked;
    proof {
        lemma_selection_len(
            raw_data.deep_view(),
            existing.deep_view(),
            count as nat,
            offset as nat,
        );
    }
    if offset >= ranked.len() {
        let nothing: Vec<Filter> = Vec::new();
        assert(nothing.deep_view() =~= Seq::<FilterView>::empty());
        return nothing;
    }
    if offset > 0 {
        ranked = ranked.split_off(offset);
    }
    assert(ranked@ =~= all@.subrange(offset as int, all@.len() as int));
    ranked.truncate(count);
    proof {
        if count >= all@.len() - offset {
            assert(ranked@ =~= all@.subrange(offset as int, all@.len() as int));
            lemma_deep_view_subrange(all, ranked, offset as int, all@.len() as int);
        } else {
            assert(ranked@ =~= all@.subrange(offset as int, offset + count));
            lemma_deep_view_subrange(all, ranked, offset as int, offset + count);
        }
    }
    ranked
}

/// The snapshot of what the service holds: the one named, or else the
/// default for the family.
pub fn existing_source(existing: &Option<String>, live: bool) -> (path: String)
    ensures
        path@ == match existing {
            Some(named) => named@,
            None => existing_path(live),
        },
{
    match existing {
        Some(named) => named.clone(),
        None => get_existing_path(live).to_owned(),
    }
}

/// The calls that import the selected filters one by one, in their order.
pub fn import_filters(filters: &[Filter], live: bool) -> (calls: Vec<ScriptCall>)
    ensures
        calls.deep_view() == Seq::new(
            filters@.len(),
            |i: int| import_call(filters@[i]@.id, live),
        ),
{
    let mut calls: Vec<ScriptCall> = Vec::new();
    let mut i: usize = 0;
    while i < filters.len()
        invariant
            i <= filters@.len(),
            calls@.len() == i,
            forall|k: int| 0 <= k < i ==> (#[trigger] calls@[k])@ == import_call(filters@[k]@.id, live),
        decreases filters@.len() - i,
    {
        calls.push(import_request(filters[i].id, live));
        i += 1;
    }
    assert(calls.deep_view() =~= Seq::new(
        filters@.len(),
        |i: int| import_call(filters@[i]@.id, live),
    ));
    calls
}

} // verus!
