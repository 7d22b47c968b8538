//! The stages that take a collection of filters to a ranked selection:
//! exclusion of what the service already holds, collapse of duplicates,
//! the validity and low-performance tests, ranking by score; the search
//! for duplicates; and the plan for showing a selection.

use vstd::prelude::*;
use vstd::relations::sorted_by;
use vstd::seq_lib::{to_multiset_build, to_multiset_insert};
use vstd::string::StringExecFns;
use crate::errors::{CliError, CliErrorView};
use crate::models::canonical::{canonical_key, same_filter, CanonicalKey};
use crate::models::filter::{scored, Filter, FilterView};
use crate::models::filter_traits::{FilterScoring, FilterValidation};
use crate::services::display::{display_action, display_plan, DisplayAction};
use crate::services::duplicates::{duplicate_groups, group_of, id_of, id_value, ids_of};
use crate::services::duplicates::{is_duplicated, same_as, DuplicateGroup};
use crate::services::ranking::{lemma_ranking_unique, positions, ranks_before, score_at};
use crate::services::ranking::{scores_of, sorted_by_score};
use crate::services::selection::{exclude_existing, first_of_each, is_new};
use crate::services::selection::{lemma_first_of_each_covers, low_performing, valid};
use crate::utils::config::get_history_url;
use crate::views::lemma_deep_view_push;

verus! {

/// The keys of the given filters, in their order.
fn keys_of(filters: &[Filter]) -> (keys: Vec<CanonicalKey>)
    ensures
        keys@.len() == filters@.len(),
        forall|j: int| 0 <= j < keys@.len() ==> (#[trigger] keys@[j])@ == canonical_key(filters@[j]@),
{
    let mut keys: Vec<CanonicalKey> = Vec::new();
    let mut i: usize = 0;
    while i < filters.len()
        invariant
            i <= filters@.len(),
            keys@.len() == i,
            forall|j: int| 0 <= j < i ==> (#[trigger] keys@[j])@ == canonical_key(filters@[j]@),
        decreases filters@.len() - i,
    {
        keys.push(filters[i].canonical_key());
        i += 1;
    }
    keys
}

/// True when `key` is among `keys`.
fn key_among(key: &CanonicalKey, keys: &Vec<CanonicalKey>) -> (found: bool)
    ensures
        found == exists|j: int| 0 <= j < keys@.len() && (#[trigger] keys@[j])@ == key@,
{
    let mut i: usize = 0;
    while i < keys.len()
        invariant
            i <= keys@.len(),
            forall|j: int| 0 <= j < i ==> (#[trigger] keys@[j])@ != key@,
        decreases keys@.len() - i,
    {
        if keys[i] == *key {
            return true;
        }
        i += 1;
    }
    false
}

/// Keeps the candidates that are not among `existing`, by canonical
/// identity, in their order. Neither the kept candidates nor `existing` are
/// changed.
pub fn remove_existing_filters(data: Vec<Filter>, existing: &[Filter]) -> (kept: Vec<Filter>)
    ensures
        kept.deep_view() == exclude_existing(data.deep_view(), existing.deep_view()),
{
    let existing_keys = keys_of(existing);
    let ghost all = data.deep_view();
    let ghost items = data@;
    let ghost held = existing.deep_view();
    let mut kept: Vec<Filter> = Vec::new();
    proof {
        reveal(Seq::filter);
        assert(kept.deep_view() =~= all.take(0).filter(is_new(held)));
    }
    for f in it: data
        invariant
            it.seq() == items,
            all == Seq::new(items.len(), |i: int| items[i].deep_view()),
            held == existing.deep_view(),
            existing_keys@.len() == held.len(),
            forall|j: int|
                0 <= j < existing_keys@.len() ==> (#[trigger] existing_keys@[j])@ == canonical_key(
                    held[j],
                ),
            kept.deep_view() == all.take(it.index() as int).filter(is_new(held)),
    {
        let ghost n = it.index() as int;
        let key = f.canonical_key();
        let found = key_among(&key, &existing_keys);
        proof {
            assert(all[n] == f@);
            assert(all.take(n + 1) =~= all.take(n).push(f@));
            all.take(n).lemma_filter_push(f@, is_new(held));
            if found {
                let j = choose|j: int|
                    0 <= j < existing_keys@.len() && (#[trigger] existing_keys@[j])@ == key@;
                assert(same_filter(f@, held[j]));
            } else {
                assert forall|j: int| 0 <= j < held.len() implies !same_filter(
                    f@,
                    #[trigger] held[j],
                ) by {
                    assert(existing_keys@[j]@ != key@);
                }
            }
        }
        if !found {
            let ghost before = kept;
            kept.push(f);
            proof {
                lemma_deep_view_push(before, kept, f);
            }
        }
    }
    proof {
        assert(all.take(items.len() as int) =~= all);
    }
    kept
}

/// Keeps the filters that pass the validity test, in their order.
pub fn filter_valid_entries(filters: Vec<Filter>) -> (kept: Vec<Filter>)
    ensures
        kept.deep_view() == filters.deep_view().filter(valid()),
{
    let ghost all = filters.deep_view();
    let ghost items = filters@;
    let mut kept: Vec<Filter> = Vec::new();
    proof {
        reveal(Seq::filter);
        assert(kept.deep_view() =~= all.take(0).filter(valid()));
    }
    for f in it: filters
        invariant
            it.seq() == items,
            all == Seq::new(items.len(), |i: int| items[i].deep_view()),
            kept.deep_view() == all.take(it.index() as int).filter(valid()),
    {
        let ghost n = it.index() as int;
        proof {
            assert(all[n] == f@);
            assert(all.take(n + 1) =~= all.take(n).push(f@));
            all.take(n).lemma_filter_push(f@, valid());
        }
        if f.is_valid() {
            let ghost before = kept;
            kept.push(f);
            proof {
                lemma_deep_view_push(before, kept, f);
            }
        }
    }
    proof {
        assert(all.take(items.len() as int) =~= all);
    }
    kept
}

/// Keeps the low performers, in their order.
pub fn filter_low_performing(filters: Vec<Filter>) -> (kept: Vec<Filter>)
    ensures
        kept.deep_view() == filters.deep_view().filter(low_performing()),
{
    let ghost all = filters.deep_view();
    let ghost items = filters@;
    let mut kept: Vec<Filter> = Vec::new();
    proof {
        reveal(Seq::filter);
        assert(kept.deep_view() =~= all.take(0).filter(low_performing()));
    }
    for f in it: filters
        invariant
            it.seq() == items,
            all == Seq::new(items.len(), |i: int| items[i].deep_view()),
            kept.deep_view() == all.take(it.index() as int).filter(low_performing()),
    {
        let ghost n = it.index() as int;
        proof {
            assert(all[n] == f@);
            assert(all.take(n + 1) =~= all.take(n).push(f@));
            all.take(n).lemma_filter_push(f@, low_performing());
        }
        if f.is_low_performing() {
            let ghost before = kept;
            kept.push(f);
            proof {
                lemma_deep_view_push(before, kept, f);
            }
        }
    }
    proof {
        assert(all.take(items.len() as int) =~= all);
    }
    kept
}

/// Collapses duplicates: of the filters that are the same filter only the
/// first stays, and the order of those that stay is unchanged.
pub fn dedup_unique(filters: Vec<Filter>) -> (kept: Vec<Filter>)
    ensures
        kept.deep_view() == first_of_each(filters.deep_view()),
{
    let ghost all = filters.deep_view();
    let ghost items = filters@;
    let mut kept: Vec<Filter> = Vec::new();
    let mut kept_keys: Vec<CanonicalKey> = Vec::new();
    proof {
        assert(kept.deep_view() =~= first_of_each(all.take(0)));
    }
    for f in it: filters
        invariant
            it.seq() == items,
            all == Seq::new(items.len(), |i: int| items[i].deep_view()),
            kept.deep_view() == first_of_each(all.take(it.index() as int)),
            kept_keys@.len() == kept@.len(),
            forall|j: int|
                0 <= j < kept_keys@.len() ==> (#[trigger] kept_keys@[j])@ == canonical_key(
                    kept@[j]@,
                ),
    {
        let ghost n = it.index() as int;
        let key = f.canonical_key();
        let found = key_among(&key, &kept_keys);
        proof {
            let front = all.take(n);
            assert(all[n] == f@);
            assert(all.take(n + 1).drop_last() =~= front);
            assert(all.take(n + 1).last() == f@);
            lemma_first_of_each_covers(front, f@);
            if found {
                let j = choose|j: int|
                    0 <= j < kept_keys@.len() && (#[trigger] kept_keys@[j])@ == key@;
                assert(same_filter(f@, kept.deep_view()[j]));
            } else {
                assert forall|j: int| 0 <= j < kept.deep_view().len() implies !same_filter(
                    f@,
                    #[trigger] kept.deep_view()[j],
                ) by {
                    assert(kept_keys@[j]@ != key@);
                }
            }
        }
        if !found {
            let ghost before = kept;
            kept.push(f);
            kept_keys.push(key);
            proof {
                lemma_deep_view_push(before, kept, f);
            }
        }
    }
    proof {
        assert(all.take(items.len() as int) =~= all);
    }
    kept
}

/// Computes the score of every filter and ranks the filters by it: highest
/// score first, filters of equal score in the order in which they came.
pub fn sort_by_score(filters: Vec<Filter>) -> (ranked: Vec<Filter>)
    ensures
        ranked.deep_view() == sorted_by_score(filters.deep_view()),
{
    let ghost all = filters.deep_view();
    let ghost items = filters@;
    let ghost scores = scores_of(all);
    let ghost mut order: Seq<int> = Seq::empty();
    let mut ranked: Vec<Filter> = Vec::new();
    proof {
        assert(order =~= positions(0));
    }
    for f in it: filters
        invariant
            it.seq() == items,
            all == Seq::new(items.len(), |i: int| items[i].deep_view()),
            scores == scores_of(all),
            order.len() == it.index(),
            ranked@.len() == it.index(),
            order.to_multiset() == positions(it.index() as nat).to_multiset(),
            sorted_by(order, ranks_before(scores)),
            forall|k: int| 0 <= k < order.len() ==> 0 <= #[trigger] order[k] < it.index(),
            forall|k: int|
                0 <= k < order.len() ==> (#[trigger] ranked@[k])@ == scored(all[order[k]]),
    {
        let ghost n = it.index() as int;
        let mut f = f;
        let score = f.get_score();
        f.score = score;
        assert(f@ == scored(all[n]));
        assert(score == score_at(scores, n));
        let mut at: usize = ranked.len();
        while at > 0 && ranked[at - 1].score < score
            invariant
                at <= ranked@.len(),
                forall|k: int| at <= k < ranked@.len() ==> (#[trigger] ranked@[k])@.score < score,
            decreases at,
        {
            at -= 1;
        }
        let ghost before = ranked;
        let ghost old_order = order;
        ranked.insert(at, f);
        proof {
            order = old_order.insert(at as int, n);
            to_multiset_insert(old_order, at as int, n);
            assert(positions((n + 1) as nat) =~= positions(n as nat).push(n));
            to_multiset_build(positions(n as nat), n);
            assert forall|k: int| 0 <= k < order.len() implies (#[trigger] ranked@[k])@ == scored(
                all[order[k]],
            ) by {
                if k < at {
                    assert(ranked@[k] == before@[k]);
                } else if k > at {
                    assert(ranked@[k] == before@[k - 1]);
                }
            }
            assert forall|a: int, b: int| 0 <= a < b < order.len() implies #[trigger] ranks_before(
                scores,
            )(order[a], order[b]) by {
                if b < at {
                    assert(ranks_before(scores)(old_order[a], old_order[b]));
                } else if b == at {
                    assert(before@[at - 1]@ == scored(all[old_order[at - 1]]));
                    assert(a == at - 1 || ranks_before(scores)(old_order[a], old_order[at - 1]));
                } else if a < at {
                    assert(ranks_before(scores)(old_order[a], old_order[b - 1]));
                } else if a == at {
                    assert(before@[b - 1]@ == scored(all[old_order[b - 1]]));
                } else {
                    assert(ranks_before(scores)(old_order[a - 1], old_order[b - 1]));
                }
            }
        }
    }
    proof {
        lemma_ranking_unique(order, scores);
        assert(ranked.deep_view() =~= sorted_by_score(all));
    }
    ranked
}

/// The identifiers of the filters whose key is that of the filter at `at`.
fn ids_with_key_of(filters: &[Filter], keys: &Vec<CanonicalKey>, at: usize) -> (ids: Vec<i32>)
    requires
        at < filters@.len(),
        keys@.len() == filters@.len(),
        forall|j: int| 0 <= j < keys@.len() ==> (#[trigger] keys@[j])@ == canonical_key(filters@[j]@),
    ensures
        ids@.map_values(id_value()) == ids_of(filters@[at as int]@, filters.deep_view()),
{
    let ghost all = filters.deep_view();
    let ghost f = filters@[at as int]@;
    let mut ids: Vec<i32> = Vec::new();
    let mut j: usize = 0;
    proof {
        reveal(Seq::filter);
        assert(ids@.map_values(id_value()) =~= ids_of(f, all.take(0)));
    }
    while j < filters.len()
        invariant
            at < filters@.len(),
            all == filters.deep_view(),
            f == filters@[at as int]@,
            keys@.len() == filters@.len(),
            forall|k: int|
                0 <= k < keys@.len() ==> (#[trigger] keys@[k])@ == canonical_key(filters@[k]@),
            j <= filters@.len(),
            ids@.map_values(id_value()) == ids_of(f, all.take(j as int)),
        decreases filters@.len() - j,
    {
        let same = keys[j] == keys[at];
        proof {
            let front = all.take(j as int);
            assert(all.take(j + 1) =~= front.push(all[j as int]));
            front.lemma_filter_push(all[j as int], same_as(f));
            assert(same == same_filter(f, all[j as int]));
        }
        if same {
            let ghost before = ids@;
            ids.push(filters[j].id);
            proof {
                let kept = all.take(j as int).filter(same_as(f));
                assert(ids@.map_values(id_value()) =~= before.map_values(id_value()).push(
                    filters@[j as int].id as int,
                ));
                assert(kept.push(all[j as int]).map_values(id_of()) =~= kept.map_values(
                    id_of(),
                ).push(all[j as int].id));
            }
        }
        j += 1;
    }
    proof {
        assert(all.take(j as int) =~= all);
    }
    ids
}

/// Finds the filters that occur more than once, by canonical identity. Each
/// group holds the first occurrence and the identifiers of all occurrences
/// in their order; the groups come in the order of their first occurrences.
pub fn find_duplicates(filters: &[Filter]) -> (groups: Vec<DuplicateGroup>)
    ensures
        groups.deep_view() == duplicate_groups(filters.deep_view()),
{
    let keys = keys_of(filters);
    let ghost all = filters.deep_view();
    let ghost mut firsts: Seq<FilterView> = Seq::empty();
    let mut seen: Vec<CanonicalKey> = Vec::new();
    let mut groups: Vec<DuplicateGroup> = Vec::new();
    let mut i: usize = 0;
    proof {
        reveal(Seq::filter);
        assert(all.take(0) =~= Seq::empty());
        assert(groups.deep_view() =~= firsts.filter(is_duplicated(all)).map_values(group_of(all)));
    }
    while i < filters.len()
        invariant
            all == filters.deep_view(),
            keys@.len() == filters@.len(),
            forall|k: int|
                0 <= k < keys@.len() ==> (#[trigger] keys@[k])@ == canonical_key(filters@[k]@),
            i <= filters@.len(),
            firsts == first_of_each(all.take(i as int)),
            seen@.len() == firsts.len(),
            forall|k: int| 0 <= k < seen@.len() ==> (#[trigger] seen@[k])@ == canonical_key(firsts[k]),
            groups.deep_view() == firsts.filter(is_duplicated(all)).map_values(group_of(all)),
        decreases filters@.len() - i,
    {
        let ghost f = all[i as int];
        let found = key_among(&keys[i], &seen);
        proof {
            let front = all.take(i as int);
            assert(all.take(i + 1).drop_last() =~= front);
            assert(all.take(i + 1).last() == f);
            lemma_first_of_each_covers(front, f);
            if found {
                let k = choose|k: int| 0 <= k < seen@.len() && (#[trigger] seen@[k])@ == keys@[i as int]@;
                assert(same_filter(f, firsts[k]));
            } else {
                assert forall|k: int| 0 <= k < firsts.len() implies !same_filter(
                    f,
                    #[trigger] firsts[k],
                ) by {
                    assert(seen@[k]@ != keys@[i as int]@);
                }
            }
        }
        if !found {
            let ids = ids_with_key_of(filters, &keys, i);
            seen.push(keys[i].clone());
            proof {
                firsts.lemma_filter_push(f, is_duplicated(all));
                firsts = firsts.push(f);
            }
            if ids.len() > 1 {
                let ghost before = groups;
                let group = DuplicateGroup { filter: filters[i].clone(), ids };
                groups.push(group);
                proof {
                    lemma_deep_view_push(before, groups, group);
                    let chosen = firsts.drop_last().filter(is_duplicated(all));
                    assert(chosen.push(f).map_values(group_of(all)) =~= chosen.map_values(
                        group_of(all),
                    ).push(group_of(all)(f)));
                }
            }
        }
        i += 1;
    }
    proof {
        assert(all.take(i as int) =~= all);
    }
    groups
}

/// Plans how the filters are shown. Carrying the steps out, and stopping at
/// the first page that does not open, is the caller's part.
pub fn display_filters(filters: &[Filter], open: bool, live: bool, verbose: bool) -> (plan: Vec<
    DisplayAction,
>)
    ensures
        plan.deep_view() == display_plan(filters.deep_view(), open, live, verbose),
{
    let mut plan: Vec<DisplayAction> = Vec::new();
    let mut i: usize = 0;
    while i < filters.len()
        invariant
            i <= filters@.len(),
            plan@.len() == i,
            forall|k: int|
                0 <= k < i ==> (#[trigger] plan@[k])@ == display_action(
                    filters@[k]@,
                    open,
                    live,
                    verbose,
                    k == filters@.len() - 1,
                ),
        decreases filters@.len() - i,
    {
        let item = &filters[i];
        let url = get_history_url(live, item.id);
        let action = if open {
            DisplayAction::Open { url }
        } else if verbose {
            DisplayAction::PrintStats {
                roi: item.roi,
                total_picks: item.total_picks,
                success_rate: item.success_rate,
                score: item.get_score(),
                url,
                spaced: i < filters.len() - 1,
            }
        } else {
            DisplayAction::PrintUrl { url }
        };
        plan.push(action);
        i += 1;
    }
    assert(plan.deep_view() =~= display_plan(filters.deep_view(), open, live, verbose));
    plan
}

/// The failure to report when the page at `url` did not open.
pub fn browser_failure(url: &str, reason: &str) -> (e: CliError)
    ensures
        e@ == CliErrorView::BrowserError(
            "Failed to open URL: "@ + url@ + ". Error: "@ + reason@,
        ),
{
    CliError::BrowserError(
        String::from_str("Failed to open URL: ").concat(url).concat(". Error: ").concat(reason),
    )
}

} // verus!
