//! Report of the filters that occur more than once in a snapshot.

use vstd::prelude::*;
use crate::models::filter::Filter;
use crate::models::rule::clone_optional_text;
use crate::services::duplicates::{duplicate_groups, DuplicateGroupView};
use crate::services::filter_service::find_duplicates;
use crate::utils::config::{get_history_url, history_url};
use crate::utils::paths::{existing_path, get_existing_path};

verus! {

/// One occurrence of a duplicated filter: its identifier and its page.
#[derive(Debug)]
pub struct DuplicateEntry {
    pub id: i32,
    pub url: String,
}

/// The mathematical value of a `DuplicateEntry`.
pub struct DuplicateEntryView {
    pub id: int,
    pub url: Seq<char>,
}

impl DeepView for DuplicateEntry {
    type V = DuplicateEntryView;

    open spec fn deep_view(&self) -> DuplicateEntryView {
        DuplicateEntryView { id: self.id as int, url: self.url@ }
    }
}

impl View for DuplicateEntry {
    type V = DuplicateEntryView;

    open spec fn view(&self) -> DuplicateEntryView {
        self.deep_view()
    }
}

/// What is reported of one duplicated filter: the outcome it aims at, the
/// return and success rate of its first occurrence, and every occurrence.
#[derive(Debug)]
pub struct DuplicateReport {
    pub desired_outcome: Option<String>,
    pub roi: u32,
    pub success_rate: u32,
    pub entries: Vec<DuplicateEntry>,
}

/// The mathematical value of a `DuplicateReport`.
pub struct DuplicateReportView {
    pub desired_outcome: Option<Seq<char>>,
    pub roi: u32,
    pub success_rate: u32,
    pub entries: Seq<DuplicateEntryView>,
}

impl DeepView for DuplicateReport {
    type V = DuplicateReportView;

    open spec fn deep_view(&self) -> DuplicateReportView {
        DuplicateReportView {
            desired_outcome: self.desired_outcome.deep_view(),
            roi: self.roi,
            success_rate: self.success_rate,
            entries: self.entries.deep_view(),
        }
    }
}

impl View for DuplicateReport {
    type V = DuplicateReportView;

    open spec fn view(&self) -> DuplicateReportView {
        self.deep_view()
    }
}

/// The entry of an occurrence.
pub open spec fn entry_of(live: bool) -> spec_fn(int) -> DuplicateEntryView {
    |id: int| DuplicateEntryView { id, url: history_url(live, id) }
}

/// The report of a group.
pub open spec fn report_of(live: bool) -> spec_fn(DuplicateGroupView) -> DuplicateReportView {
    |group: DuplicateGroupView|
        DuplicateReportView {
            desired_outcome: group.filter.desired_outcome,
            roi: group.filter.roi,
            success_rate: group.filter.success_rate,
            entries: group.ids.map_values(entry_of(live)),
        }
}

/// The snapshot to analyse: the one named, or the default for the family
/// when the name is empty.
pub fn source_path(filename: String, live: bool) -> (path: String)
    ensures
        path@ == (if filename@.len() == 0 {
            existing_path(live)
        } else {
            filename@
        }),
{
    if filename.as_str().is_empty() {
        get_existing_path(live).to_owned()
    } else {
        filename
    }
}

/// Reports the duplicated filters of `data`, one report for each, in the
/// order of their first occurrences.
pub fn run(data: &[Filter], live: bool) -> (reports: Vec<DuplicateReport>)
    ensures
        reports.deep_view() == duplicate_groups(data.deep_view()).map_values(report_of(live)),
{
    let groups = find_duplicates(data);
    let ghost found = groups.deep_view();
    let mut reports: Vec<DuplicateReport> = Vec::new();
    let mut i: usize = 0;
    while i < groups.len()
        invariant
            found == groups.deep_view(),
            i <= groups@.len(),
            reports@.len() == i,
            forall|k: int| 0 <= k < i ==> (#[trigger] reports@[k])@ == report_of(live)(found[k]),
        decreases groups@.len() - i,
    {
        let group = &groups[i];
        let mut entries: Vec<DuplicateEntry> = Vec::new();
        let mut j: usize = 0;
        while j < group.ids.len()
            invariant
                j <= group.ids@.len(),
                entries@.len() == j,
                forall|k: int|
                    0 <= k < j ==> (#[trigger] entries@[k])@ == entry_of(live)(
                        group.ids@[k] as int,
                    ),
            decreases group.ids@.len() - j,
        {
            let id = group.ids[j];
            entries.push(DuplicateEntry { id, url: get_history_url(live, id) });
            j += 1;
        }
        let report = DuplicateReport {
            desired_outcome: clone_optional_text(&group.filter.desired_outcome),
            roi: group.filter.roi,
            success_rate: group.filter.success_rate,
            entries,
        };
        proof {
            assert(found[i as int] == group@);
            assert(report@.entries =~= group@.ids.map_values(entry_of(live)));
        }
        reports.push(report);
        i += 1;
    }
    assert(reports.deep_view() =~= found.map_values(report_of(live)));
    reports
}

} // verus!
