//! How a selection is shown: one step for each filter.

use vstd::prelude::*;
use crate::models::filter::{filter_score, FilterView};
use crate::utils::config::history_url;

verus! {

/// One step of showing the selection.
#[derive(Debug)]
pub enum DisplayAction {
    /// Open the page in the browser.
    Open { url: String },
    /// Print the address alone.
    PrintUrl { url: String },
    /// Print the statistics and the address, and an empty line after them
    /// when `spaced`.
    PrintStats {
        roi: u32,
        total_picks: u32,
        success_rate: u32,
        score: i64,
        url: String,
        spaced: bool,
    },
}

/// The mathematical value of a `DisplayAction`.
pub enum DisplayActionView {
    Open { url: Seq<char> },
    PrintUrl { url: Seq<char> },
    PrintStats {
        roi: u32,
        total_picks: nat,
        success_rate: u32,
        score: int,
        url: Seq<char>,
        spaced: bool,
    },
}

impl DeepView for DisplayAction {
    type V = DisplayActionView;

    open spec fn deep_view(&self) -> DisplayActionView {
        match self {
            DisplayAction::Open { url } => DisplayActionView::Open { url: url@ },
            DisplayAction::PrintUrl { url } => DisplayActionView::PrintUrl { url: url@ },
            DisplayAction::PrintStats { roi, total_picks, success_rate, score, url, spaced } =>
                DisplayActionView::PrintStats {
                roi: *roi,
                total_picks: *total_picks as nat,
                success_rate: *success_rate,
                score: *score as int,
                url: url@,
                spaced: *spaced,
            },
        }
    }
}

impl View for DisplayAction {
    type V = DisplayActionView;

    open spec fn view(&self) -> DisplayActionView {
        self.deep_view()
    }
}

/// How one filter is shown: its page opened, or its statistics and address
/// printed, or its address alone. After the statistics of every filter but
/// the last an empty line is asked for.
pub open spec fn display_action(
    f: FilterView,
    open: bool,
    live: bool,
    verbose: bool,
    is_last: bool,
) -> DisplayActionView {
    let url = history_url(live, f.id);
    if open {
        DisplayActionView::Open { url }
    } else if verbose {
        DisplayActionView::PrintStats {
            roi: f.roi,
            total_picks: f.total_picks,
            success_rate: f.success_rate,
            score: filter_score(f),
            url,
            spaced: !is_last,
        }
    } else {
        DisplayActionView::PrintUrl { url }
    }
}

/// How the filters are shown, one step for each, in their order.
pub open spec fn display_plan(
    filters: Seq<FilterView>,
    open: bool,
    live: bool,
    verbose: bool,
) -> Seq<DisplayActionView> {
    Seq::new(
        filters.len(),
        |i: int| display_action(filters[i], open, live, verbose, i == filters.len() - 1),
    )
}

} // verus!
