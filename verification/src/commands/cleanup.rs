//! Removal of the low performers among the filters that the service holds.

use vstd::prelude::*;
use crate::models::filter::{Filter, FilterView};
use crate::services::filter_service::filter_low_performing;
use crate::services::selection::low_performing;
use crate::utils::command::{delete_call, delete_request, ScriptCall, ScriptCallView};

verus! {

/// A filter to delete, with the call that deletes it.
#[derive(Debug)]
pub struct Deletion {
    pub id: i32,
    pub call: ScriptCall,
}

/// The mathematical value of a `Deletion`.
pub struct DeletionView {
    pub id: int,
    pub call: ScriptCallView,
}

impl DeepView for Deletion {
    type V = DeletionView;

    open spec fn deep_view(&self) -> DeletionView {
        DeletionView { id: self.id as int, call: self.call.deep_view() }
    }
}

impl View for Deletion {
    type V = DeletionView;

    open spec fn view(&self) -> DeletionView {
        self.deep_view()
    }
}

/// The deletion of a filter.
pub open spec fn deletion_of(live: bool) -> spec_fn(FilterView) -> DeletionView {
    |f: FilterView| DeletionView { id: f.id, call: delete_call(f.id, live) }
}

/// The deletions to make: one for each low performer, in the order of the
/// snapshot.
pub open spec fn deletions(data: Seq<FilterView>, live: bool) -> Seq<DeletionView> {
    data.filter(low_performing()).map_values(deletion_of(live))
}

/// Picks the low performers among `data` and plans their deletion. No score
/// and no identity takes part.
pub fn run(data: Vec<Filter>, live: bool) -> (plan: Vec<Deletion>)
    ensures
        plan.deep_view() == deletions(data.deep_view(), live),
{
    let low = filter_low_performing(data);
    let mut plan: Vec<Deletion> = Vec::new();
    let mut i: usize = 0;
    while i < low.len()
        invariant
            i <= low@.len(),
            plan@.len() == i,
            forall|k: int| 0 <= k < i ==> (#[trigger] plan@[k])@ == deletion_of(live)(low@[k]@),
        decreases low@.len() - i,
    {
        plan.push(Deletion { id: low[i].id, call: delete_request(low[i].id, live) });
        i += 1;
    }
    assert(plan.deep_view() =~= low.deep_view().map_values(deletion_of(live)));
    plan
}

} // verus!
