//! Default snapshot locations for the two filter families.

use vstd::prelude::*;

verus! {

/// The four snapshot files the tool works with.
pub struct FilePaths {
    pub live_data: &'static str,
    pub pre_match_data: &'static str,
    pub existing_live: &'static str,
    pub existing_pre_match: &'static str,
}

/// Where the candidates of a family are found.
pub open spec fn data_path(live: bool) -> Seq<char> {
    if live {
        "live.json"@
    } else {
        "pre.json"@
    }
}

/// Where the filters that the service already holds are found.
pub open spec fn existing_path(live: bool) -> Seq<char> {
    if live {
        "existing_live.json"@
    } else {
        "existing_pre.json"@
    }
}

/// The snapshot locations in use.
pub fn paths() -> (p: FilePaths)
    ensures
        p.live_data@ == data_path(true),
        p.pre_match_data@ == data_path(false),
        p.existing_live@ == existing_path(true),
        p.existing_pre_match@ == existing_path(false),
{
    FilePaths {
        live_data: "live.json",
        pre_match_data: "pre.json",
        existing_live: "existing_live.json",
        existing_pre_match: "existing_pre.json",
    }
}

/// Candidate snapshot for the chosen family.
pub fn get_data_path(live: bool) -> (path: &'static str)
    ensures
        path@ == data_path(live),
{
    if live {
        paths().live_data
    } else {
        paths().pre_match_data
    }
}

/// Snapshot of the filters already held by the service, for the chosen family.
pub fn get_existing_path(live: bool) -> (path: &'static str)
    ensures
        path@ == existing_path(live),
{
    if live {
        paths().existing_live
    } else {
        paths().existing_pre_match
    }
}

} // verus!
