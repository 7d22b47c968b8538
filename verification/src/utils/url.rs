//! Choice of the web address from the name of a snapshot file.

use vstd::prelude::*;
use crate::text::{contains, contains_text};
use crate::utils::config::web_base_url;

verus! {

/// The web address for a snapshot: that of the live family when asked for,
/// or when the file's name holds the word `live`.
pub fn get_base_url(filename: String, live: bool) -> (url: &'static str)
    ensures
        url@ == web_base_url(live || contains_text(filename@, "live"@)),
{
    if live || contains(filename.as_str(), "live") {
        "https://betmines.com/vip/live-filters"
    } else {
        "https://betmines.com/vip/pre-match-scanner-for-football"
    }
}

} // verus!
