//! Addresses of the web pages and of the service interface, for the live
//! and the pre-match family of filters.

use vstd::prelude::*;
use vstd::string::StringExecFns;
use crate::text::{decimal, decimal_string};

verus! {

/// The base addresses in use.
pub struct UrlConfig {
    pub web_base_live: &'static str,
    pub web_base_pre_match: &'static str,
    pub api_base_live: &'static str,
    pub api_base_pre_match: &'static str,
}

/// The base addresses in use.
pub fn urls() -> (u: UrlConfig)
    ensures
        u.web_base_live@ == web_base_url(true),
        u.web_base_pre_match@ == web_base_url(false),
        u.api_base_live@ == api_base_url(true),
        u.api_base_pre_match@ == api_base_url(false),
{
    UrlConfig {
        web_base_live: "https://betmines.com/vip/live-filters",
        web_base_pre_match: "https://betmines.com/vip/pre-match-scanner-for-football",
        api_base_live: "https://api.betmines.com/betmines/v1/livefilters",
        api_base_pre_match: "https://api.betmines.com/betmines/v1/preMatchfilters",
    }
}

/// Address of the web pages of a family.
pub open spec fn web_base_url(live: bool) -> Seq<char> {
    if live {
        "https://betmines.com/vip/live-filters"@
    } else {
        "https://betmines.com/vip/pre-match-scanner-for-football"@
    }
}

/// Address of the service interface of a family.
pub open spec fn api_base_url(live: bool) -> Seq<char> {
    if live {
        "https://api.betmines.com/betmines/v1/livefilters"@
    } else {
        "https://api.betmines.com/betmines/v1/preMatchfilters"@
    }
}

/// Address under which a filter is copied into the account.
pub open spec fn copy_endpoint(live: bool) -> Seq<char> {
    api_base_url(live) + "/copyFilter"@
}

/// Address under which a filter is deleted; the identifier follows it.
pub open spec fn delete_endpoint(live: bool) -> Seq<char> {
    api_base_url(live) + "/"@
}

pub fn get_web_base_url(live: bool) -> (url: &'static str)
    ensures
        url@ == web_base_url(live),
{
    if live {
        urls().web_base_live
    } else {
        urls().web_base_pre_match
    }
}

pub fn get_api_base_url(live: bool) -> (url: &'static str)
    ensures
        url@ == api_base_url(live),
{
    if live {
        urls().api_base_live
    } else {
        urls().api_base_pre_match
    }
}

pub fn get_copy_endpoint(live: bool) -> (url: String)
    ensures
        url@ == copy_endpoint(live),
{
    String::from_str(get_api_base_url(live)).concat("/copyFilter")
}

pub fn get_delete_endpoint(live: bool) -> (url: String)
    ensures
        url@ == delete_endpoint(live),
{
    String::from_str(get_api_base_url(live)).concat("/")
}

/// Address of the page that shows the history of a filter.
pub open spec fn history_url(live: bool, id: int) -> Seq<char> {
    web_base_url(live) + "/"@ + decimal(id) + "/history"@
}

/// Address of the page that shows the history of the filter `id`.
pub fn get_history_url(live: bool, id: i32) -> (url: String)
    ensures
        url@ == history_url(live, id as int),
{
    String::from_str(get_web_base_url(live)).concat("/").concat(
        decimal_string(id as i64).as_str(),
    ).concat("/history")
}

} // verus!
