//! The data model: rules, filters and what can be asked of a filter.

pub mod canonical;
pub mod filter;
pub mod filter_traits;
pub mod percent;
pub mod rule;
