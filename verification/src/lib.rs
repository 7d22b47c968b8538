//! Curation of betting filters: named rule sets that carry the statistics
//! of their past picks.
//!
//! The library decides; it reads no file and calls no service. Its callers
//! hand it the records of a snapshot and carry out what it plans.
//!
//! - [`models`]: rules and filters, the canonical identity of a filter, its
//!   score and the two threshold tests.
//! - [`services`]: the stages of the selection (exclusion of what the service
//!   holds, collapse of duplicates, validity, ranking), the search for
//!   duplicates and the plan for showing a selection.
//! - [`commands`]: what each of the four commands decides.
//! - [`utils`]: file locations, service addresses, the calls to the scripts
//!   of the service and what their outcomes mean.
//! - [`errors`]: the failures.
//! - [`text`], [`sequences`], [`views`]: strings, sequences and the values of
//!   vectors.

pub mod commands;
pub mod errors;
pub mod models;
pub mod sequences;
pub mod services;
pub mod text;
pub mod utils;
pub mod views;
