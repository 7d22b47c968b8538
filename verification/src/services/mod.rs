//! The stages of the selection pipeline.

pub mod display;
pub mod duplicates;
pub mod filter_service;
pub mod ranking;
pub mod selection;
