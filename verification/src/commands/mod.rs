//! What each command decides, between reading its input and acting on it.

pub mod analyze;
pub mod cleanup;
pub mod dedup;
pub mod outcomes;
