//! Fixed configuration, and the calls that reach the service.

pub mod command;
pub mod config;
pub mod filesystem;
pub mod paths;
pub mod url;
