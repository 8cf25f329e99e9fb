//! The data that a backup run is configured with.

pub mod config;
