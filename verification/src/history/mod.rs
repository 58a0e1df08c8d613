//! Searching the history of shell commands, atuin's included.

pub mod atuin;
pub mod data_source;
pub mod entry;
