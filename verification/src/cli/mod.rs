//! The command line: subcommands and their settings, progress snapshots and
//! text wrapping for console output.
pub mod commands;
pub mod progress;
pub mod output;
