//! The computations behind each subcommand; the file and console work
//! around them stays with the caller.

pub mod parse_report;
pub mod dedup;
pub mod state_backfill;
pub mod scan_and_append;
pub mod append;
pub mod migrate_state;
