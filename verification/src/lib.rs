//! Comparison of two directory snapshots: every file of either tree is
//! classified as identical, moved, modified, added or deleted.

pub mod checksum;
pub mod file;
pub mod stats;
pub mod snapshot;
pub mod snapshot_1;
pub mod report;
pub mod reconcile;
pub mod snapshot_2;
pub mod compare;
pub mod outcome;
pub mod format;
pub mod printer;
pub mod error;
pub mod filter;
pub mod skipped;
pub mod dir_iter;
pub mod progress;
pub mod snapper;
pub mod cli;
pub mod util;
