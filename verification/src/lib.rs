//! Ingestion and ordering of repository metadata records.
//!
//! Records arrive grouped by the data file they were decoded from. The
//! library selects the data files among the entries of a directory walk,
//! merges the records of every file that decoded, reports the files that did
//! not, and orders the merged records by the recency of their last update.

pub mod record;
pub mod recency;
pub mod laws;
pub mod stack;
mod merge;
pub mod discovery;
pub mod aggregate;

pub use crate::record::{Owner, Repository};
