//! Repository metrics: per-file code statistics, folder and repository
//! aggregates, incremental (delta) updates, and pull-request bookkeeping.

pub mod analyzers;
pub mod text;
pub mod db;
pub mod aggregator;
pub mod consistency;
pub mod git;
pub mod analysis;
pub mod cli;
pub mod plan;
pub mod digits;
pub mod github;
pub mod progress;
pub mod status;
pub mod dates;
