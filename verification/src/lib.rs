//! Diagnostics over the telemetry tables of an analytical database cluster:
//! typed filters that render to parameterized predicates, the merge of
//! per-node rows by fingerprint or error code, and the ranking of the merged
//! records.

pub mod analyzer;
pub mod cli;
pub mod client;
pub mod context;
pub mod decimal;
pub mod model;
pub mod names;
pub mod output;
pub mod ranking;
pub mod timestamp;
