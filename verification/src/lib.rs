//! Shared memory for coding agents: the insight file format, the usage
//! counters a machine keeps about its insights, term search and ranking, the
//! decisions of a git-backed sync, and the setup rules for agent tooling.

pub mod text;
pub mod timestamp;
pub mod insight_format;
pub mod usage;
pub mod insight;
pub mod store_path;
pub mod log_level;
pub mod search;
pub mod matching;
pub mod ranking;
pub mod wrap;
pub mod git;
pub mod report;
pub mod sync_run;
pub mod migrate;
pub mod setup;
pub mod wizard;
pub mod listing;
pub mod round_trip;
pub mod server_config;
pub mod highlight;
