//! Observability: latency percentiles, per-tool statistics, counters and
//! the recent-event feed.

pub mod agentlens;
pub mod dashboard;
pub mod percentile;
pub mod export;
pub mod metrics;
