//! Group-coordinated, multi-worker consumption engine for a partitioned,
//! offset-addressed log broker.
//!
//! The engine is the decision core of a consumer-group client: it models
//! group membership, partition ownership under rebalance, the
//! pull-process-commit loop, commit policies with at-least-once semantics,
//! and the aggregation of a pool of worker loops. All broker I/O (polling,
//! committing, subscribing) is performed by a thin unverified shell that
//! feeds events to this engine and carries out the actions it decides.

use vstd::prelude::*;

pub mod commit;
pub mod config;
pub mod engine;
pub mod group;
pub mod partition_map;
pub mod pool;
pub mod record;

verus! {

/// Severity levels understood by the telemetry sink.
#[derive(Clone, Copy, Debug, PartialEq, Eq, Structural)]
pub enum LogLevel {
    Trace,
    Debug,
    Info,
    Warn,
}

/// Maps the count of `--verbose` flags to the log level the telemetry sink
/// is configured with: `0` keeps the default, one occurrence turns on
/// debugging, anything else turns on tracing.
pub fn log_level_for(verbose: i32) -> (level: LogLevel)
    ensures
        verbose == 0 ==> level == LogLevel::Info,
        verbose == 1 ==> level == LogLevel::Debug,
        verbose != 0 && verbose != 1 ==> level == LogLevel::Trace,
{
    match verbose {
        0 => LogLevel::Info,
        1 => LogLevel::Debug,
        _ => LogLevel::Trace,
    }
}

} // verus!
