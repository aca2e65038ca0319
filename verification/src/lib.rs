//! Latency-probing engine: bounded per-target sampling with an early-stop
//! rule, best-value aggregation across targets, and severity classification
//! against a pair of thresholds.
//!
//! Latencies are carried as whole microseconds so that every comparison and
//! minimum in the engine is exact.

pub mod engine;
pub mod output;
pub mod report;
pub mod status;
