//! Analysis core of a host-resident profiling/tracing agent.
//!
//! The crate turns a raw stream of kernel/runtime timing events into
//! per-thread CPU activity history (a sliding window of one-second
//! segments) and sampled, correlated request traces enriched with
//! profiling data.  All decision logic is verified; clock reads and
//! other outside effects enter through narrow trusted items or are
//! passed in as plain values.

pub mod clock;
pub mod circle_queue;
pub mod config;
pub mod cpu_analyzer;
pub mod export_model;
pub mod exporter_send;
pub mod k8scache;
pub mod laws;
pub mod p9x_cache;
pub mod processor;
pub mod sampler;
pub mod segment;
pub mod tid_exit_clear;
pub mod time_aggregate;
pub mod traceid_analyzer;
pub mod traceid_model;
