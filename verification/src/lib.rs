//! Bounded-concurrency network probe engine.
//!
//! The library models the core of a small network diagnostic tool: a port
//! specification parser, per-probe outcome classification, and a scheduler
//! state machine that issues probes under a concurrency ceiling and collects
//! their outcomes into one sorted report. All I/O lives outside the library;
//! every function here is pure logic over plain values, verified by Verus.

pub mod aggregator;
pub mod dns;
pub mod formatting;
pub mod http;
pub mod icmp;
pub mod ping;
pub mod ports;
pub mod probe;
pub mod report;
pub mod scheduler;
pub mod text;
pub mod trace;
