//! Verified core of a host-telemetry agent.
//!
//! The library parses the semi-structured text that operating-system probes
//! produce (uptime counters, kernel tunables, loaded modules, kernel log
//! lines, interface listings, traffic counters) into typed records, and
//! assembles those records into snapshots under a partial-failure policy:
//! a failed probe degrades its own field to a default value and never the
//! whole snapshot.

pub mod kernel;
pub mod models;
pub mod network;
pub mod processes;
pub mod text;
