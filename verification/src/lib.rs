//! Backend core of a local-network diagnostic tool.
//!
//! Two verified subsystems: an ARP-sweep discovery engine (frame
//! construction and parsing, subnet enumeration, device aggregation)
//! and a single-flight stress-test engine (validation, safety gates,
//! pacing decisions, metric accumulation).

pub mod text;
pub mod ip;
pub mod metrics;
pub mod stress;
pub mod oui;
pub mod scan;
