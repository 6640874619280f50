//! Observability: configuration switches, the start-up announcement and
//! energy diagnostics.

pub mod config;
pub mod inspector;
pub mod trace;
pub mod metrics;
