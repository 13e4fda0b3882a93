//! Leasing events to workers and taking their reports.

pub mod circuit;
pub mod config;
pub mod lease;
pub mod report;

pub use crate::tables::StoreError;
pub use config::DispatcherConfig;
pub use lease::lease_events;
pub use report::{report_delivery, ReportResult};
