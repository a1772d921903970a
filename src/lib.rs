//! An in-process task lifecycle engine: a lease-based job scheduler with
//! retry and reclaim, and an append-only event log for auditing.
pub mod runtime;
mod clock;
pub mod config;
pub mod epoch;
pub mod module;
pub mod search;
pub mod vaultline;

pub use epoch::{Job, Lease, Scheduler, SchedulerView};
pub use module::{Error, Health, Module, Result};
pub use vaultline::{Event, Vaultline};
pub use runtime::Runtime;
pub use config::{default_data_dir, default_log_level, Config};
