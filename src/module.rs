use vstd::prelude::*;

verus! {

/// Health of a component, as reported to the runtime.
#[derive(Debug, Clone, PartialEq, Eq)]
pub enum Health {
    Healthy,
    Degraded { reason: String },
    Unhealthy { reason: String },
}

/// Errors of the library.
#[derive(Debug, Clone, PartialEq, Eq)]
pub enum Error {
    /// `complete` or `fail` named a job that holds no active lease.
    NotLeased(u64),
    /// Creating, writing or reading the backing file failed.
    Io(String),
    /// A component refused to start or stop.
    Module(String),
}

pub type Result<T> = std::result::Result<T, Error>;

/// Minimal lifecycle every component should implement.
pub trait Module {
    fn name(&self) -> &str;

    fn start(&mut self) -> Result<()>;

    fn stop(&mut self) -> Result<()>;

    fn health(&self) -> Health {
        Health::Healthy
    }
}

} // verus!
