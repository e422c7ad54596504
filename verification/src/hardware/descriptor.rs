//! The kernel's view of a hardware driver: its name, backend and status.
use vstd::prelude::*;

verus! {

/// Generic quantum driver status.
#[derive(Debug, Clone, Copy, PartialEq, Eq, Structural)]
pub enum DriverStatus {
    Uninitialized,
    Ready,
    Busy,
    Error,
}

/// Minimal driver descriptor used by the kernel.
#[derive(Debug, Clone)]
pub struct DriverDescriptor {
    pub name: String,
    pub backend: String,
    pub status: DriverStatus,
}

impl DriverDescriptor {
    /// Creates a new driver descriptor, not yet initialized.
    pub fn new(name: &str, backend: &str) -> (r: Self)
        ensures
            r.name@ == name@,
            r.backend@ == backend@,
            r.status == DriverStatus::Uninitialized,
    {
        DriverDescriptor {
            name: String::from_str(name),
            backend: String::from_str(backend),
            status: DriverStatus::Uninitialized,
        }
    }

    /// Marks the driver as ready.
    pub fn mark_ready(&mut self)
        ensures
            final(self).status == DriverStatus::Ready,
            final(self).name == old(self).name,
            final(self).backend == old(self).backend,
    {
        self.status = DriverStatus::Ready;
    }

    /// Marks the driver as busy.
    pub fn mark_busy(&mut self)
        ensures
            final(self).status == DriverStatus::Busy,
            final(self).name == old(self).name,
            final(self).backend == old(self).backend,
    {
        self.status = DriverStatus::Busy;
    }

    /// Marks the driver as failed.
    pub fn mark_error(&mut self)
        ensures
            final(self).status == DriverStatus::Error,
            final(self).name == old(self).name,
            final(self).backend == old(self).backend,
    {
        self.status = DriverStatus::Error;
    }
}

/// How a platform is reached.
#[derive(Debug, Clone)]
pub struct DriverConfig {
    pub platform: String,
    pub api_endpoint: Option<String>,
    pub credentials: Option<Credentials>,
    pub hardware_id: String,
}

/// API credentials of a platform.
#[derive(Debug, Clone)]
pub struct Credentials {
    pub api_key: String,
    pub secret: Option<String>,
}

} // verus!
