//! Quantum hardware drivers: job bookkeeping, backend catalogues and program text.
pub mod descriptor;
pub mod driver_api;
pub mod ibm;
pub mod ionq;
pub mod manager;
pub mod qblox;
pub mod simulator;
pub mod zurich;
