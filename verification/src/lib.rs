//! LightQOS: verified core logic of a quantum operating system kernel.

pub mod cache;
pub mod causal;
pub mod contract;
pub mod efal;
pub mod emf;
pub mod hardware;
pub mod hio;
pub mod ids;
pub mod numeric;
pub mod routing;
pub mod snapshot;
pub mod spaces;
pub mod table;
pub mod octave;
pub mod scheduler;
pub mod shadow;
pub mod text;
pub mod tlm;
pub mod views;
