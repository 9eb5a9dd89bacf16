//! Servers: probing machines, launching processes, waiting for readiness and
//! cleaning up.

pub mod checks;
pub mod cleanup;
pub mod handle;
pub mod hardware;
pub mod launch;
pub mod network;
pub mod preflight;
pub mod probe;
pub mod readiness;
pub mod record;
pub mod registry;
pub mod residual;
pub mod shutdown;
pub mod startup;
pub mod targets;
