//! Vendor-neutral runtime core: generation-safe handles, device profiles,
//! virtual agents, AQL packets, queues, signals, traces and memory.
pub mod handle;
pub mod error;
pub mod fidelity;
pub mod profile;
pub mod agent;
pub mod queue;
pub mod aql;
pub mod signal;
pub mod trace;
pub mod memory;
pub mod executable;
pub mod keyed;
pub mod runtime;
pub mod hsa;
