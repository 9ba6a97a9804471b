//! Functional IR interpreter: a deterministic CPU executor for a small
//! SIMT-shaped IR with software waves and lanes, group memory, barriers,
//! structured divergence, atomics, a shadow-memory sanitizer and a debugger.
pub mod error;
pub mod ir;
pub mod memory;
pub mod regs;
pub mod sanitize;
pub mod exec;
pub mod model;
pub mod kernels;
pub mod debug;
