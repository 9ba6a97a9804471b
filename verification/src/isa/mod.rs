//! gfx1201 ISA: a narrow, evidence-sourced decoder and interpreter for a
//! named compute subset. Unsupported encodings trap before any state changes.
pub mod arch;
pub mod error;
pub mod provenance;
pub mod word;
pub mod inst;
pub mod decode;
pub mod disasm;
pub mod state;
pub mod mem;
pub mod exec;
pub mod kernel;
