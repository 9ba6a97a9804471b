//! SoftGPU: a software GPU stack — code-object parsing, a gfx1201 ISA
//! interpreter, an HSA-shaped runtime core and a functional IR interpreter.
pub mod bytes;
pub mod text;
pub mod code_object;
pub mod isa;
pub mod device;
pub mod functional;
