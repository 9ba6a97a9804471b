//! AMDGPU code-object frontend: bounded ELF64 note walker and MessagePack
//! AMDHSA metadata extraction. Does not execute kernels.
pub mod elf;
pub mod encode;
pub mod fixture;
pub mod load;
pub mod error;
pub mod metadata;
pub mod msgpack;
pub mod note;

pub use error::{CodeObjectError, CodeObjectErrorKind};

use vstd::prelude::*;

verus! {

/// Maximum accepted code-object file size (bytes).
pub const MAX_CODE_OBJECT_BYTES: usize = 16777216;

} // verus!
