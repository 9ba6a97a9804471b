//! Architecture and wave-size gates for ISA interpretation.
use super::error::{IsaError, IsaErrorKind};
use super::provenance::TARGET_ARCH;
use crate::text::{cat, dec_u64, owned, str_eq, trim, trimmed};
use vstd::prelude::*;

verus! {

/// The one supported AMDGPU ISA target.
#[derive(Debug, Clone, Copy, PartialEq, Eq, Structural)]
pub enum Arch {
    Gfx1201,
}

impl Arch {
    /// Accepts exactly `gfx1201`, ignoring surrounding white space.
    pub fn parse(s: &str) -> (r: Result<Self, IsaError>)
        ensures
            r is Ok <==> trimmed(s@) == "gfx1201"@,
            r matches Ok(a) ==> a == Arch::Gfx1201,
            r matches Err(e) ==> e.kind == IsaErrorKind::Unsupported,
    {
        let t = trim(s);
        if str_eq(t, "gfx1201") {
            Ok(Arch::Gfx1201)
        } else {
            let m = cat(cat(owned("unsupported ISA target '"), t), "'");
            Err(IsaError::new(IsaErrorKind::Unsupported, m.as_str()).with_remediation("accepts only gfx1201"))
        }
    }

    pub fn as_str(self) -> (s: &'static str)
        ensures
            s@ == TARGET_ARCH@,
    {
        match self {
            Arch::Gfx1201 => TARGET_ARCH,
        }
    }
}

/// Wave size: a software parameter of the interpreter.
#[derive(Debug, Clone, Copy, PartialEq, Eq, Structural)]
pub enum WaveSize {
    Wave32,
    Wave64,
}

/// Number of lanes of a wave size.
pub open spec fn lanes_spec(w: WaveSize) -> nat {
    match w {
        WaveSize::Wave32 => 32,
        WaveSize::Wave64 => 64,
    }
}

impl WaveSize {
    pub fn lanes(self) -> (n: usize)
        ensures
            n == lanes_spec(self),
    {
        match self {
            WaveSize::Wave32 => 32,
            WaveSize::Wave64 => 64,
        }
    }

    /// Accepts 32 and 64.
    pub fn parse(n: u32) -> (r: Result<Self, IsaError>)
        ensures
            n == 32 ==> r == Ok::<WaveSize, IsaError>(WaveSize::Wave32),
            n == 64 ==> r == Ok::<WaveSize, IsaError>(WaveSize::Wave64),
            n != 32 && n != 64 ==> (r matches Err(e) && e.kind == IsaErrorKind::Config),
    {
        match n {
            32 => Ok(WaveSize::Wave32),
            64 => Ok(WaveSize::Wave64),
            _ => {
                let m = cat(owned("unsupported SoftGPU wave_size="), dec_u64(n as u64).as_str());
                Err(IsaError::new(IsaErrorKind::Config, m.as_str()).with_remediation(
                    "use 32 or 64 (SoftGPU software parameter)",
                ))
            },
        }
    }
}

} // verus!
