//! Fidelity levels a runtime may claim.
use vstd::prelude::*;

verus! {

/// How faithful an execution or answer is to real hardware.
#[derive(Debug, Clone, Copy, PartialEq, Eq, Structural)]
pub enum FidelityLevel {
    /// ABI-shaped answers; no claim about execution.
    Abi,
    /// Architectural ISA semantics for a named subset.
    ArchitecturalIsa,
    /// Differentially checked against hardware.
    HardwareConformant,
}

impl FidelityLevel {
    pub fn as_str(self) -> (s: &'static str)
        ensures
            s@ == match self {
                FidelityLevel::Abi => "abi"@,
                FidelityLevel::ArchitecturalIsa => "architectural-isa"@,
                FidelityLevel::HardwareConformant => "hardware-conformant"@,
            },
    {
        match self {
            FidelityLevel::Abi => "abi",
            FidelityLevel::ArchitecturalIsa => "architectural-isa",
            FidelityLevel::HardwareConformant => "hardware-conformant",
        }
    }
}

} // verus!
