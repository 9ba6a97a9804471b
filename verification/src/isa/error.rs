//! ISA errors and traps (fail closed; no silent corruption).
use crate::text::{cat, cat_string, dec_chars, dec_u64, hex_chars, hex_padded, hex_u64, hex_u64_padded, owned};
use vstd::prelude::*;

verus! {

/// Categories for ISA diagnostics.
#[derive(Debug, Clone, Copy, PartialEq, Eq, Structural)]
pub enum IsaErrorKind {
    Config,
    Validation,
    Unsupported,
    Trap,
}

/// Name of a kind as it appears in diagnostics.
pub open spec fn kind_name(k: IsaErrorKind) -> Seq<char> {
    match k {
        IsaErrorKind::Config => "Config"@,
        IsaErrorKind::Validation => "Validation"@,
        IsaErrorKind::Unsupported => "Unsupported"@,
        IsaErrorKind::Trap => "Trap"@,
    }
}

/// Fail-closed ISA error.
#[derive(Debug, Clone, PartialEq, Eq)]
pub struct IsaError {
    pub kind: IsaErrorKind,
    pub message: String,
    pub remediation: Option<String>,
}

/// `[Kind] message`, then an indented remediation line when there is one.
pub open spec fn diagnostic_spec(e: IsaError) -> Seq<char> {
    let head = "["@ + kind_name(e.kind) + "] "@ + e.message@;
    match e.remediation {
        Some(r) => head + "\n  remediation: "@ + r@,
        None => head,
    }
}

impl IsaError {
    pub fn new(kind: IsaErrorKind, message: &str) -> (r: Self)
        ensures
            r.kind == kind,
            r.message@ == message@,
            r.remediation is None,
    {
        IsaError { kind, message: owned(message), remediation: None }
    }

    pub fn with_remediation(self, remediation: &str) -> (r: Self)
        ensures
            r.kind == self.kind,
            r.message@ == self.message@,
            r.remediation matches Some(x) && x@ == remediation@,
    {
        IsaError { kind: self.kind, message: self.message, remediation: Some(owned(remediation)) }
    }

    pub fn kind(&self) -> (k: IsaErrorKind)
        ensures
            k == self.kind,
    {
        self.kind
    }

    pub fn message(&self) -> (m: &str)
        ensures
            m@ == self.message@,
    {
        self.message.as_str()
    }

    pub fn format_diagnostic(&self) -> (s: String)
        ensures
            s@ == diagnostic_spec(*self),
    {
        let name = match self.kind {
            IsaErrorKind::Config => "Config",
            IsaErrorKind::Validation => "Validation",
            IsaErrorKind::Unsupported => "Unsupported",
            IsaErrorKind::Trap => "Trap",
        };
        let head = cat(cat(cat(owned("["), name), "] "), self.message.as_str());
        match &self.remediation {
            Some(r) => cat(cat(head, "\n  remediation: "), r.as_str()),
            None => head,
        }
    }
}

/// Why execution stopped before applying an instruction's effect.
#[derive(Debug, Clone, PartialEq, Eq)]
pub enum TrapKind {
    UnsupportedEncoding { word: u32, pc: u32 },
    UnsupportedOpcode { format: &'static str, op: u32, word: u32, pc: u32 },
    UnsupportedOperand { encoding: u8, role: &'static str, pc: u32 },
    MisalignedPc { pc: u32 },
    FetchOutOfBounds { pc: u32, len: usize },
    Halted,
}

/// The message of the error a trap becomes.
pub open spec fn trap_message(t: TrapKind) -> Seq<char> {
    match t {
        TrapKind::UnsupportedEncoding { word, pc } => "unsupported encoding word=0x"@ + hex_padded(word as nat, 8)
            + " at pc=0x"@ + hex_chars(pc as nat),
        TrapKind::UnsupportedOpcode { format, op, word, pc } => "unsupported "@ + format@ + " opcode="@ + dec_chars(
            op as nat,
        ) + " word=0x"@ + hex_padded(word as nat, 8) + " at pc=0x"@ + hex_chars(pc as nat),
        TrapKind::UnsupportedOperand { encoding, role, pc } => "unsupported "@ + role@ + " operand encoding=0x"@
            + hex_padded(encoding as nat, 2) + " at pc=0x"@ + hex_chars(pc as nat),
        TrapKind::MisalignedPc { pc } => "misaligned PC 0x"@ + hex_chars(pc as nat)
            + " (must be 4-byte aligned for SALU words)"@,
        TrapKind::FetchOutOfBounds { pc, len } => "fetch out of bounds pc=0x"@ + hex_chars(pc as nat)
            + " code_len="@ + dec_chars(len as nat),
        TrapKind::Halted => "machine already halted (s_endpgm)"@,
    }
}

/// The kind of the error a trap becomes: `Validation` for a halted machine,
/// `Trap` otherwise.
pub open spec fn trap_error_kind(t: TrapKind) -> IsaErrorKind {
    match t {
        TrapKind::Halted => IsaErrorKind::Validation,
        _ => IsaErrorKind::Trap,
    }
}

impl TrapKind {
    pub fn to_error(&self) -> (e: IsaError)
        ensures
            e.kind == trap_error_kind(*self),
            e.message@ == trap_message(*self),
    {
        match self {
            TrapKind::UnsupportedEncoding { word, pc } => {
                let m = cat(owned("unsupported encoding word=0x"), hex_u64_padded(*word as u64, 8).as_str());
                let m = cat(cat(m, " at pc=0x"), hex_u64(*pc as u64).as_str());
                IsaError::new(IsaErrorKind::Trap, m.as_str()).with_remediation(
                    "the supported subset is softgpu-gfx1201-compute-v2",
                )
            },
            TrapKind::UnsupportedOpcode { format, op, word, pc } => {
                let m = cat(cat(cat(owned("unsupported "), format), " opcode="), dec_u64(*op as u64).as_str());
                let m = cat(cat(m, " word=0x"), hex_u64_padded(*word as u64, 8).as_str());
                let m = cat(cat(m, " at pc=0x"), hex_u64(*pc as u64).as_str());
                IsaError::new(IsaErrorKind::Trap, m.as_str()).with_remediation(
                    "extend the tables only with sourced goldens; do not invent opcodes",
                )
            },
            TrapKind::UnsupportedOperand { encoding, role, pc } => {
                let m = cat(cat(cat(owned("unsupported "), role), " operand encoding=0x"), hex_u64_padded(*encoding as u64, 2).as_str());
                let m = cat(cat(m, " at pc=0x"), hex_u64(*pc as u64).as_str());
                IsaError::new(IsaErrorKind::Trap, m.as_str()).with_remediation(
                    "supported operands are SGPR 0..=105 and inline constants 0..=64 / -1",
                )
            },
            TrapKind::MisalignedPc { pc } => {
                let m = cat(cat(owned("misaligned PC 0x"), hex_u64(*pc as u64).as_str()), " (must be 4-byte aligned for SALU words)");
                IsaError::new(IsaErrorKind::Trap, m.as_str())
            },
            TrapKind::FetchOutOfBounds { pc, len } => {
                let m = cat(cat(owned("fetch out of bounds pc=0x"), hex_u64(*pc as u64).as_str()), " code_len=");
                let m = cat_string(m, dec_u64(*len as u64));
                IsaError::new(IsaErrorKind::Trap, m.as_str())
            },
            TrapKind::Halted => IsaError::new(IsaErrorKind::Validation, "machine already halted (s_endpgm)"),
        }
    }
}

} // verus!
