//! Fail-closed errors of the functional interpreter.
use super::sanitize::Finding;
use crate::text::{cat, cat_string, dec_chars, dec_u64, hex_chars, hex_u64, owned};
use vstd::prelude::*;

verus! {

/// Every way a functional run can fail.
#[derive(Debug, Clone, PartialEq, Eq)]
pub enum FunctionalError {
    Io(String),
    Parse(String),
    Unsupported { detail: String },
    Validation { detail: String },
    Bounds { addr: u64, size: usize, arena_len: usize },
    UndefinedReg { name: String },
    StepBudgetExceeded { steps: u64 },
    /// A sanitizer finding that stopped the run.
    Sanitize(Finding),
    /// An observer asked the run to stop.
    DebugBreak,
    Internal(String),
}

/// Results of the functional interpreter.
pub type Result<T> = core::result::Result<T, FunctionalError>;

/// The one-line rendering of an error.
pub open spec fn functional_error_text(e: FunctionalError) -> Seq<char> {
    match e {
        FunctionalError::Io(s) => "io: "@ + s@,
        FunctionalError::Parse(s) => "parse: "@ + s@,
        FunctionalError::Unsupported { detail } => "unsupported: "@ + detail@,
        FunctionalError::Validation { detail } => "validation: "@ + detail@,
        FunctionalError::Bounds { addr, size, arena_len } => "bounds: addr=0x"@ + hex_chars(addr as nat)
            + " size="@ + dec_chars(size as nat) + " arena_len="@ + dec_chars(arena_len as nat),
        FunctionalError::UndefinedReg { name } => "undefined register '"@ + name@ + "'"@,
        FunctionalError::StepBudgetExceeded { steps } => "step budget exceeded after "@ + dec_chars(
            steps as nat,
        ) + " steps"@,
        FunctionalError::Sanitize(f) => "sanitize: "@ + f.detail@,
        FunctionalError::DebugBreak => "debug break"@,
        FunctionalError::Internal(s) => "internal: "@ + s@,
    }
}

impl FunctionalError {
    /// A validation error with the given detail.
    pub fn validation(detail: &str) -> (r: Self)
        ensures
            r matches FunctionalError::Validation { detail: d } && d@ == detail@,
    {
        FunctionalError::Validation { detail: owned(detail) }
    }

    /// Renders the error as one line of text.
    pub fn describe(&self) -> (r: String)
        ensures
            r@ == functional_error_text(*self),
    {
        match self {
            FunctionalError::Io(s) => cat(owned("io: "), s.as_str()),
            FunctionalError::Parse(s) => cat(owned("parse: "), s.as_str()),
            FunctionalError::Unsupported { detail } => cat(owned("unsupported: "), detail.as_str()),
            FunctionalError::Validation { detail } => cat(owned("validation: "), detail.as_str()),
            FunctionalError::Bounds { addr, size, arena_len } => {
                let s = cat_string(owned("bounds: addr=0x"), hex_u64(*addr));
                let s = cat_string(cat(s, " size="), dec_u64(*size as u64));
                cat_string(cat(s, " arena_len="), dec_u64(*arena_len as u64))
            },
            FunctionalError::UndefinedReg { name } => cat(
                cat(owned("undefined register '"), name.as_str()),
                "'",
            ),
            FunctionalError::StepBudgetExceeded { steps } => cat(
                cat_string(owned("step budget exceeded after "), dec_u64(*steps)),
                " steps",
            ),
            FunctionalError::Sanitize(f) => cat(owned("sanitize: "), f.detail.as_str()),
            FunctionalError::DebugBreak => owned("debug break"),
            FunctionalError::Internal(s) => cat(owned("internal: "), s.as_str()),
        }
    }
}

} // verus!
