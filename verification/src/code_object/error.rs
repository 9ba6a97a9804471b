//! Fail-closed errors for code-object parsing.
use crate::text::{cat, dec_u64, owned};
use vstd::prelude::*;

verus! {

/// Structured parse / validation failures (never panics across the API).
#[derive(Debug, Clone, PartialEq, Eq)]
pub enum CodeObjectError {
    Io(String),
    TooLarge { size: usize, max: usize },
    Truncated { detail: String },
    NotElf,
    UnsupportedClass { class: u8 },
    UnsupportedEndian { data: u8 },
    UnsupportedElfType { etype: u16 },
    BadHeader { detail: String },
    SectionFault { detail: String },
    NoteNotFound,
    UnsupportedNote { detail: String },
    MsgPack { detail: String },
    Metadata { detail: String },
    UnsupportedMetadataVersion { major: u32, minor: u32 },
    UnsupportedTarget { target: String },
    LimitExceeded { detail: String },
    Unsupported { detail: String },
}

/// The variant of a [`CodeObjectError`], without its payload.
#[derive(Debug, Clone, Copy, PartialEq, Eq)]
pub enum CodeObjectErrorKind {
    Io,
    TooLarge,
    Truncated,
    NotElf,
    UnsupportedClass,
    UnsupportedEndian,
    UnsupportedElfType,
    BadHeader,
    SectionFault,
    NoteNotFound,
    UnsupportedNote,
    MsgPack,
    Metadata,
    UnsupportedMetadataVersion,
    UnsupportedTarget,
    LimitExceeded,
    Unsupported,
}

impl CodeObjectError {
    pub open spec fn spec_kind(self) -> CodeObjectErrorKind {
        match self {
            CodeObjectError::Io(_) => CodeObjectErrorKind::Io,
            CodeObjectError::TooLarge { .. } => CodeObjectErrorKind::TooLarge,
            CodeObjectError::Truncated { .. } => CodeObjectErrorKind::Truncated,
            CodeObjectError::NotElf => CodeObjectErrorKind::NotElf,
            CodeObjectError::UnsupportedClass { .. } => CodeObjectErrorKind::UnsupportedClass,
            CodeObjectError::UnsupportedEndian { .. } => CodeObjectErrorKind::UnsupportedEndian,
            CodeObjectError::UnsupportedElfType { .. } => CodeObjectErrorKind::UnsupportedElfType,
            CodeObjectError::BadHeader { .. } => CodeObjectErrorKind::BadHeader,
            CodeObjectError::SectionFault { .. } => CodeObjectErrorKind::SectionFault,
            CodeObjectError::NoteNotFound => CodeObjectErrorKind::NoteNotFound,
            CodeObjectError::UnsupportedNote { .. } => CodeObjectErrorKind::UnsupportedNote,
            CodeObjectError::MsgPack { .. } => CodeObjectErrorKind::MsgPack,
            CodeObjectError::Metadata { .. } => CodeObjectErrorKind::Metadata,
            CodeObjectError::UnsupportedMetadataVersion {
                ..
            } => CodeObjectErrorKind::UnsupportedMetadataVersion,
            CodeObjectError::UnsupportedTarget { .. } => CodeObjectErrorKind::UnsupportedTarget,
            CodeObjectError::LimitExceeded { .. } => CodeObjectErrorKind::LimitExceeded,
            CodeObjectError::Unsupported { .. } => CodeObjectErrorKind::Unsupported,
        }
    }

    /// The variant of this error.
    pub fn kind(&self) -> (k: CodeObjectErrorKind)
        ensures
            k == self.spec_kind(),
    {
        match self {
            CodeObjectError::Io(_) => CodeObjectErrorKind::Io,
            CodeObjectError::TooLarge { .. } => CodeObjectErrorKind::TooLarge,
            CodeObjectError::Truncated { .. } => CodeObjectErrorKind::Truncated,
            CodeObjectError::NotElf => CodeObjectErrorKind::NotElf,
            CodeObjectError::UnsupportedClass { .. } => CodeObjectErrorKind::UnsupportedClass,
            CodeObjectError::UnsupportedEndian { .. } => CodeObjectErrorKind::UnsupportedEndian,
            CodeObjectError::UnsupportedElfType { .. } => CodeObjectErrorKind::UnsupportedElfType,
            CodeObjectError::BadHeader { .. } => CodeObjectErrorKind::BadHeader,
            CodeObjectError::SectionFault { .. } => CodeObjectErrorKind::SectionFault,
            CodeObjectError::NoteNotFound => CodeObjectErrorKind::NoteNotFound,
            CodeObjectError::UnsupportedNote { .. } => CodeObjectErrorKind::UnsupportedNote,
            CodeObjectError::MsgPack { .. } => CodeObjectErrorKind::MsgPack,
            CodeObjectError::Metadata { .. } => CodeObjectErrorKind::Metadata,
            CodeObjectError::UnsupportedMetadataVersion {
                ..
            } => CodeObjectErrorKind::UnsupportedMetadataVersion,
            CodeObjectError::UnsupportedTarget { .. } => CodeObjectErrorKind::UnsupportedTarget,
            CodeObjectError::LimitExceeded { .. } => CodeObjectErrorKind::LimitExceeded,
            CodeObjectError::Unsupported { .. } => CodeObjectErrorKind::Unsupported,
        }
    }

    /// Human-readable one-line rendering of the error.
    pub fn describe(&self) -> (s: String)
        ensures
            s@.len() > 0,
    {
        let r = match self {
            CodeObjectError::Io(s) => cat(owned("io: "), s.as_str()),
            CodeObjectError::TooLarge { size, max } => {
                let a = cat(owned("file too large ("), dec_u64(*size as u64).as_str());
                let b = cat(a, " > ");
                let c = cat(b, dec_u64(*max as u64).as_str());
                cat(c, ")")
            },
            CodeObjectError::Truncated { detail } => cat(owned("truncated: "), detail.as_str()),
            CodeObjectError::NotElf => owned("not an ELF object"),
            CodeObjectError::UnsupportedClass { class } => cat(
                owned("unsupported ELF class "),
                dec_u64(*class as u64).as_str(),
            ),
            CodeObjectError::UnsupportedEndian { data } => cat(
                owned("unsupported ELF endian "),
                dec_u64(*data as u64).as_str(),
            ),
            CodeObjectError::UnsupportedElfType { etype } => cat(
                owned("unsupported ELF type "),
                dec_u64(*etype as u64).as_str(),
            ),
            CodeObjectError::BadHeader { detail } => cat(owned("bad ELF header: "), detail.as_str()),
            CodeObjectError::SectionFault { detail } => cat(
                owned("section fault: "),
                detail.as_str(),
            ),
            CodeObjectError::NoteNotFound => owned("AMDGPU metadata note not found"),
            CodeObjectError::UnsupportedNote { detail } => cat(
                owned("unsupported note: "),
                detail.as_str(),
            ),
            CodeObjectError::MsgPack { detail } => cat(owned("msgpack: "), detail.as_str()),
            CodeObjectError::Metadata { detail } => cat(owned("metadata: "), detail.as_str()),
            CodeObjectError::UnsupportedMetadataVersion { major, minor } => {
                let a = cat(owned("unsupported amdhsa.version ["), dec_u64(*major as u64).as_str());
                let b = cat(a, ", ");
                let c = cat(b, dec_u64(*minor as u64).as_str());
                cat(c, "]")
            },
            CodeObjectError::UnsupportedTarget { target } => {
                let a = cat(owned("unsupported target '"), target.as_str());
                cat(a, "'")
            },
            CodeObjectError::LimitExceeded { detail } => cat(
                owned("limit exceeded: "),
                detail.as_str(),
            ),
            CodeObjectError::Unsupported { detail } => cat(owned("unsupported: "), detail.as_str()),
        };
        proof {
            reveal_strlit("io: ");
            reveal_strlit("file too large (");
            reveal_strlit("truncated: ");
            reveal_strlit("not an ELF object");
            reveal_strlit("unsupported ELF class ");
            reveal_strlit("unsupported ELF endian ");
            reveal_strlit("unsupported ELF type ");
            reveal_strlit("bad ELF header: ");
            reveal_strlit("section fault: ");
            reveal_strlit("AMDGPU metadata note not found");
            reveal_strlit("unsupported note: ");
            reveal_strlit("msgpack: ");
            reveal_strlit("metadata: ");
            reveal_strlit("unsupported amdhsa.version [");
            reveal_strlit("unsupported target '");
            reveal_strlit("limit exceeded: ");
            reveal_strlit("unsupported: ");
            reveal_strlit(")");
            reveal_strlit("]");
            reveal_strlit("'");
        }
        r
    }
}

} // verus!
