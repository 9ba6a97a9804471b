//! Structured error taxonomy with stable categories.
use crate::text::{cat, owned};
use vstd::prelude::*;

verus! {

/// High-level error categories.
#[derive(Debug, Clone, Copy, PartialEq, Eq, Structural)]
pub enum ErrorCategory {
    /// User-supplied configuration or arguments are invalid.
    Config,
    /// Device profile schema or provenance validation failed.
    Profile,
    /// Requested behavior is explicitly unsupported.
    Unsupported,
    /// Input failed structural validation.
    Validation,
    /// An internal invariant was violated.
    Internal,
    /// I/O failure while reading profiles or related artifacts.
    Io,
}

/// Stable machine-readable id of a category.
pub open spec fn category_id(c: ErrorCategory) -> Seq<char> {
    match c {
        ErrorCategory::Config => "config"@,
        ErrorCategory::Profile => "profile"@,
        ErrorCategory::Unsupported => "unsupported"@,
        ErrorCategory::Validation => "validation"@,
        ErrorCategory::Internal => "internal"@,
        ErrorCategory::Io => "io"@,
    }
}

impl ErrorCategory {
    pub fn as_str(self) -> (s: &'static str)
        ensures
            s@ == category_id(self),
    {
        match self {
            ErrorCategory::Config => "config",
            ErrorCategory::Profile => "profile",
            ErrorCategory::Unsupported => "unsupported",
            ErrorCategory::Validation => "validation",
            ErrorCategory::Internal => "internal",
            ErrorCategory::Io => "io",
        }
    }
}

/// An error with a category, a message and an optional remediation hint.
#[derive(Debug, Clone, PartialEq, Eq)]
pub struct Error {
    pub category: ErrorCategory,
    pub message: String,
    pub remediation: Option<String>,
}

/// `error[<category>]: <message>`, then `; remediation: <hint>` when present.
pub open spec fn error_diagnostic(e: Error) -> Seq<char> {
    let head = "error["@ + category_id(e.category) + "]: "@ + e.message@;
    match e.remediation {
        Some(h) => head + "; remediation: "@ + h@,
        None => head,
    }
}

impl Error {
    pub fn new(category: ErrorCategory, message: &str) -> (r: Self)
        ensures
            r.category == category,
            r.message@ == message@,
            r.remediation is None,
    {
        Error { category, message: owned(message), remediation: None }
    }

    pub fn with_remediation(self, remediation: &str) -> (r: Self)
        ensures
            r.category == self.category,
            r.message@ == self.message@,
            r.remediation matches Some(h) && h@ == remediation@,
    {
        Error { category: self.category, message: self.message, remediation: Some(owned(remediation)) }
    }

    pub fn category(&self) -> (c: ErrorCategory)
        ensures
            c == self.category,
    {
        self.category
    }

    pub fn message(&self) -> (m: &str)
        ensures
            m@ == self.message@,
    {
        self.message.as_str()
    }

    pub fn remediation(&self) -> (r: Option<&str>)
        ensures
            match self.remediation {
                Some(h) => r matches Some(x) && x@ == h@,
                None => r is None,
            },
    {
        match &self.remediation {
            Some(h) => Some(h.as_str()),
            None => None,
        }
    }

    /// Single-line diagnostic for CLI output.
    pub fn format_diagnostic(&self) -> (s: String)
        ensures
            s@ == error_diagnostic(*self),
    {
        let head = cat(cat(cat(owned("error["), self.category.as_str()), "]: "), self.message.as_str());
        match &self.remediation {
            Some(h) => cat(cat(head, "; remediation: "), h.as_str()),
            None => head,
        }
    }
}

} // verus!
