//! The kinds of failure of the toolchain manager. No failure is retried:
//! each ends the command it arose in.

use vstd::prelude::*;

verus! {

/// What went wrong, by kind.
#[derive(Debug, Clone, Copy, PartialEq, Eq, Structural, Hash)]
pub enum FailureKind {
    /// The selector was resolved, and no installed toolchain matches it.
    NotFound,
    /// No branch or version of the server qualifies, or an alias stands for
    /// nothing.
    ResolutionFailure,
    /// The network failed, or a body is larger than the download limit.
    TransferFailure,
    /// A listing or an archive is of no known format or is malformed.
    FormatFailure,
    /// A file or directory could not be created, written or removed.
    FilesystemFailure,
    /// The home directory cannot be determined.
    ConfigFailure,
}

impl FailureKind {
    /// The name of this kind, as messages show it.
    pub fn name(&self) -> (r: &'static str)
        ensures
            r@ == match *self {
                FailureKind::NotFound => "not found"@,
                FailureKind::ResolutionFailure => "resolution failure"@,
                FailureKind::TransferFailure => "transfer failure"@,
                FailureKind::FormatFailure => "format failure"@,
                FailureKind::FilesystemFailure => "filesystem failure"@,
                FailureKind::ConfigFailure => "configuration failure"@,
            },
    {
        match self {
            FailureKind::NotFound => "not found",
            FailureKind::ResolutionFailure => "resolution failure",
            FailureKind::TransferFailure => "transfer failure",
            FailureKind::FormatFailure => "format failure",
            FailureKind::FilesystemFailure => "filesystem failure",
            FailureKind::ConfigFailure => "configuration failure",
        }
    }
}

} // verus!
