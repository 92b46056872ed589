//! Error taxonomy of the share and import services.

use vstd::prelude::*;

verus! {

/// A failure of a share request, or of one file within it.
///
/// `UnsupportedContent` is per-file and never aborts a whole request: the
/// caller skips the file. The other variants are outcomes of the request.
#[derive(Clone, Copy, PartialEq, Eq, Structural, Debug)]
pub enum ShareError {
    /// The request held no `case_data` part.
    MissingCaseData,
    /// A file's sniffed content type was unrecognized or outside the
    /// allow-list (PDF, image, audio, video).
    UnsupportedContent,
    /// Every generated share-code candidate collided with an existing case.
    CodeSpaceExhausted,
    /// A storage or database call failed; set by the I/O shell, never by
    /// the in-memory store.
    UpstreamFailure,
}

/// A failure of an import request.
#[derive(Clone, Copy, PartialEq, Eq, Structural, Debug)]
pub enum ImportError {
    /// No case carries the given share code.
    NotFound,
    /// The case exists but its expiry timestamp is in the past.
    Expired,
}

impl ShareError {
    /// A short stable label for logs and HTTP bodies.
    pub fn label(&self) -> (r: &'static str)
        ensures
            *self is MissingCaseData ==> r@ == "missing case_data"@,
            *self is UnsupportedContent ==> r@ == "unsupported content type"@,
            *self is CodeSpaceExhausted ==> r@ == "could not allocate a unique share code"@,
            *self is UpstreamFailure ==> r@ == "storage or database failure"@,
    {
        match self {
            ShareError::MissingCaseData => "missing case_data",
            ShareError::UnsupportedContent => "unsupported content type",
            ShareError::CodeSpaceExhausted => "could not allocate a unique share code",
            ShareError::UpstreamFailure => "storage or database failure",
        }
    }
}

impl ImportError {
    /// A short stable label for logs and HTTP bodies.
    pub fn label(&self) -> (r: &'static str)
        ensures
            *self is NotFound ==> r@ == "case not found"@,
            *self is Expired ==> r@ == "case expired"@,
    {
        match self {
            ImportError::NotFound => "case not found",
            ImportError::Expired => "case expired",
        }
    }
}

} // verus!
