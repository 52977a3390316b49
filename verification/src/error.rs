//! The error type shared by every component of the stream engine.

use vstd::prelude::*;

verus! {

/// The kind of an I/O failure, mirroring the classification that the byte
/// source and sink report.
#[derive(Debug, Clone, Copy, PartialEq, Eq, Structural)]
pub enum IoErrorKind {
    /// The source ended before the requested bytes were available.
    UnexpectedEof,
    /// A transient interruption; reads are retried on it.
    Interrupted,
    /// Any other underlying I/O failure.
    Other,
}

/// The fixed diagnostic messages that errors of this crate carry.
#[derive(Debug, Clone, Copy, PartialEq, Eq, Structural)]
pub enum ErrorText {
    /// A chunk's authentication tag did not verify, or the chunk was too
    /// short to hold a tag.
    InvalidAuthenticationTag,
    /// The stream ended inside a structure that promised more bytes.
    UnexpectedEndOfStream,
    /// The byte source failed.
    FailedToReadStdin,
    /// The byte sink failed.
    FailedToWriteStdout,
}

impl ErrorText {
    /// The message, spelled as the stream engine's diagnostics emit it.
    pub fn text(&self) -> (r: &'static str)
        ensures
            r@ == (match self {
                ErrorText::InvalidAuthenticationTag => "Invalid authentication-tag"@,
                ErrorText::UnexpectedEndOfStream => "Unexpected end-of-stream"@,
                ErrorText::FailedToReadStdin => "Failed to read from stdin"@,
                ErrorText::FailedToWriteStdout => "Failed to write to stdout"@,
            }),
    {
        match self {
            ErrorText::InvalidAuthenticationTag => "Invalid authentication-tag",
            ErrorText::UnexpectedEndOfStream => "Unexpected end-of-stream",
            ErrorText::FailedToReadStdin => "Failed to read from stdin",
            ErrorText::FailedToWriteStdout => "Failed to write to stdout",
        }
    }
}

/// The error type of the stream engine.
#[derive(Debug, Clone, Copy, PartialEq, Eq, Structural)]
pub enum CpError {
    /// Invalid data: a parse failure, a tag mismatch, or an unexpected
    /// end-of-stream at the authenticated-encryption layer.
    InvalidData(ErrorText),
    /// Not enough resources to process the data.
    ResourceError,
    /// An underlying source or sink failure.
    IOError(IoErrorKind, ErrorText),
    /// A parameter that does not make sense (wrong buffer sizing and the
    /// like; a programming error).
    InvalidParameter,
    /// A well-formed but unsupported value, such as an unknown algorithm
    /// identifier or an out-of-range parameter.
    Unsupported,
    /// A malformed invocation of the command-line front end.
    CliError,
    /// Any remaining failure.
    Other,
}

} // verus!
