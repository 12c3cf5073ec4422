//! Error taxonomy of the downloader.
//!
//! Protocol and transport failures, per-file download failures, and
//! post-processing failures. Callers that need to show an error call
//! its `message` method; operating-system causes stay with the I/O
//! layer that met them.

use vstd::prelude::*;
use vstd::string::StringSliceAdditionalSpecFns;

verus! {

/// Failures of one NNTP conversation.
pub enum NntpError {
    /// The TCP connection could not be opened.
    ConnectionFailed { server: Vec<u8>, port: u16 },
    /// A network operation exceeded its deadline.
    Timeout { seconds: u64 },
    /// The TLS handshake failed.
    TlsError,
    /// Authentication was refused; the payload is the redacted status
    /// token, never the credentials.
    AuthFailed(Vec<u8>),
    /// The server broke the expected framing.
    ProtocolError,
    /// `GROUP` was refused.
    GroupNotFound,
    /// `BODY` found no such article.
    ArticleNotFound,
}

/// Failures of one file download.
pub enum DownloadError {
    /// The NZB carries too few usable files or segments.
    InsufficientSegments { available: usize, required: usize },
    /// Writing the output failed.
    Io,
}

/// Failures of the post-download pipeline.
pub enum PostProcessingError {
    /// The recovery-data kernel reported failure.
    Par2Failed(Vec<u8>),
    /// No archive was found where one was required.
    NoRarArchives,
    /// A rename failed.
    FileRenameError { from: Vec<u8>, to: Vec<u8> },
}

impl NntpError {
    /// A short description, for logs and error output.
    pub fn message(&self) -> (r: Vec<u8>)
        ensures
            self is ConnectionFailed ==> r@ == "connection failed".spec_bytes(),
            self is Timeout ==> r@ == "timed out".spec_bytes(),
            self is TlsError ==> r@ == "TLS handshake failed".spec_bytes(),
            self is AuthFailed ==> r@ == "authentication failed ".spec_bytes()
                + self->AuthFailed_0@,
            self is ProtocolError ==> r@ == "protocol error".spec_bytes(),
            self is GroupNotFound ==> r@ == "group not found".spec_bytes(),
            self is ArticleNotFound ==> r@ == "article not found".spec_bytes(),
    {
        let mut out: Vec<u8> = Vec::new();
        match self {
            NntpError::ConnectionFailed { .. } => {
                crate::text::push_all(&mut out, "connection failed".as_bytes());
            },
            NntpError::Timeout { .. } => {
                crate::text::push_all(&mut out, "timed out".as_bytes());
            },
            NntpError::TlsError => {
                crate::text::push_all(&mut out, "TLS handshake failed".as_bytes());
            },
            NntpError::AuthFailed(code) => {
                crate::text::push_all(&mut out, "authentication failed ".as_bytes());
                crate::text::push_all(&mut out, code.as_slice());
            },
            NntpError::ProtocolError => {
                crate::text::push_all(&mut out, "protocol error".as_bytes());
            },
            NntpError::GroupNotFound => {
                crate::text::push_all(&mut out, "group not found".as_bytes());
            },
            NntpError::ArticleNotFound => {
                crate::text::push_all(&mut out, "article not found".as_bytes());
            },
        }
        out
    }
}

} // verus!
