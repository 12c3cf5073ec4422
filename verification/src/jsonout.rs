//! The shapes of the machine-readable outputs.
//!
//! Serialisation itself happens outside the library, on mirror types
//! that carry the derives; these are the fields and their meanings.
//! The download summary additionally carries floating-point rate and
//! time fields, which live only with the serialiser.

use vstd::prelude::*;

verus! {

/// Listing of an NZB's contents.
pub struct NzbInfo {
    pub file: String,
    pub total_files: usize,
    pub total_size: u64,
    pub total_segments: usize,
    pub files: Vec<FileInfo>,
}

/// One file of an NZB listing.
pub struct FileInfo {
    pub filename: String,
    pub size: u64,
    pub segments: usize,
    pub is_par2: bool,
}

/// One file of a download summary.
pub struct DownloadFileResult {
    pub filename: String,
    pub path: String,
    pub size: u64,
    pub segments_downloaded: usize,
    pub segments_failed: usize,
    pub success: bool,
}

/// What post-processing did.
pub struct PostProcessingResult {
    pub par2_verified: bool,
    pub par2_repaired: bool,
    pub rar_extracted: bool,
    pub files_renamed: usize,
}

/// Outcome of a connection test.
pub struct TestResult {
    pub server: String,
    pub port: u16,
    pub ssl: bool,
    pub connected: bool,
    pub authenticated: bool,
    pub healthy: bool,
    pub error: Option<String>,
}

/// A view of the loaded configuration.
pub struct ConfigInfo {
    pub path: String,
    pub exists: bool,
    pub server: Option<String>,
    pub connections: Option<u16>,
}

/// An error, as reported on the machine-readable stream.
pub struct ErrorOutput {
    pub error: String,
    pub details: Option<String>,
}

impl ErrorOutput {
    /// Wrap an error message and its cause, where one is known.
    pub fn from_error(error: String, details: Option<String>) -> (r: Self)
        ensures
            r.error@ == error@,
            r.details == details,
    {
        ErrorOutput { error, details }
    }
}

} // verus!
