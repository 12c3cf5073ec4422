//! Verified core of a Usenet (NNTP) binary downloader.
//!
//! The crate holds the decision and computation logic of the downloader:
//! the yEnc codec, NNTP framing and pipelining decisions, the connection
//! pool accounting, segment batching and reassembly, the scheduler's
//! ordering rules, post-download gating (PAR2, RAR extraction), filename
//! grammar, content sniffing and deobfuscation. All text that the logic
//! inspects (filenames, protocol lines) is handled as bytes.

pub mod deobfuscate;
pub mod download;
pub mod errors;
pub mod jsonout;
pub mod par2;
pub mod patterns;
pub mod pool;
pub mod postprocess;
pub mod progress;
pub mod protocol;
pub mod rar;
pub mod schedule;
pub mod sniff;
pub mod text;
pub mod yenc;

