use dlnzb::errors::NntpError;
use dlnzb::jsonout::{ErrorOutput, FileInfo, NzbInfo, PostProcessingResult};

#[test]
fn test_error_output() {
    let e = ErrorOutput::from_error(
        String::from("download failed"),
        Some(String::from("connection refused")),
    );
    assert_eq!(e.error, "download failed");
    assert_eq!(e.details.as_deref(), Some("connection refused"));

    let bare = ErrorOutput::from_error(String::from("bad nzb"), None);
    assert!(bare.details.is_none());
}

#[test]
fn test_nntp_error_messages() {
    let auth = NntpError::AuthFailed(b"481".to_vec());
    assert_eq!(auth.message(), b"authentication failed 481".to_vec());
    let timeout = NntpError::Timeout { seconds: 30 };
    assert_eq!(timeout.message(), b"timed out".to_vec());
    let group = NntpError::GroupNotFound;
    assert_eq!(group.message(), b"group not found".to_vec());
}

#[test]
fn test_listing_shape() {
    let info = NzbInfo {
        file: String::from("batch.nzb"),
        total_files: 2,
        total_size: 400,
        total_segments: 5,
        files: vec![
            FileInfo { filename: String::from("a.rar"), size: 300, segments: 3, is_par2: false },
            FileInfo { filename: String::from("a.par2"), size: 100, segments: 2, is_par2: true },
        ],
    };
    assert_eq!(info.files.len(), info.total_files);
    let post = PostProcessingResult {
        par2_verified: true,
        par2_repaired: false,
        rar_extracted: true,
        files_renamed: 1,
    };
    assert!(post.par2_verified && !post.par2_repaired);
}
