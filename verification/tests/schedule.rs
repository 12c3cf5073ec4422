use dlnzb::download::{NzbFile, Segment};
use dlnzb::errors::DownloadError;
use dlnzb::schedule::{
    max_concurrent_files, nzb_total_bytes, segment_byte_sizes, should_refresh_message,
    sort_files_by_segments_desc, validate_nzb, ProgressCounter,
};

fn file_with_segments(name: &[u8], count: u32, seg_bytes: u64) -> NzbFile {
    let mut segments = Vec::new();
    for i in 1..=count {
        segments.push(Segment {
            number: i,
            message_id: format!("{}:{}", String::from_utf8_lossy(name), i).into_bytes(),
            bytes: seg_bytes,
        });
    }
    NzbFile {
        subject: name.to_vec(),
        date: b"0".to_vec(),
        groups: vec![b"alt.binaries.test".to_vec()],
        segments,
    }
}

#[test]
fn test_validate_nzb() {
    let empty: Vec<NzbFile> = Vec::new();
    match validate_nzb(&empty) {
        Err(DownloadError::InsufficientSegments { available, required }) => {
            assert_eq!(available, 0);
            assert_eq!(required, 1);
        },
        _ => panic!("an empty NZB must be refused"),
    }
    let one = vec![file_with_segments(b"a", 1, 10)];
    assert!(validate_nzb(&one).is_ok());
}

#[test]
fn test_totals() {
    let files = vec![
        file_with_segments(b"a", 3, 100),
        file_with_segments(b"b", 2, 50),
    ];
    assert_eq!(nzb_total_bytes(&files), 400);
    assert_eq!(segment_byte_sizes(&files[1].segments), vec![50, 50]);
}

#[test]
fn test_dispatch_order() {
    let files = vec![
        file_with_segments(b"small", 1, 10),
        file_with_segments(b"large", 5, 10),
        file_with_segments(b"mid", 3, 10),
    ];
    let sorted = sort_files_by_segments_desc(files);
    assert_eq!(sorted.len(), 3);
    assert_eq!(sorted[0].subject, b"large".to_vec());
    assert_eq!(sorted[1].subject, b"mid".to_vec());
    assert_eq!(sorted[2].subject, b"small".to_vec());
}

#[test]
fn test_concurrency_limit() {
    assert_eq!(max_concurrent_files(4), 2);
    assert_eq!(max_concurrent_files(10), 2);
    assert_eq!(max_concurrent_files(15), 3);
    assert_eq!(max_concurrent_files(50), 10);
}

#[test]
fn test_refresh_rule() {
    assert!(should_refresh_message(5, 12));
    assert!(should_refresh_message(12, 12));
    assert!(!should_refresh_message(7, 12));
}

// The aggregate byte counter only moves forward and ends on the plan.
#[test]
fn test_progress_counter_monotonic() {
    let mut meter = ProgressCounter::new(280);
    let mut last = meter.done;
    for inc in [100u64, 100, 80] {
        meter.inc(inc);
        assert!(meter.done >= last);
        last = meter.done;
    }
    assert_eq!(meter.done, meter.total);
}
