use dlnzb::download::{
    assemble_segments, attach_message_ids, batch_failure_results, cleanup_candidates,
    expected_size, fallback_filename, make_batches, plan_file_download, segment_requests,
    should_skip_existing, DownloadResult, FilePlan, NzbFile, Segment, SegmentResult,
};
use dlnzb::pool::{backoff_delay_ms, should_emit_wait_notice, should_give_up, AcquireOutcome,
    ConnectionPool};

fn seg(number: u32, id: &[u8], bytes: u64) -> Segment {
    Segment { number, message_id: id.to_vec(), bytes }
}

fn three_segment_file() -> NzbFile {
    NzbFile {
        subject: b"\"show.mkv\" yEnc (1/3)".to_vec(),
        date: b"1700000000".to_vec(),
        groups: vec![b"alt.binaries.test".to_vec()],
        segments: vec![
            seg(1, b"mid1@x", 100),
            seg(2, b"mid2@x", 100),
            seg(3, b"mid3@x", 80),
        ],
    }
}

#[test]
fn test_expected_size_and_requests() {
    let file = three_segment_file();
    assert_eq!(expected_size(&file.segments), 280);
    let reqs = segment_requests(&file);
    assert_eq!(reqs.len(), 3);
    assert_eq!(reqs[0].segment_number, 1);
    assert_eq!(reqs[2].message_id, b"mid3@x".to_vec());
    assert_eq!(reqs[1].group, b"alt.binaries.test".to_vec());
}

#[test]
fn test_resume_rule() {
    assert!(should_skip_existing(Some(280), 280, false));
    assert!(!should_skip_existing(Some(280), 280, true));
    assert!(!should_skip_existing(Some(279), 280, false));
    assert!(!should_skip_existing(None, 280, false));
}

#[test]
fn test_fallback_filename() {
    assert_eq!(
        fallback_filename(b"1700000000"),
        b"unknown_file_1700000000".to_vec()
    );
}

#[test]
fn test_make_batches_partitions_in_order() {
    let file = three_segment_file();
    let batches = make_batches(segment_requests(&file), 2);
    assert_eq!(batches.len(), 2);
    assert_eq!(batches[0].len(), 2);
    assert_eq!(batches[1].len(), 1);
    assert_eq!(batches[0][0].segment_number, 1);
    assert_eq!(batches[0][1].segment_number, 2);
    assert_eq!(batches[1][0].segment_number, 3);
}

// All three segments fetched: the output is s1 ++ s2 ++ s3, exactly 280
// bytes, with no failures.
#[test]
fn test_assembly_happy_path() {
    let s1 = vec![1u8; 100];
    let s2 = vec![2u8; 100];
    let s3 = vec![3u8; 80];
    let results = vec![
        SegmentResult { segment_number: 1, data: Some(s1.clone()), message_id: b"mid1@x".to_vec() },
        SegmentResult { segment_number: 2, data: Some(s2.clone()), message_id: b"mid2@x".to_vec() },
        SegmentResult { segment_number: 3, data: Some(s3.clone()), message_id: b"mid3@x".to_vec() },
    ];
    let out = assemble_segments(3, &results);
    let mut expected = s1;
    expected.extend(s2);
    expected.extend(s3);
    assert_eq!(out.data.len(), 280);
    assert_eq!(out.data, expected);
    assert_eq!(out.segments_downloaded, 3);
    assert_eq!(out.segments_failed, 0);
    assert!(out.failed_message_ids.is_empty());
}

// Segment 2 lost: the two fetched segments are written in order and the
// loss is reported with its message id.
#[test]
fn test_assembly_single_loss() {
    let s1 = vec![1u8; 100];
    let s3 = vec![3u8; 80];
    let results = vec![
        SegmentResult { segment_number: 1, data: Some(s1.clone()), message_id: b"mid1@x".to_vec() },
        SegmentResult { segment_number: 2, data: None, message_id: b"mid2@x".to_vec() },
        SegmentResult { segment_number: 3, data: Some(s3.clone()), message_id: b"mid3@x".to_vec() },
    ];
    let out = assemble_segments(3, &results);
    let mut expected = s1;
    expected.extend(s3);
    assert_eq!(out.data.len(), 180);
    assert_eq!(out.data, expected);
    assert_eq!(out.segments_downloaded, 2);
    assert_eq!(out.segments_failed, 1);
    assert_eq!(out.failed_message_ids, vec![b"mid2@x".to_vec()]);
}

// Assembly arrives out of order and with a stray number; order is
// restored by slot, the stray is dropped without a crash.
#[test]
fn test_assembly_reorders_and_drops_stray() {
    let results = vec![
        SegmentResult { segment_number: 3, data: Some(vec![3u8; 4]), message_id: b"c".to_vec() },
        SegmentResult { segment_number: 9, data: Some(vec![9u8; 4]), message_id: b"x".to_vec() },
        SegmentResult { segment_number: 1, data: Some(vec![1u8; 4]), message_id: b"a".to_vec() },
    ];
    let out = assemble_segments(3, &results);
    let mut expected = vec![1u8; 4];
    expected.extend(vec![3u8; 4]);
    assert_eq!(out.data, expected);
    // The stray still counts as downloaded, as its bytes did arrive.
    assert_eq!(out.segments_downloaded, 3);
    assert_eq!(out.segments_failed, 0);
}

#[test]
fn test_attach_message_ids() {
    let file = three_segment_file();
    let raw = vec![(2u32, None), (1u32, Some(vec![7u8; 3]))];
    let results = attach_message_ids(raw, &file.segments);
    assert_eq!(results.len(), 2);
    assert_eq!(results[0].segment_number, 2);
    assert_eq!(results[0].message_id, b"mid2@x".to_vec());
    assert!(results[0].data.is_none());
    assert_eq!(results[1].message_id, b"mid1@x".to_vec());
}

// Resume: an existing 280-byte file short-circuits the whole download.
#[test]
fn test_plan_skips_complete_file() {
    let file = three_segment_file();
    let plan = plan_file_download(
        &file,
        b"show.mkv".to_vec(),
        b"downloads/show.mkv".to_vec(),
        Some(280),
        false,
        100,
    );
    match plan {
        FilePlan::SkipComplete(res) => {
            assert_eq!(res.size, 280);
            assert_eq!(res.segments_downloaded, 3);
            assert_eq!(res.segments_failed, 0);
            assert_eq!(res.download_time_ms, 0);
            assert!(res.failed_message_ids.is_empty());
        },
        FilePlan::Fetch(_) => panic!("expected a skip"),
    }
}

#[test]
fn test_plan_fetches_otherwise() {
    let file = three_segment_file();
    let plan = plan_file_download(
        &file,
        b"show.mkv".to_vec(),
        b"downloads/show.mkv".to_vec(),
        Some(280),
        true,
        2,
    );
    match plan {
        FilePlan::SkipComplete(_) => panic!("forced re-download must fetch"),
        FilePlan::Fetch(batches) => {
            assert_eq!(batches.len(), 2);
            assert_eq!(batches[0][0].segment_number, 1);
        },
    }
}

// Pool starvation: the batch reports one failure per request and the
// caller-side discipline backs off and eventually gives up.
#[test]
fn test_batch_failure_and_backoff() {
    let file = three_segment_file();
    let batch = segment_requests(&file);
    let failures = batch_failure_results(&batch);
    assert_eq!(failures.len(), 3);
    assert!(failures.iter().all(|(_, d)| d.is_none()));
    assert_eq!(failures[1].0, 2);

    assert_eq!(backoff_delay_ms(1), 500);
    assert_eq!(backoff_delay_ms(2), 1000);
    assert_eq!(backoff_delay_ms(3), 2000);
    assert_eq!(backoff_delay_ms(4), 4000);
    assert_eq!(backoff_delay_ms(5), 8000);
    assert_eq!(backoff_delay_ms(40), 8000);

    assert!(!should_emit_wait_notice(0));
    assert!(should_emit_wait_notice(5));
    assert!(!should_emit_wait_notice(7));
    assert!(should_emit_wait_notice(10));

    assert!(!should_give_up(299_999, 300_000));
    assert!(should_give_up(300_000, 300_000));
}

// Pool cap: with four connections, four checkouts succeed and the
// fifth caller must wait; a release lets it in again.
#[test]
fn test_pool_cap() {
    let mut pool = ConnectionPool::new(4);
    for _ in 0..4 {
        match pool.try_acquire() {
            AcquireOutcome::Opened => {},
            _ => panic!("expected a fresh connection"),
        }
    }
    assert!(matches!(pool.try_acquire(), AcquireOutcome::MustWait));
    assert_eq!(pool.in_flight, 4);
    pool.release();
    assert!(matches!(pool.try_acquire(), AcquireOutcome::Reused));
    assert_eq!(pool.in_flight, 4);
    pool.destroy();
    assert_eq!(pool.in_flight, 3);
    assert!(matches!(pool.try_acquire(), AcquireOutcome::Opened));
}

#[test]
fn test_cleanup_candidates() {
    let ok = DownloadResult {
        filename: b"a.rar".to_vec(),
        path: b"d/a.rar".to_vec(),
        size: 10,
        segments_downloaded: 1,
        segments_failed: 0,
        download_time_ms: 5,
        failed_message_ids: vec![],
    };
    let broken = DownloadResult {
        filename: b"b.rar".to_vec(),
        path: b"d/b.rar".to_vec(),
        size: 10,
        segments_downloaded: 0,
        segments_failed: 2,
        download_time_ms: 5,
        failed_message_ids: vec![b"m@x".to_vec()],
    };
    let paths = cleanup_candidates(&vec![ok, broken]);
    assert_eq!(paths, vec![b"d/b.rar".to_vec()]);
}
