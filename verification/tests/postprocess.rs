use dlnzb::deobfuscate::FileMeta;
use dlnzb::download::DownloadResult;
use dlnzb::errors::PostProcessingError;
use dlnzb::par2::{
    classify_par2_message, par2_failure_summary, select_main_par2, MessageLevel, Par2Counts,
    Par2MessageKind, Par2Operation, Par2Repairer, Par2Result, Par2Status,
};
use dlnzb::postprocess::{
    check_archive_integrity, collect_par2_files, PostProcessingConfig, PostProcessor,
};
use dlnzb::progress::{style_for_operation, ProgressStyle};
use dlnzb::rar::{
    archive_totals, is_rar_archive, join_path, rar_parts_to_delete, sanitize_entry_path,
    ArchiveEntry, ExtractEvent, ExtractMonitor, RarExtractor,
};

fn config(extract: bool) -> PostProcessingConfig {
    PostProcessingConfig {
        auto_par2_repair: true,
        auto_extract_rar: extract,
        deobfuscate_file_names: true,
        delete_par2_after_repair: false,
        delete_rar_after_extract: true,
    }
}

fn result(path: &[u8], failed: usize) -> DownloadResult {
    DownloadResult {
        filename: path.to_vec(),
        path: path.to_vec(),
        size: 100,
        segments_downloaded: 3,
        segments_failed: failed,
        download_time_ms: 1,
        failed_message_ids: vec![],
    }
}

// Extraction never runs when the recovery phase failed.
#[test]
fn test_extraction_gate() {
    let p = PostProcessor::new(config(true), 1 << 20);
    assert!(p.should_extract(Par2Status::NoPar2Files, 0));
    assert!(!p.should_extract(Par2Status::NoPar2Files, 1));
    assert!(p.should_extract(Par2Status::Success, 0));
    assert!(p.should_extract(Par2Status::Success, 3));
    assert!(!p.should_extract(Par2Status::Failed, 0));
    assert!(!p.should_extract(Par2Status::Failed, 5));
    let off = PostProcessor::new(config(false), 1 << 20);
    assert!(!off.should_extract(Par2Status::Success, 0));
}

#[test]
fn test_collect_par2_and_integrity() {
    let results = vec![
        result(b"d/file.rar", 0),
        result(b"d/file.par2", 0),
        result(b"d/file.vol00+01.PAR2", 1),
        result(b"d/broken.rar", 2),
    ];
    let par2 = collect_par2_files(&results);
    assert_eq!(
        par2,
        vec![b"d/file.par2".to_vec(), b"d/file.vol00+01.PAR2".to_vec()]
    );

    let rars = vec![b"file.rar".to_vec(), b"broken.rar".to_vec(), b"ghost.rar".to_vec()];
    let broken = check_archive_integrity(&rars, &results);
    assert_eq!(broken, vec![b"broken.rar".to_vec()]);
}

#[test]
fn test_par2_operation_and_style() {
    assert_eq!(Par2Operation::from_u8(0), Par2Operation::Scanning);
    assert_eq!(Par2Operation::from_u8(2), Par2Operation::Verifying);
    assert_eq!(Par2Operation::from_u8(9), Par2Operation::Scanning);
    assert_eq!(style_for_operation(Par2Operation::Loading), ProgressStyle::Par2);
    assert_eq!(
        style_for_operation(Par2Operation::Repairing),
        ProgressStyle::Par2Repair
    );
}

#[test]
fn test_convert_result() {
    let repairer = Par2Repairer::new(b"d/file.par2");
    assert_eq!(repairer.par2_file, b"d/file.par2".to_vec());
    assert!(repairer.convert_result(Par2Result::Success, true).is_ok());
    assert!(repairer.convert_result(Par2Result::RepairPossible, false).is_ok());
    match repairer.convert_result(Par2Result::RepairPossible, true) {
        Err(PostProcessingError::Par2Failed(m)) => {
            assert_eq!(m, b"PAR2 repair possible but not completed".to_vec())
        },
        _ => panic!("expected a failure"),
    }
    match repairer.convert_result(Par2Result::RepairNotPossible, true) {
        Err(PostProcessingError::Par2Failed(m)) => {
            assert_eq!(m, b"PAR2 repair not possible: insufficient recovery data".to_vec())
        },
        _ => panic!("expected a failure"),
    }
    assert!(repairer.convert_result(Par2Result::MemoryError, false).is_err());
    assert_eq!(Par2Result::from_code(5), Par2Result::RepairFailed);
}

#[test]
fn test_message_classification() {
    assert_eq!(
        classify_par2_message(MessageLevel::Warning, b"file.bin is damaged"),
        Some(Par2MessageKind::Damaged)
    );
    assert_eq!(
        classify_par2_message(MessageLevel::Error, b"Missing: file.bin"),
        Some(Par2MessageKind::Missing)
    );
    assert_eq!(
        classify_par2_message(MessageLevel::Info, b"found obfuscated file"),
        Some(Par2MessageKind::Deobfuscated)
    );
    assert_eq!(
        classify_par2_message(MessageLevel::Info, b"Repairing block 5"),
        Some(Par2MessageKind::Repaired)
    );
    assert_eq!(classify_par2_message(MessageLevel::Info, b"scanning"), None);
    assert_eq!(classify_par2_message(MessageLevel::Warning, b"odd"), None);

    let mut counts = Par2Counts::new();
    counts.record(Par2MessageKind::Damaged);
    counts.record(Par2MessageKind::Damaged);
    counts.record(Par2MessageKind::Repaired);
    assert_eq!(counts.damaged, 2);
    assert_eq!(counts.repaired, 1);
    assert_eq!(counts.missing, 0);
}

#[test]
fn test_select_main_par2() {
    let files = vec![
        FileMeta { name: b"x.vol00+01.par2".to_vec(), size: 500 },
        FileMeta { name: b"x.par2".to_vec(), size: 40 },
    ];
    assert_eq!(select_main_par2(&files), Some(1));

    let only_vols = vec![
        FileMeta { name: b"x.vol03+04.par2".to_vec(), size: 900 },
        FileMeta { name: b"x.vol00+01.par2".to_vec(), size: 500 },
    ];
    assert_eq!(select_main_par2(&only_vols), Some(1));
    assert_eq!(select_main_par2(&Vec::new()), None);
}

#[test]
fn test_failure_summary() {
    assert_eq!(
        par2_failure_summary(b"Need 12 more recovery blocks"),
        b"Not enough recovery data to repair".to_vec()
    );
    assert_eq!(par2_failure_summary(b"some other error"), b"some other error".to_vec());
}

// Path-traversal safety: parent references, absolute roots and empty
// pieces never survive sanitization.
#[test]
fn test_entry_path_sanitization() {
    let parts = sanitize_entry_path(b"../../etc/passwd");
    assert_eq!(parts, vec![b"etc".to_vec(), b"passwd".to_vec()]);
    assert_eq!(join_path(&parts), b"etc/passwd".to_vec());

    let abs = sanitize_entry_path(b"/usr/./bin//tool");
    assert_eq!(
        abs,
        vec![b"usr".to_vec(), b"bin".to_vec(), b"tool".to_vec()]
    );
    assert_eq!(join_path(&abs), b"usr/bin/tool".to_vec());

    let gone = sanitize_entry_path(b"../..");
    assert!(gone.is_empty());
    assert_eq!(join_path(&gone), b"".to_vec());
}

#[test]
fn test_archive_listing_totals() {
    let entries = vec![
        ArchiveEntry { is_directory: true, unpacked_size: 999 },
        ArchiveEntry { is_directory: false, unpacked_size: 100 },
        ArchiveEntry { is_directory: false, unpacked_size: 50 },
    ];
    assert_eq!(archive_totals(&entries), (2, 150));
}

#[test]
fn test_extract_monitor_events() {
    let extractor = RarExtractor::new(config(true), 1000);
    assert!(extractor.should_monitor(1001));
    assert!(!extractor.should_monitor(1000));

    let mut mon = ExtractMonitor::new();
    assert_eq!(
        mon.on_event(ExtractEvent::StartFile { name: b"a.bin".to_vec(), index: 1, total: 2 }),
        None
    );
    assert_eq!(
        mon.on_event(ExtractEvent::MonitorFile { path: b"out/a.bin".to_vec(), base_bytes: 10 }),
        None
    );
    assert_eq!(mon.sampled_position(7), 17);
    assert_eq!(mon.on_event(ExtractEvent::FileComplete { bytes: 60 }), Some(60));
    assert_eq!(mon.on_event(ExtractEvent::Done { success: true }), None);
    assert!(mon.finished);
    assert!(mon.result);
}

#[test]
fn test_rar_entry_points_and_deletion() {
    assert!(is_rar_archive(b"d/archive.rar"));
    assert!(!is_rar_archive(b"d/archive.part02.rar"));

    let names = vec![
        b"archive.rar".to_vec(),
        b"archive.r00".to_vec(),
        b"archive.r01".to_vec(),
        b"archive.nfo".to_vec(),
        b"other.rar".to_vec(),
    ];
    let doomed = rar_parts_to_delete(b"archive", &names);
    assert_eq!(
        doomed,
        vec![b"archive.rar".to_vec(), b"archive.r00".to_vec(), b"archive.r01".to_vec()]
    );
}
