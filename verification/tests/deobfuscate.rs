use dlnzb::deobfuscate::{
    apply_extension, get_basename, get_biggest_file, get_ext, get_unique_filename,
    is_probably_obfuscated, plan_principal_rename, plan_related_renames, sanitize_name, FileMeta,
};

#[test]
fn test_is_obfuscated() {
    assert!(is_probably_obfuscated(b"f7f8f9abc123.mkv"));
    assert!(is_probably_obfuscated(b"a1b2c3d4e5f6.iso"));
    assert!(is_probably_obfuscated(b"xkcd.tmp"));
    assert!(!is_probably_obfuscated(b"Great_Movie_2023.mkv"));
    assert!(!is_probably_obfuscated(b"My.Document.pdf"));
}

#[test]
fn test_sanitize_name() {
    assert_eq!(sanitize_name(b"File/Name:Test"), b"File_Name_Test".to_vec());
    assert_eq!(sanitize_name(b"Normal_File-123"), b"Normal_File-123".to_vec());
}

#[test]
fn test_sanitize_name_controls_and_wildcards() {
    assert_eq!(sanitize_name(b"a*b?c\"d<e>f|g"), b"a_b_c_d_e_f_g".to_vec());
    assert_eq!(sanitize_name(b"tab\tand\nnewline"), b"tab_and_newline".to_vec());
    assert_eq!(sanitize_name(b"back\\slash"), b"back_slash".to_vec());
}

#[test]
fn test_name_parts() {
    assert_eq!(get_ext(b"movie.mkv"), b".mkv".to_vec());
    assert_eq!(get_ext(b"noext"), b"".to_vec());
    assert_eq!(get_basename(b"dir/movie.tar.gz"), b"dir/movie.tar".to_vec());
    assert_eq!(get_basename(b"noext"), b"noext".to_vec());
    assert_eq!(apply_extension(b"blob", b".mkv"), b"blob.mkv".to_vec());
    assert_eq!(apply_extension(b"blob.bin", b".mkv"), b"blob.mkv".to_vec());
}

#[test]
fn test_biggest_file() {
    let files = vec![
        FileMeta { name: b"a".to_vec(), size: 10 },
        FileMeta { name: b"b".to_vec(), size: 30 },
        FileMeta { name: b"c".to_vec(), size: 20 },
    ];
    assert_eq!(get_biggest_file(&files), Some((1, 30)));
    let none: Vec<FileMeta> = Vec::new();
    assert_eq!(get_biggest_file(&none), None);
}

#[test]
fn test_unique_filename() {
    let existing = vec![b"report.pdf".to_vec(), b"report_1.pdf".to_vec()];
    assert_eq!(
        get_unique_filename(b"fresh.pdf", &existing),
        b"fresh.pdf".to_vec()
    );
    assert_eq!(
        get_unique_filename(b"report.pdf", &existing),
        b"report_2.pdf".to_vec()
    );
}

// The size-ratio threshold: a runner-up at 70% blocks the rename, one
// at 60% allows it.
#[test]
fn test_rename_threshold() {
    let blocked = vec![
        FileMeta { name: b"f7f8f9abc123.mkv".to_vec(), size: 100 },
        FileMeta { name: b"sample.bin".to_vec(), size: 70 },
    ];
    assert!(plan_principal_rename(&blocked, b"Great Show", false).is_none());

    let allowed = vec![
        FileMeta { name: b"f7f8f9abc123.mkv".to_vec(), size: 100 },
        FileMeta { name: b"sample.bin".to_vec(), size: 60 },
    ];
    let plan = plan_principal_rename(&allowed, b"Great Show", false).unwrap();
    assert_eq!(plan.index, 0);
    assert_eq!(plan.new_name, b"Great Show.mkv".to_vec());
}

#[test]
fn test_rename_skips_ignored_folders_and_excluded_exts() {
    let files = vec![
        FileMeta { name: b"f7f8f9abc123.mkv".to_vec(), size: 100 },
        FileMeta { name: b"other.bin".to_vec(), size: 10 },
    ];
    assert!(plan_principal_rename(&files, b"Hint", true).is_none());

    let excluded = vec![
        FileMeta { name: b"a9f8e7d6c5b4.nfo".to_vec(), size: 100 },
        FileMeta { name: b"other.bin".to_vec(), size: 10 },
    ];
    assert!(plan_principal_rename(&excluded, b"Hint", false).is_none());

    let readable = vec![
        FileMeta { name: b"Great_Movie_2023.mkv".to_vec(), size: 100 },
        FileMeta { name: b"other.bin".to_vec(), size: 10 },
    ];
    assert!(plan_principal_rename(&readable, b"Hint", false).is_none());
}

#[test]
fn test_rename_sanitizes_hint() {
    let files = vec![FileMeta { name: b"f7f8f9abc123.mkv".to_vec(), size: 100 }];
    let plan = plan_principal_rename(&files, b"Show: Part?1", false).unwrap();
    assert_eq!(plan.new_name, b"Show_ Part_1.mkv".to_vec());
}

#[test]
fn test_related_renames() {
    let files = vec![
        FileMeta { name: b"f7f8f9abc123.mkv".to_vec(), size: 100 },
        FileMeta { name: b"f7f8f9abc123.srt".to_vec(), size: 1 },
        FileMeta { name: b"unrelated.nfo".to_vec(), size: 1 },
    ];
    let plans = plan_related_renames(&files, 0, b"Great Show");
    assert_eq!(plans.len(), 1);
    assert_eq!(plans[0].index, 1);
    assert_eq!(plans[0].new_name, b"Great Show.srt".to_vec());
}
