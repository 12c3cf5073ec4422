use dlnzb::patterns::{
    extract_base_name, has_extension, is_extractable_archive, is_main_par2, is_par2_file,
    is_rar_related, is_same_archive,
};

#[test]
fn test_is_extractable_archive() {
    // Single archives should be extractable
    assert!(is_extractable_archive(b"archive.rar"));
    assert!(is_extractable_archive(b"Archive.RAR"));

    // First parts should be extractable
    assert!(is_extractable_archive(b"archive.part01.rar"));
    assert!(is_extractable_archive(b"archive.part001.rar"));
    assert!(is_extractable_archive(b"archive.Part01.Rar"));

    // Later parts should NOT be extractable
    assert!(!is_extractable_archive(b"archive.part02.rar"));
    assert!(!is_extractable_archive(b"archive.part003.rar"));
    assert!(!is_extractable_archive(b"archive.part10.rar"));

    // Non-RAR files should NOT be extractable
    assert!(!is_extractable_archive(b"archive.zip"));
    assert!(!is_extractable_archive(b"archive.r00"));
}

#[test]
fn test_extract_base_name() {
    assert_eq!(extract_base_name(b"archive.rar"), Some(b"archive".to_vec()));
    assert_eq!(
        extract_base_name(b"archive.part01.rar"),
        Some(b"archive".to_vec())
    );
    assert_eq!(
        extract_base_name(b"archive.part001.rar"),
        Some(b"archive".to_vec())
    );
    assert_eq!(
        extract_base_name(b"my.file.name.part05.rar"),
        Some(b"my.file.name".to_vec())
    );
}

#[test]
fn test_is_same_archive() {
    assert!(is_same_archive(b"archive", b"archive.part02.rar"));
    assert!(is_same_archive(b"archive", b"archive.r00"));
    assert!(is_same_archive(b"archive", b"archive.r15"));
    assert!(!is_same_archive(b"archive", b"other.rar"));
}

#[test]
fn test_extract_base_name_non_rar() {
    assert_eq!(extract_base_name(b"archive.zip"), None);
    assert_eq!(extract_base_name(b"archive.r00"), None);
}

#[test]
fn test_rar_related_names() {
    assert!(is_rar_related(b"archive.rar"));
    assert!(is_rar_related(b"ARCHIVE.RAR"));
    assert!(is_rar_related(b"archive.r00"));
    assert!(is_rar_related(b"archive.R17"));
    assert!(!is_rar_related(b"archive.zip"));
    assert!(!is_rar_related(b"archive.r1"));
}

#[test]
fn test_par2_detection() {
    assert!(is_par2_file(b"files.par2"));
    assert!(is_par2_file(b"files.PAR2"));
    assert!(!is_par2_file(b"files.par3"));
    assert!(!is_par2_file(b"par2"));

    assert!(is_main_par2(b"files.par2"));
    assert!(!is_main_par2(b"files.vol01+02.par2"));
    assert!(!is_main_par2(b"files.VOL01.PAR2"));
    assert!(!is_main_par2(b"files.rar"));
}

#[test]
fn test_has_extension_cases() {
    assert!(has_extension(b"movie.MKV", b"mkv"));
    assert!(has_extension(b"dir/movie.mkv", b"MKV"));
    assert!(!has_extension(b"movie.mkv", b"mp4"));
    assert!(!has_extension(b"noext", b"mkv"));
    assert!(!has_extension(b".hidden", b"hidden"));
}
