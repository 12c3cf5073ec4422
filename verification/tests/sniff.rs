use dlnzb::sniff::{has_popular_extension, what_is_most_likely_extension};

#[test]
fn test_popular_extensions() {
    assert!(has_popular_extension(b"video.mkv"));
    assert!(has_popular_extension(b"archive.zip"));
    assert!(has_popular_extension(b"archive.rar"));
    assert!(has_popular_extension(b"document.pdf"));
    assert!(!has_popular_extension(b"random.xyz"));
    assert!(!has_popular_extension(b"noext"));
}

#[test]
fn test_mkv_detection() {
    // Matroska/MKV EBML header: 0x1A 0x45 0xDF 0xA3
    let mut data = vec![0x1Au8, 0x45, 0xDF, 0xA3];
    data.extend(std::iter::repeat(0u8).take(100));

    let detected = what_is_most_likely_extension(&data);
    assert_eq!(detected, Some(b".mkv".to_vec()));
}

#[test]
fn test_rar4_detection() {
    // RAR 4.x: Rar!\x1A\x07\x00
    let mut data = b"Rar!\x1A\x07\x00".to_vec();
    data.extend(std::iter::repeat(0u8).take(100));

    let detected = what_is_most_likely_extension(&data);
    assert_eq!(detected, Some(b".rar".to_vec()));
}

#[test]
fn test_rar5_detection() {
    // RAR 5.x: Rar!\x1A\x07\x01\x00
    let mut data = b"Rar!\x1A\x07\x01\x00".to_vec();
    data.extend(std::iter::repeat(0u8).take(100));

    let detected = what_is_most_likely_extension(&data);
    assert_eq!(detected, Some(b".rar".to_vec()));
}

// A RIFF head with the WEBP subtype names a WebP image.
#[test]
fn test_riff_webp_disambiguation() {
    let mut data = b"RIFF".to_vec();
    data.extend_from_slice(&[0x10, 0x20, 0x30, 0x40]);
    data.extend_from_slice(b"WEBP");
    data.extend(std::iter::repeat(0u8).take(32));
    assert_eq!(what_is_most_likely_extension(&data), Some(b".webp".to_vec()));
}

#[test]
fn test_riff_wave_and_avi() {
    let mut wav = b"RIFF\x01\x02\x03\x04WAVE".to_vec();
    wav.extend(std::iter::repeat(0u8).take(16));
    assert_eq!(what_is_most_likely_extension(&wav), Some(b".wav".to_vec()));

    let mut avi = b"RIFF\x01\x02\x03\x04AVI ".to_vec();
    avi.extend(std::iter::repeat(0u8).take(16));
    assert_eq!(what_is_most_likely_extension(&avi), Some(b".avi".to_vec()));
}

#[test]
fn test_zip_office_disambiguation() {
    let mut docx = b"PK\x03\x04".to_vec();
    docx.extend(std::iter::repeat(0u8).take(30));
    docx.extend_from_slice(b"word/document.xml");
    assert_eq!(what_is_most_likely_extension(&docx), Some(b".docx".to_vec()));

    let mut zip = b"PK\x03\x04".to_vec();
    zip.extend(std::iter::repeat(0u8).take(40));
    assert_eq!(what_is_most_likely_extension(&zip), Some(b".zip".to_vec()));
}

#[test]
fn test_ftyp_brands() {
    let mut m4a = b"\x00\x00\x00\x20ftypM4A ".to_vec();
    m4a.extend(std::iter::repeat(0u8).take(16));
    assert_eq!(what_is_most_likely_extension(&m4a), Some(b".m4a".to_vec()));

    let mut mp4 = b"\x00\x00\x00\x20ftypisom".to_vec();
    mp4.extend(std::iter::repeat(0u8).take(16));
    assert_eq!(what_is_most_likely_extension(&mp4), Some(b".mp4".to_vec()));
}

#[test]
fn test_unknown_and_empty() {
    assert_eq!(what_is_most_likely_extension(b""), None);
    assert_eq!(what_is_most_likely_extension(b"plain text content here"), None);
}
