//! File-type sniffing.
//!
//! `what_is_most_likely_extension` reads a leading chunk of a file (up
//! to 64 KiB, read by the caller) and names the extension its magic
//! bytes suggest, trying the signatures in a fixed order and settling
//! container ambiguities: RIFF by its subtype, ZIP by the office
//! markers in its first 512 bytes, `ftyp` by its brand.
//! `has_popular_extension` says whether a name already carries one of
//! the well-known extensions, so the sniffer need not run at all.

use vstd::prelude::*;

use crate::patterns::spec_extension;
use crate::text::{contains_bytes, eq_bytes, lit_vec, spec_contains, spec_lower_seq, sub_vec, to_lower};
use vstd::string::StringSliceAdditionalSpecFns;

verus! {

/// The closed list of extensions counted as meaningful.
pub open spec fn spec_is_popular_ext(e: Seq<u8>) -> bool {
    ||| e == "zip".spec_bytes()
    ||| e == "rar".spec_bytes()
    ||| e == "7z".spec_bytes()
    ||| e == "tar".spec_bytes()
    ||| e == "gz".spec_bytes()
    ||| e == "bz2".spec_bytes()
    ||| e == "xz".spec_bytes()
    ||| e == "iso".spec_bytes()
    ||| e == "dmg".spec_bytes()
    ||| e == "mp4".spec_bytes()
    ||| e == "mkv".spec_bytes()
    ||| e == "avi".spec_bytes()
    ||| e == "mov".spec_bytes()
    ||| e == "wmv".spec_bytes()
    ||| e == "flv".spec_bytes()
    ||| e == "webm".spec_bytes()
    ||| e == "m4v".spec_bytes()
    ||| e == "mpg".spec_bytes()
    ||| e == "mpeg".spec_bytes()
    ||| e == "m2ts".spec_bytes()
    ||| e == "ts".spec_bytes()
    ||| e == "mp3".spec_bytes()
    ||| e == "flac".spec_bytes()
    ||| e == "wav".spec_bytes()
    ||| e == "aac".spec_bytes()
    ||| e == "ogg".spec_bytes()
    ||| e == "wma".spec_bytes()
    ||| e == "m4a".spec_bytes()
    ||| e == "opus".spec_bytes()
    ||| e == "jpg".spec_bytes()
    ||| e == "jpeg".spec_bytes()
    ||| e == "png".spec_bytes()
    ||| e == "gif".spec_bytes()
    ||| e == "bmp".spec_bytes()
    ||| e == "webp".spec_bytes()
    ||| e == "svg".spec_bytes()
    ||| e == "tiff".spec_bytes()
    ||| e == "ico".spec_bytes()
    ||| e == "pdf".spec_bytes()
    ||| e == "doc".spec_bytes()
    ||| e == "docx".spec_bytes()
    ||| e == "xls".spec_bytes()
    ||| e == "xlsx".spec_bytes()
    ||| e == "ppt".spec_bytes()
    ||| e == "pptx".spec_bytes()
    ||| e == "txt".spec_bytes()
    ||| e == "rtf".spec_bytes()
    ||| e == "odt".spec_bytes()
    ||| e == "ods".spec_bytes()
    ||| e == "odp".spec_bytes()
    ||| e == "epub".spec_bytes()
    ||| e == "mobi".spec_bytes()
    ||| e == "azw".spec_bytes()
    ||| e == "azw3".spec_bytes()
    ||| e == "fb2".spec_bytes()
    ||| e == "cbr".spec_bytes()
    ||| e == "cbz".spec_bytes()
    ||| e == "srt".spec_bytes()
    ||| e == "sub".spec_bytes()
    ||| e == "idx".spec_bytes()
    ||| e == "ass".spec_bytes()
    ||| e == "ssa".spec_bytes()
    ||| e == "vtt".spec_bytes()
    ||| e == "exe".spec_bytes()
    ||| e == "dll".spec_bytes()
    ||| e == "app".spec_bytes()
    ||| e == "apk".spec_bytes()
    ||| e == "deb".spec_bytes()
    ||| e == "rpm".spec_bytes()
    ||| e == "nfo".spec_bytes()
    ||| e == "sfv".spec_bytes()
    ||| e == "nzb".spec_bytes()
    ||| e == "torrent".spec_bytes()
}

fn is_popular_lower(e: &[u8]) -> (r: bool)
    ensures
        r == spec_is_popular_ext(e@),
{
    eq_bytes(e, "zip".as_bytes()) || eq_bytes(e, "rar".as_bytes()) || eq_bytes(e, "7z".as_bytes())
        || eq_bytes(e, "tar".as_bytes()) || eq_bytes(e, "gz".as_bytes()) || eq_bytes(
        e,
        "bz2".as_bytes(),
    ) || eq_bytes(e, "xz".as_bytes()) || eq_bytes(e, "iso".as_bytes()) || eq_bytes(
        e,
        "dmg".as_bytes(),
    ) || eq_bytes(e, "mp4".as_bytes()) || eq_bytes(e, "mkv".as_bytes()) || eq_bytes(
        e,
        "avi".as_bytes(),
    ) || eq_bytes(e, "mov".as_bytes()) || eq_bytes(e, "wmv".as_bytes()) || eq_bytes(
        e,
        "flv".as_bytes(),
    ) || eq_bytes(e, "webm".as_bytes()) || eq_bytes(e, "m4v".as_bytes()) || eq_bytes(
        e,
        "mpg".as_bytes(),
    ) || eq_bytes(e, "mpeg".as_bytes()) || eq_bytes(e, "m2ts".as_bytes()) || eq_bytes(
        e,
        "ts".as_bytes(),
    ) || eq_bytes(e, "mp3".as_bytes()) || eq_bytes(e, "flac".as_bytes()) || eq_bytes(
        e,
        "wav".as_bytes(),
    ) || eq_bytes(e, "aac".as_bytes()) || eq_bytes(e, "ogg".as_bytes()) || eq_bytes(
        e,
        "wma".as_bytes(),
    ) || eq_bytes(e, "m4a".as_bytes()) || eq_bytes(e, "opus".as_bytes()) || eq_bytes(
        e,
        "jpg".as_bytes(),
    ) || eq_bytes(e, "jpeg".as_bytes()) || eq_bytes(e, "png".as_bytes()) || eq_bytes(
        e,
        "gif".as_bytes(),
    ) || eq_bytes(e, "bmp".as_bytes()) || eq_bytes(e, "webp".as_bytes()) || eq_bytes(
        e,
        "svg".as_bytes(),
    ) || eq_bytes(e, "tiff".as_bytes()) || eq_bytes(e, "ico".as_bytes()) || eq_bytes(
        e,
        "pdf".as_bytes(),
    ) || eq_bytes(e, "doc".as_bytes()) || eq_bytes(e, "docx".as_bytes()) || eq_bytes(
        e,
        "xls".as_bytes(),
    ) || eq_bytes(e, "xlsx".as_bytes()) || eq_bytes(e, "ppt".as_bytes()) || eq_bytes(
        e,
        "pptx".as_bytes(),
    ) || eq_bytes(e, "txt".as_bytes()) || eq_bytes(e, "rtf".as_bytes()) || eq_bytes(
        e,
        "odt".as_bytes(),
    ) || eq_bytes(e, "ods".as_bytes()) || eq_bytes(e, "odp".as_bytes()) || eq_bytes(
        e,
        "epub".as_bytes(),
    ) || eq_bytes(e, "mobi".as_bytes()) || eq_bytes(e, "azw".as_bytes()) || eq_bytes(
        e,
        "azw3".as_bytes(),
    ) || eq_bytes(e, "fb2".as_bytes()) || eq_bytes(e, "cbr".as_bytes()) || eq_bytes(
        e,
        "cbz".as_bytes(),
    ) || eq_bytes(e, "srt".as_bytes()) || eq_bytes(e, "sub".as_bytes()) || eq_bytes(
        e,
        "idx".as_bytes(),
    ) || eq_bytes(e, "ass".as_bytes()) || eq_bytes(e, "ssa".as_bytes()) || eq_bytes(
        e,
        "vtt".as_bytes(),
    ) || eq_bytes(e, "exe".as_bytes()) || eq_bytes(e, "dll".as_bytes()) || eq_bytes(
        e,
        "app".as_bytes(),
    ) || eq_bytes(e, "apk".as_bytes()) || eq_bytes(e, "deb".as_bytes()) || eq_bytes(
        e,
        "rpm".as_bytes(),
    ) || eq_bytes(e, "nfo".as_bytes()) || eq_bytes(e, "sfv".as_bytes()) || eq_bytes(
        e,
        "nzb".as_bytes(),
    ) || eq_bytes(e, "torrent".as_bytes())
}

/// Does the path already carry a well-known extension
/// (case-insensitively)?
pub fn has_popular_extension(path: &[u8]) -> (r: bool)
    ensures
        r == match spec_extension(path@) {
            Some(e) => spec_is_popular_ext(spec_lower_seq(e)),
            None => false,
        },
{
    match crate::patterns::extension(path) {
        Some(e) => {
            let l = to_lower(e.as_slice());
            is_popular_lower(l.as_slice())
        },
        None => false,
    }
}

/// DVD and Bluray folder names whose presence turns renaming off.
pub open spec fn spec_is_ignored_movie_folder(name: Seq<u8>) -> bool {
    ||| name == "VIDEO_TS".spec_bytes()
    ||| name == "AUDIO_TS".spec_bytes()
    ||| name == "BDMV".spec_bytes()
    ||| name == "CERTIFICATE".spec_bytes()
}

/// Is this directory name one of the DVD/Bluray structures?
pub fn is_ignored_movie_folder(name: &[u8]) -> (r: bool)
    ensures
        r == spec_is_ignored_movie_folder(name@),
{
    eq_bytes(name, "VIDEO_TS".as_bytes()) || eq_bytes(name, "AUDIO_TS".as_bytes()) || eq_bytes(
        name,
        "BDMV".as_bytes(),
    ) || eq_bytes(name, "CERTIFICATE".as_bytes())
}

// --- magic bytes ---------------------------------------------------------

/// The RIFF subtype field, bytes 8 to 12.
pub open spec fn spec_riff_sub(b: Seq<u8>, s: &str) -> bool {
    b.len() >= 12 && b.subrange(8, 12) == s.spec_bytes()
}

/// The `ftyp` brand field, bytes 8 to 12.
pub open spec fn spec_ftyp_brand(b: Seq<u8>, s: &str) -> bool {
    b.len() >= 12 && b.subrange(8, 12) == s.spec_bytes()
}

/// Office formats are ZIP containers: the first 512 bytes name the
/// format.
pub open spec fn spec_zip_refine(b: Seq<u8>) -> Seq<u8> {
    let head = b.take(if b.len() < 512 {
        b.len() as int
    } else {
        512
    });
    if spec_contains(head, "word/".spec_bytes()) {
        ".docx".spec_bytes()
    } else if spec_contains(head, "xl/".spec_bytes()) {
        ".xlsx".spec_bytes()
    } else if spec_contains(head, "ppt/".spec_bytes()) {
        ".pptx".spec_bytes()
    } else if spec_contains(head, "epub".spec_bytes()) {
        ".epub".spec_bytes()
    } else {
        ".zip".spec_bytes()
    }
}

/// `needle` at `off`, all bytes given, within `b`.
pub open spec fn spec_magic_at(b: Seq<u8>, off: int, needle: Seq<u8>) -> bool {
    off + needle.len() <= b.len() && b.subrange(off, off + needle.len()) == needle
}

/// The signature table, tried top to bottom; `None` when nothing
/// matches or the chunk is empty.
pub open spec fn spec_sniff(b: Seq<u8>) -> Option<Seq<u8>> {
    if b.len() == 0 {
        None
    } else if spec_magic_at(b, 0, seq![0xffu8, 0xd8u8, 0xffu8]) {
        Some(".jpg".spec_bytes())
    } else if spec_magic_at(b, 0, seq![0x89u8, 0x50u8, 0x4eu8, 0x47u8, 0x0du8, 0x0au8, 0x1au8, 0x0au8]) {
        Some(".png".spec_bytes())
    } else if spec_magic_at(b, 0, "GIF87a".spec_bytes()) {
        Some(".gif".spec_bytes())
    } else if spec_magic_at(b, 0, "GIF89a".spec_bytes()) {
        Some(".gif".spec_bytes())
    } else if spec_magic_at(b, 0, "BM".spec_bytes()) {
        Some(".bmp".spec_bytes())
    } else if spec_magic_at(b, 0, "RIFF".spec_bytes()) && b.len() < 12 {
        Some(".webp".spec_bytes())
    } else if spec_magic_at(b, 0, "RIFF".spec_bytes()) && spec_riff_sub(b, "WAVE") {
        Some(".wav".spec_bytes())
    } else if spec_magic_at(b, 0, "RIFF".spec_bytes()) && spec_riff_sub(b, "AVI ") {
        Some(".avi".spec_bytes())
    } else if spec_magic_at(b, 0, "RIFF".spec_bytes()) && spec_riff_sub(b, "WEBP") {
        Some(".webp".spec_bytes())
    } else if spec_magic_at(b, 0, seq![0x50u8, 0x4bu8, 0x03u8, 0x04u8]) && b.len() >= 30 {
        Some(spec_zip_refine(b))
    } else if spec_magic_at(b, 0, seq![0x50u8, 0x4bu8, 0x03u8, 0x04u8]) {
        Some(".zip".spec_bytes())
    } else if spec_magic_at(b, 0, seq![0x50u8, 0x4bu8, 0x05u8, 0x06u8]) {
        Some(".zip".spec_bytes())
    } else if spec_magic_at(b, 0, "Rar!".spec_bytes() + seq![0x1au8, 0x07u8, 0x00u8]) {
        Some(".rar".spec_bytes())
    } else if spec_magic_at(b, 0, "Rar!".spec_bytes() + seq![0x1au8, 0x07u8, 0x01u8, 0x00u8]) {
        Some(".rar".spec_bytes())
    } else if spec_magic_at(b, 0, "7z".spec_bytes() + seq![0xbcu8, 0xafu8, 0x27u8, 0x1cu8]) {
        Some(".7z".spec_bytes())
    } else if spec_magic_at(b, 0, seq![0x1fu8, 0x8bu8, 0x08u8]) {
        Some(".gz".spec_bytes())
    } else if spec_magic_at(b, 0, "BZh".spec_bytes()) {
        Some(".bz2".spec_bytes())
    } else if spec_magic_at(b, 4, "ftyp".spec_bytes()) && spec_ftyp_brand(b, "M4A ") {
        Some(".m4a".spec_bytes())
    } else if spec_magic_at(b, 4, "ftyp".spec_bytes()) && spec_ftyp_brand(b, "M4V ") {
        Some(".m4v".spec_bytes())
    } else if spec_magic_at(b, 4, "ftyp".spec_bytes()) && spec_ftyp_brand(b, "qt  ") {
        Some(".mov".spec_bytes())
    } else if spec_magic_at(b, 4, "ftyp".spec_bytes()) {
        Some(".mp4".spec_bytes())
    } else if spec_magic_at(b, 0, seq![0x1au8, 0x45u8, 0xdfu8, 0xa3u8]) {
        Some(".mkv".spec_bytes())
    } else if spec_magic_at(b, 0, seq![0x00u8, 0x00u8, 0x01u8, 0xbau8]) {
        Some(".mpg".spec_bytes())
    } else if spec_magic_at(b, 0, seq![0x00u8, 0x00u8, 0x01u8, 0xb3u8]) {
        Some(".mpg".spec_bytes())
    } else if spec_magic_at(b, 0, "ID3".spec_bytes()) {
        Some(".mp3".spec_bytes())
    } else if spec_magic_at(b, 0, seq![0xffu8, 0xfbu8]) {
        Some(".mp3".spec_bytes())
    } else if spec_magic_at(b, 0, "fLaC".spec_bytes()) {
        Some(".flac".spec_bytes())
    } else if spec_magic_at(b, 0, "OggS".spec_bytes()) {
        Some(".ogg".spec_bytes())
    } else if spec_magic_at(b, 0, "%PDF".spec_bytes()) {
        Some(".pdf".spec_bytes())
    } else if spec_magic_at(
        b,
        0,
        seq![0xd0u8, 0xcfu8, 0x11u8, 0xe0u8, 0xa1u8, 0xb1u8, 0x1au8, 0xe1u8],
    ) {
        Some(".doc".spec_bytes())
    } else if spec_magic_at(b, 0x8001, "CD001".spec_bytes()) {
        Some(".iso".spec_bytes())
    } else if spec_magic_at(b, 0x8801, "CD001".spec_bytes()) {
        Some(".iso".spec_bytes())
    } else if spec_magic_at(b, 0x9001, "CD001".spec_bytes()) {
        Some(".iso".spec_bytes())
    } else {
        None
    }
}

fn magic_at(b: &[u8], off: usize, needle: &[u8]) -> (r: bool)
    ensures
        r == spec_magic_at(b@, off as int, needle@),
{
    if b.len() < needle.len() || off > b.len() - needle.len() {
        return false;
    }
    crate::text::match_at(b, needle, off)
}

fn zip_refine(b: &[u8]) -> (r: Vec<u8>)
    ensures
        r@ == spec_zip_refine(b@),
{
    let cut: usize = if b.len() < 512 {
        b.len()
    } else {
        512
    };
    let head = sub_vec(b, 0, cut);
    proof {
        assert(head@ =~= b@.take(cut as int));
    }
    if contains_bytes(head.as_slice(), "word/".as_bytes()) {
        lit_vec(".docx")
    } else if contains_bytes(head.as_slice(), "xl/".as_bytes()) {
        lit_vec(".xlsx")
    } else if contains_bytes(head.as_slice(), "ppt/".as_bytes()) {
        lit_vec(".pptx")
    } else if contains_bytes(head.as_slice(), "epub".as_bytes()) {
        lit_vec(".epub")
    } else {
        lit_vec(".zip")
    }
}

/// Name the extension the leading bytes of a file suggest, if any.
pub fn what_is_most_likely_extension(b: &[u8]) -> (r: Option<Vec<u8>>)
    ensures
        match r {
            Some(e) => spec_sniff(b@) == Some(e@),
            None => spec_sniff(b@) is None,
        },
{
    if b.len() == 0 {
        return None;
    }
    let jpg = {
        let mut v: Vec<u8> = Vec::new();
        v.push(0xff);
        v.push(0xd8);
        v.push(0xff);
        v
    };
    proof {
        assert(jpg@ =~= seq![0xffu8, 0xd8u8, 0xffu8]);
    }
    if magic_at(b, 0, jpg.as_slice()) {
        return Some(lit_vec(".jpg"));
    }
    let png = {
        let mut v: Vec<u8> = Vec::new();
        v.push(0x89);
        v.push(0x50);
        v.push(0x4e);
        v.push(0x47);
        v.push(0x0d);
        v.push(0x0a);
        v.push(0x1a);
        v.push(0x0a);
        v
    };
    proof {
        assert(png@ =~= seq![0x89u8, 0x50u8, 0x4eu8, 0x47u8, 0x0du8, 0x0au8, 0x1au8, 0x0au8]);
    }
    if magic_at(b, 0, png.as_slice()) {
        return Some(lit_vec(".png"));
    }
    if magic_at(b, 0, "GIF87a".as_bytes()) || magic_at(b, 0, "GIF89a".as_bytes()) {
        return Some(lit_vec(".gif"));
    }
    if magic_at(b, 0, "BM".as_bytes()) {
        return Some(lit_vec(".bmp"));
    }
    if magic_at(b, 0, "RIFF".as_bytes()) {
        if b.len() < 12 {
            return Some(lit_vec(".webp"));
        }
        let sub = sub_vec(b, 8, 12);
        proof {
            assert(sub@ =~= b@.subrange(8, 12));
        }
        if eq_bytes(sub.as_slice(), "WAVE".as_bytes()) {
            return Some(lit_vec(".wav"));
        }
        if eq_bytes(sub.as_slice(), "AVI ".as_bytes()) {
            return Some(lit_vec(".avi"));
        }
        if eq_bytes(sub.as_slice(), "WEBP".as_bytes()) {
            return Some(lit_vec(".webp"));
        }
        // An unrecognised RIFF subtype falls through to the remaining
        // signatures, as none of the leading ones can match a RIFF head.
    }
    let pk34 = {
        let mut v: Vec<u8> = Vec::new();
        v.push(0x50);
        v.push(0x4b);
        v.push(0x03);
        v.push(0x04);
        v
    };
    proof {
        assert(pk34@ =~= seq![0x50u8, 0x4bu8, 0x03u8, 0x04u8]);
    }
    if magic_at(b, 0, pk34.as_slice()) {
        if b.len() >= 30 {
            return Some(zip_refine(b));
        }
        return Some(lit_vec(".zip"));
    }
    let pk56 = {
        let mut v: Vec<u8> = Vec::new();
        v.push(0x50);
        v.push(0x4b);
        v.push(0x05);
        v.push(0x06);
        v
    };
    proof {
        assert(pk56@ =~= seq![0x50u8, 0x4bu8, 0x05u8, 0x06u8]);
    }
    if magic_at(b, 0, pk56.as_slice()) {
        return Some(lit_vec(".zip"));
    }
    let rar4 = {
        let mut v = lit_vec("Rar!");
        v.push(0x1a);
        v.push(0x07);
        v.push(0x00);
        v
    };
    proof {
        assert(rar4@ =~= "Rar!".spec_bytes() + seq![0x1au8, 0x07u8, 0x00u8]);
    }
    if magic_at(b, 0, rar4.as_slice()) {
        return Some(lit_vec(".rar"));
    }
    let rar5 = {
        let mut v = lit_vec("Rar!");
        v.push(0x1a);
        v.push(0x07);
        v.push(0x01);
        v.push(0x00);
        v
    };
    proof {
        assert(rar5@ =~= "Rar!".spec_bytes() + seq![0x1au8, 0x07u8, 0x01u8, 0x00u8]);
    }
    if magic_at(b, 0, rar5.as_slice()) {
        return Some(lit_vec(".rar"));
    }
    let sevenz = {
        let mut v = lit_vec("7z");
        v.push(0xbc);
        v.push(0xaf);
        v.push(0x27);
        v.push(0x1c);
        v
    };
    proof {
        assert(sevenz@ =~= "7z".spec_bytes() + seq![0xbcu8, 0xafu8, 0x27u8, 0x1cu8]);
    }
    if magic_at(b, 0, sevenz.as_slice()) {
        return Some(lit_vec(".7z"));
    }
    let gz = {
        let mut v: Vec<u8> = Vec::new();
        v.push(0x1f);
        v.push(0x8b);
        v.push(0x08);
        v
    };
    proof {
        assert(gz@ =~= seq![0x1fu8, 0x8bu8, 0x08u8]);
    }
    if magic_at(b, 0, gz.as_slice()) {
        return Some(lit_vec(".gz"));
    }
    if magic_at(b, 0, "BZh".as_bytes()) {
        return Some(lit_vec(".bz2"));
    }
    if magic_at(b, 4, "ftyp".as_bytes()) {
        if b.len() >= 12 {
            let brand = sub_vec(b, 8, 12);
            proof {
                assert(brand@ =~= b@.subrange(8, 12));
            }
            if eq_bytes(brand.as_slice(), "M4A ".as_bytes()) {
                return Some(lit_vec(".m4a"));
            }
            if eq_bytes(brand.as_slice(), "M4V ".as_bytes()) {
                return Some(lit_vec(".m4v"));
            }
            if eq_bytes(brand.as_slice(), "qt  ".as_bytes()) {
                return Some(lit_vec(".mov"));
            }
        }
        return Some(lit_vec(".mp4"));
    }
    let mkv = {
        let mut v: Vec<u8> = Vec::new();
        v.push(0x1a);
        v.push(0x45);
        v.push(0xdf);
        v.push(0xa3);
        v
    };
    proof {
        assert(mkv@ =~= seq![0x1au8, 0x45u8, 0xdfu8, 0xa3u8]);
    }
    if magic_at(b, 0, mkv.as_slice()) {
        return Some(lit_vec(".mkv"));
    }
    let mpg_ba = {
        let mut v: Vec<u8> = Vec::new();
        v.push(0x00);
        v.push(0x00);
        v.push(0x01);
        v.push(0xba);
        v
    };
    proof {
        assert(mpg_ba@ =~= seq![0x00u8, 0x00u8, 0x01u8, 0xbau8]);
    }
    if magic_at(b, 0, mpg_ba.as_slice()) {
        return Some(lit_vec(".mpg"));
    }
    let mpg_b3 = {
        let mut v: Vec<u8> = Vec::new();
        v.push(0x00);
        v.push(0x00);
        v.push(0x01);
        v.push(0xb3);
        v
    };
    proof {
        assert(mpg_b3@ =~= seq![0x00u8, 0x00u8, 0x01u8, 0xb3u8]);
    }
    if magic_at(b, 0, mpg_b3.as_slice()) {
        return Some(lit_vec(".mpg"));
    }
    if magic_at(b, 0, "ID3".as_bytes()) {
        return Some(lit_vec(".mp3"));
    }
    let mp3 = {
        let mut v: Vec<u8> = Vec::new();
        v.push(0xff);
        v.push(0xfb);
        v
    };
    proof {
        assert(mp3@ =~= seq![0xffu8, 0xfbu8]);
    }
    if magic_at(b, 0, mp3.as_slice()) {
        return Some(lit_vec(".mp3"));
    }
    if magic_at(b, 0, "fLaC".as_bytes()) {
        return Some(lit_vec(".flac"));
    }
    if magic_at(b, 0, "OggS".as_bytes()) {
        return Some(lit_vec(".ogg"));
    }
    if magic_at(b, 0, "%PDF".as_bytes()) {
        return Some(lit_vec(".pdf"));
    }
    let ole = {
        let mut v: Vec<u8> = Vec::new();
        v.push(0xd0);
        v.push(0xcf);
        v.push(0x11);
        v.push(0xe0);
        v.push(0xa1);
        v.push(0xb1);
        v.push(0x1a);
        v.push(0xe1);
        v
    };
    proof {
        assert(ole@ =~= seq![0xd0u8, 0xcfu8, 0x11u8, 0xe0u8, 0xa1u8, 0xb1u8, 0x1au8, 0xe1u8]);
    }
    if magic_at(b, 0, ole.as_slice()) {
        return Some(lit_vec(".doc"));
    }
    if magic_at(b, 0x8001, "CD001".as_bytes()) || magic_at(b, 0x8801, "CD001".as_bytes())
        || magic_at(b, 0x9001, "CD001".as_bytes()) {
        return Some(lit_vec(".iso"));
    }
    None
}

} // verus!
