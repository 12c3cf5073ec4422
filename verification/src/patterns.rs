//! Filename grammar for archive and recovery files.
//!
//! These rules decide which names are RAR entry points, which belong to a
//! RAR set, and which are PAR2 recovery files. Matching is ASCII
//! case-insensitive; paths are byte strings whose components are separated
//! by `/`.

use vstd::prelude::*;

use crate::text::{
    contains_bytes, eq_bytes, find_last_byte, is_digit, lower_ends_with, lower_starts_with,
    spec_all_digits, spec_contains, spec_ends_with, spec_is_digit, spec_lower_seq,
    spec_starts_with, sub_vec, to_lower,
};

verus! {

/// `i` is the position of the last occurrence of `c` in `s`.
pub open spec fn spec_is_last_of(s: Seq<u8>, c: u8, i: int) -> bool {
    0 <= i < s.len() && s[i] == c && forall|j: int| i < j < s.len() ==> s[j] != c
}

/// The final path component: everything after the last `/`.
pub open spec fn spec_file_name(p: Seq<u8>) -> Seq<u8> {
    if exists|i: int| #[trigger] spec_is_last_of(p, '/' as u8, i) {
        let i = choose|i: int| #[trigger] spec_is_last_of(p, '/' as u8, i);
        p.subrange(i + 1, p.len() as int)
    } else {
        p
    }
}

/// The extension of the final path component: what follows its last `.`,
/// provided that dot is not its first byte (a leading dot starts a hidden
/// file, not an extension).
pub open spec fn spec_extension(p: Seq<u8>) -> Option<Seq<u8>> {
    let n = spec_file_name(p);
    if exists|j: int| #[trigger] spec_is_last_of(n, '.' as u8, j) && j > 0 {
        let j = choose|j: int| #[trigger] spec_is_last_of(n, '.' as u8, j) && j > 0;
        Some(n.subrange(j + 1, n.len() as int))
    } else {
        None
    }
}

/// The four bytes of the `.rar` suffix.
pub open spec fn rar_suffix() -> Seq<u8> {
    seq!['.' as u8, 'r' as u8, 'a' as u8, 'r' as u8]
}

/// The five bytes of the `.part` marker of multi-part archives.
pub open spec fn part_marker() -> Seq<u8> {
    seq!['.' as u8, 'p' as u8, 'a' as u8, 'r' as u8, 't' as u8]
}

/// On an already lower-cased name with the `.rar` suffix removed:
/// the tail starting at `i` is `.part` followed by one or more digits.
pub open spec fn spec_part_at(t: Seq<u8>, i: int) -> bool {
    0 <= i && i + 5 < t.len() && t.subrange(i, i + 5) == part_marker() && spec_all_digits(
        t.subrange(i + 5, t.len() as int),
    )
}

/// As `spec_part_at`, with the digit run being zeros followed by a final
/// `1`: the first part of a multi-part archive.
pub open spec fn spec_first_part_at(t: Seq<u8>, i: int) -> bool {
    spec_part_at(t, i) && t[t.len() - 1] == '1' as u8 && forall|j: int|
        i + 5 <= j < t.len() - 1 ==> t[j] == '0' as u8
}

/// The tail of `t` is `.r` followed by exactly two digits: an old-style
/// split volume.
pub open spec fn spec_old_style_tail(t: Seq<u8>) -> bool {
    t.len() >= 4 && t[t.len() - 4] == '.' as u8 && t[t.len() - 3] == 'r' as u8 && spec_is_digit(
        t[t.len() - 2],
    ) && spec_is_digit(t[t.len() - 1])
}

/// A name to extract: `.rar`, and if it is one part of many, the first.
pub open spec fn spec_is_extractable_name(name: Seq<u8>) -> bool {
    let l = spec_lower_seq(name);
    spec_ends_with(l, rar_suffix()) && {
        let t = l.take(l.len() - 4);
        (exists|i: int| #[trigger] spec_part_at(t, i)) ==> (exists|i: int| #[trigger] spec_first_part_at(t, i))
    }
}

/// A name that belongs to a RAR set: `.rar` itself or an old-style split.
pub open spec fn spec_is_rar_related(name: Seq<u8>) -> bool {
    let l = spec_lower_seq(name);
    spec_ends_with(l, rar_suffix()) || spec_old_style_tail(l)
}

/// The base of a RAR name: the name with `.rar` removed, and before that
/// one `.partNN` or `.rNN` marker if one directly precedes it.
pub open spec fn spec_extract_base_name(name: Seq<u8>) -> Option<Seq<u8>> {
    let l = spec_lower_seq(name);
    if !spec_ends_with(l, rar_suffix()) {
        None
    } else {
        let t = l.take(l.len() - 4);
        if exists|i: int| #[trigger] spec_part_at(t, i) {
            let i = choose|i: int| #[trigger] spec_part_at(t, i);
            Some(name.take(i))
        } else if spec_old_style_tail(t) {
            Some(name.take(t.len() - 4))
        } else {
            Some(name.take(t.len() as int))
        }
    }
}

/// Only one tail of a name can read `.part` followed by digits: a later
/// start would put the later `.` inside the earlier marker or digit run.
proof fn lemma_part_at_unique(t: Seq<u8>, i: int, j: int)
    requires
        spec_part_at(t, i),
        spec_part_at(t, j),
    ensures
        i == j,
{
    if i < j {
        assert(t.subrange(j, j + 5)[0] == t[j]);
        assert(t[j] == '.' as u8);
        if j >= i + 5 {
            assert(t.subrange(i + 5, t.len() as int)[j - i - 5] == t[j]);
            assert(spec_is_digit(t[j]));
        } else {
            assert(t.subrange(i, i + 5)[j - i] == t[j]);
        }
    } else if j < i {
        assert(t.subrange(i, i + 5)[0] == t[i]);
        assert(t[i] == '.' as u8);
        if i >= j + 5 {
            assert(t.subrange(j + 5, t.len() as int)[i - j - 5] == t[i]);
            assert(spec_is_digit(t[i]));
        } else {
            assert(t.subrange(j, j + 5)[i - j] == t[i]);
        }
    }
}

fn part_marker_vec() -> (r: Vec<u8>)
    ensures
        r@ == part_marker(),
{
    let mut v: Vec<u8> = Vec::new();
    v.push('.' as u8);
    v.push('p' as u8);
    v.push('a' as u8);
    v.push('r' as u8);
    v.push('t' as u8);
    proof {
        assert(v@ =~= part_marker());
    }
    v
}

fn rar_suffix_vec() -> (r: Vec<u8>)
    ensures
        r@ == rar_suffix(),
{
    let mut v: Vec<u8> = Vec::new();
    v.push('.' as u8);
    v.push('r' as u8);
    v.push('a' as u8);
    v.push('r' as u8);
    proof {
        assert(v@ =~= rar_suffix());
    }
    v
}

/// The final path component of `p`, copied out.
pub fn file_name(p: &[u8]) -> (r: Vec<u8>)
    ensures
        r@ == spec_file_name(p@),
{
    let n = p.len();
    match find_last_byte(p, '/' as u8) {
        Some(i) => {
            proof {
                assert(spec_is_last_of(p@, '/' as u8, i as int));
                let w = choose|w: int| #[trigger] spec_is_last_of(p@, '/' as u8, w);
                assert(w == i);
            }
            sub_vec(p, i + 1, n)
        },
        None => {
            proof {
                assert(forall|i: int| !#[trigger] spec_is_last_of(p@, '/' as u8, i));
            }
            sub_vec(p, 0, p.len())
        },
    }
}

/// The extension of the final path component of `p`, if it has one.
pub fn extension(p: &[u8]) -> (r: Option<Vec<u8>>)
    ensures
        match r {
            Some(e) => spec_extension(p@) == Some(e@),
            None => spec_extension(p@) is None,
        },
{
    let name = file_name(p);
    let len = name.len();
    match find_last_byte(name.as_slice(), '.' as u8) {
        Some(j) if j > 0 => {
            proof {
                let n = spec_file_name(p@);
                assert(spec_is_last_of(n, '.' as u8, j as int));
                let w = choose|w: int| #[trigger] spec_is_last_of(n, '.' as u8, w) && w > 0;
                assert(w == j);
            }
            Some(sub_vec(name.as_slice(), j + 1, len))
        },
        _ => {
            proof {
                let n = spec_file_name(p@);
                assert(forall|j: int| !(#[trigger] spec_is_last_of(n, '.' as u8, j) && j > 0));
            }
            None
        },
    }
}

/// Are the bytes of `t` from `from` to its end all decimal digits?
fn all_digits_from(t: &[u8], from: usize) -> (r: bool)
    requires
        from <= t@.len(),
    ensures
        r == spec_all_digits(t@.subrange(from as int, t@.len() as int)),
{
    let n = t.len();
    let mut j: usize = from;
    while j < n
        invariant
            from <= j <= n,
            n == t@.len(),
            forall|k: int| from <= k < j ==> spec_is_digit(#[trigger] t@[k]),
        decreases n - j,
    {
        if !is_digit(t[j]) {
            proof {
                assert(t@.subrange(from as int, n as int)[j - from] == t@[j as int]);
            }
            return false;
        }
        j += 1;
    }
    proof {
        assert forall|k: int|
            0 <= k < t@.subrange(from as int, n as int).len() implies spec_is_digit(
            #[trigger] t@.subrange(from as int, n as int)[k],
        ) by {
            assert(t@.subrange(from as int, n as int)[k] == t@[from + k]);
        }
    }
    true
}

/// Are the bytes of `t` in `[from, to)` all `0`?
fn zeros_between(t: &[u8], from: usize, to: usize) -> (r: bool)
    requires
        from <= to <= t@.len(),
    ensures
        r == forall|k: int| from <= k < to ==> #[trigger] t@[k] == '0' as u8,
{
    let mut j: usize = from;
    while j < to
        invariant
            from <= j <= to <= t@.len(),
            forall|k: int| from <= k < j ==> #[trigger] t@[k] == '0' as u8,
        decreases to - j,
    {
        if t[j] != '0' as u8 {
            return false;
        }
        j += 1;
    }
    true
}

/// Scan for the unique `.part<digits>` tail of `t`, if there is one.
fn find_part_suffix(t: &[u8]) -> (r: Option<usize>)
    ensures
        match r {
            Some(i) => spec_part_at(t@, i as int),
            None => forall|i: int| !#[trigger] spec_part_at(t@, i),
        },
{
    let marker = part_marker_vec();
    let n = t.len();
    if n < 6 {
        return None;
    }
    let mut i: usize = 0;
    while i < n - 5
        invariant
            n == t@.len(),
            6 <= n,
            i <= n - 5,
            forall|k: int| 0 <= k < i ==> !#[trigger] spec_part_at(t@, k),
            marker@ == part_marker(),
        decreases n - i,
    {
        if crate::text::match_at(t, marker.as_slice(), i) {
            if all_digits_from(t, i + 5) {
                return Some(i);
            }
            proof {
                assert(!spec_part_at(t@, i as int));
            }
        }
        i += 1;
    }
    proof {
        assert forall|k: int| i <= k implies !#[trigger] spec_part_at(t@, k) by {
            assert(!(k + 5 < t@.len()));
        }
    }
    None
}

/// Is `path` a RAR archive to hand to the extractor: a single `.rar`
/// file, or the first part of a multi-part set?
pub fn is_extractable_archive(path: &[u8]) -> (r: bool)
    ensures
        r == spec_is_extractable_name(spec_file_name(path@)),
{
    let name = file_name(path);
    let rar = rar_suffix_vec();
    if !lower_ends_with(name.as_slice(), rar.as_slice()) {
        return false;
    }
    let l = to_lower(name.as_slice());
    let t = sub_vec(l.as_slice(), 0, l.len() - 4);
    proof {
        assert(t@ =~= spec_lower_seq(name@).take(spec_lower_seq(name@).len() - 4));
    }
    match find_part_suffix(t.as_slice()) {
        None => true,
        Some(i) => {
            // Multi-part: extractable only when the digit run is 0*1.
            let n = t.len();
            if t[n - 1] != '1' as u8 {
                proof {
                    assert(forall|w: int| !#[trigger] spec_first_part_at(t@, w));
                }
                return false;
            }
            let zeros = zeros_between(t.as_slice(), i + 5, n - 1);
            proof {
                if zeros {
                    assert(spec_first_part_at(t@, i as int));
                } else {
                    assert forall|w: int| !#[trigger] spec_first_part_at(t@, w) by {
                        if spec_part_at(t@, w) {
                            lemma_part_at_unique(t@, w, i as int);
                        }
                    }
                }
            }
            zeros
        },
    }
}

/// Does `name` belong to a RAR set (for deletion after extraction)?
pub fn is_rar_related(name: &[u8]) -> (r: bool)
    ensures
        r == spec_is_rar_related(name@),
{
    let rar = rar_suffix_vec();
    if lower_ends_with(name, rar.as_slice()) {
        return true;
    }
    let l = to_lower(name);
    let n = l.len();
    n >= 4 && l[n - 4] == '.' as u8 && l[n - 3] == 'r' as u8 && is_digit(l[n - 2]) && is_digit(
        l[n - 1],
    )
}

/// The base of a RAR name, for finding the other parts of its set.
pub fn extract_base_name(name: &[u8]) -> (r: Option<Vec<u8>>)
    ensures
        match r {
            Some(b) => spec_extract_base_name(name@) == Some(b@),
            None => spec_extract_base_name(name@) is None,
        },
{
    let rar = rar_suffix_vec();
    if !lower_ends_with(name, rar.as_slice()) {
        return None;
    }
    let l = to_lower(name);
    let t = sub_vec(l.as_slice(), 0, l.len() - 4);
    proof {
        assert(t@ =~= spec_lower_seq(name@).take(spec_lower_seq(name@).len() - 4));
    }
    match find_part_suffix(t.as_slice()) {
        Some(i) => {
            proof {
                let w = choose|w: int| #[trigger] spec_part_at(t@, w);
                lemma_part_at_unique(t@, w, i as int);
                assert(name@.take(i as int) =~= name@.subrange(0, i as int));
            }
            Some(sub_vec(name, 0, i))
        },
        None => {
            let n = t.len();
            if n >= 4 && t[n - 4] == '.' as u8 && t[n - 3] == 'r' as u8 && is_digit(t[n - 2])
                && is_digit(t[n - 1]) {
                proof {
                    assert(name@.take(n - 4) =~= name@.subrange(0, n - 4));
                }
                Some(sub_vec(name, 0, n - 4))
            } else {
                proof {
                    assert(name@.take(n as int) =~= name@.subrange(0, n as int));
                }
                Some(sub_vec(name, 0, n))
            }
        },
    }
}

/// Do `base` and `other` belong to one archive set: `other` begins with
/// `base` (case-insensitively) and is itself RAR-related?
pub fn is_same_archive(base: &[u8], other: &[u8]) -> (r: bool)
    ensures
        r == (spec_starts_with(spec_lower_seq(other@), spec_lower_seq(base@))
            && spec_is_rar_related(other@)),
{
    let lb = to_lower(base);
    lower_starts_with(other, lb.as_slice()) && is_rar_related(other)
}

/// Is `path` a PAR2 recovery file (by extension)?
pub fn is_par2_file(path: &[u8]) -> (r: bool)
    ensures
        r == match spec_extension(path@) {
            Some(e) => spec_lower_seq(e) == "par2"@.map_values(|c: char| c as u8),
            None => false,
        },
{
    match extension(path) {
        Some(e) => {
            let l = to_lower(e.as_slice());
            let p = par2_vec();
            eq_bytes(l.as_slice(), p.as_slice())
        },
        None => false,
    }
}

fn par2_vec() -> (r: Vec<u8>)
    ensures
        r@ == "par2"@.map_values(|c: char| c as u8),
{
    let mut v: Vec<u8> = Vec::new();
    v.push('p' as u8);
    v.push('a' as u8);
    v.push('r' as u8);
    v.push('2' as u8);
    proof {
        reveal_strlit("par2");
        assert(v@ =~= "par2"@.map_values(|c: char| c as u8));
    }
    v
}

fn vol_vec() -> (r: Vec<u8>)
    ensures
        r@ == ".vol"@.map_values(|c: char| c as u8),
{
    let mut v: Vec<u8> = Vec::new();
    v.push('.' as u8);
    v.push('v' as u8);
    v.push('o' as u8);
    v.push('l' as u8);
    proof {
        reveal_strlit(".vol");
        assert(v@ =~= ".vol"@.map_values(|c: char| c as u8));
    }
    v
}

/// Is `path` the index PAR2 file: a PAR2 file whose name has no `.vol`?
pub fn is_main_par2(path: &[u8]) -> (r: bool)
    ensures
        r == (match spec_extension(path@) {
            Some(e) => spec_lower_seq(e) == "par2"@.map_values(|c: char| c as u8),
            None => false,
        } && !spec_contains(
            spec_lower_seq(spec_file_name(path@)),
            ".vol"@.map_values(|c: char| c as u8),
        )),
{
    if !is_par2_file(path) {
        return false;
    }
    let name = file_name(path);
    let l = to_lower(name.as_slice());
    let vol = vol_vec();
    !contains_bytes(l.as_slice(), vol.as_slice())
}

/// Does `path` carry exactly the extension `target_ext`, case-insensitively?
pub fn has_extension(path: &[u8], target_ext: &[u8]) -> (r: bool)
    ensures
        r == match spec_extension(path@) {
            Some(e) => spec_lower_seq(e) == spec_lower_seq(target_ext@),
            None => false,
        },
{
    match extension(path) {
        Some(e) => {
            let le = to_lower(e.as_slice());
            let lt = to_lower(target_ext);
            eq_bytes(le.as_slice(), lt.as_slice())
        },
        None => false,
    }
}

} // verus!
